//! Breakpoints: where in a program the machine is to pause.

use vstd::prelude::*;
use vstd::string::*;

use crate::limits::INSTRUCTION_SIZE;

verus! {

/// The identifier of a contract: 32 bytes.
#[derive(Clone, Copy, Debug, Eq)]
pub struct ContractId {
    pub bytes: [u8; 32],
}

impl PartialEq for ContractId {
    fn eq(&self, other: &ContractId) -> (same: bool) {
        let mut i: usize = 0;
        while i < 32
            invariant
                i <= 32,
                forall|j: int| 0 <= j < i ==> self.bytes[j] == other.bytes[j],
            decreases 32 - i,
        {
            if self.bytes[i] != other.bytes[i] {
                return false;
            }
            i = i + 1;
        }
        assert(self.bytes =~= other.bytes);
        true
    }
}

impl vstd::std_specs::cmp::PartialEqSpecImpl for ContractId {
    open spec fn obeys_eq_spec() -> bool {
        true
    }

    open spec fn eq_spec(&self, other: &ContractId) -> bool {
        *self == *other
    }
}

/// The value of a byte as a hexadecimal digit, in either case.
pub open spec fn hex_digit(b: u8) -> Option<nat> {
    if 0x30 <= b <= 0x39 {
        Some((b - 0x30) as nat)
    } else if 0x61 <= b <= 0x66 {
        Some((b - 0x61 + 10) as nat)
    } else if 0x41 <= b <= 0x46 {
        Some((b - 0x41 + 10) as nat)
    } else {
        None
    }
}

/// The text of a contract identifier, given by its bytes, without the `0x`
/// that may lead it.
pub open spec fn contract_id_digits(text: Seq<u8>) -> Seq<u8> {
    if text.len() >= 2 && text[0] == 0x30 && text[1] == 0x78 {
        text.skip(2)
    } else {
        text
    }
}

/// The byte that two hexadecimal digits denote, the high one first.
pub open spec fn hex_pair(high: u8, low: u8) -> u8 {
    (hex_digit(high).unwrap() * 16 + hex_digit(low).unwrap()) as u8
}

/// The bytes that a contract identifier written as text denotes. The text,
/// given by its bytes, may start with `0x`; its next 64 bytes are
/// hexadecimal digits, two for each byte, the high one first. What follows
/// them is not read.
pub open spec fn contract_id_bytes(text: Seq<u8>) -> Option<Seq<u8>> {
    let digits = contract_id_digits(text);
    if digits.len() >= 64 && (forall|i: int| 0 <= i < 64 ==> hex_digit(#[trigger] digits[i]) is Some) {
        Some(Seq::new(32, |i: int| hex_pair(digits[2 * i], digits[2 * i + 1])))
    } else {
        None
    }
}

/// Calls `str::parse` for `fuel_vm::prelude::ContractId`. Its source skips a
/// leading `0x`, then reads 32 times two bytes of the text as hexadecimal
/// digits and fails where one is missing or is none; it does not look at
/// what follows. The contract says so by `contract_id_bytes`.
#[verifier::external_body]
fn contract_id_from_str(text: &str) -> (r: Option<[u8; 32]>)
    ensures
        r matches Some(bytes) ==> contract_id_bytes(text.spec_bytes()) == Some(bytes@),
        r is None ==> contract_id_bytes(text.spec_bytes()) is None,
{
    match text.parse::<fuel_vm::prelude::ContractId>() {
        Ok(id) => Some(id.into()),
        Err(_) => None,
    }
}

/// Whether an array holds exactly the given bytes.
pub open spec fn holds(held: [u8; 32], bytes: Seq<u8>) -> bool {
    held@ == bytes
}

/// The contract that a text names, by `contract_id_bytes` of its UTF-8
/// bytes.
pub open spec fn contract_named(text: Seq<char>) -> Option<ContractId> {
    match contract_id_bytes(vstd::utf8::encode_utf8(text)) {
        Some(bytes) => Some(ContractId::of(bytes)),
        None => None,
    }
}

impl ContractId {
    /// The identifier that holds the given 32 bytes.
    pub open spec fn of(bytes: Seq<u8>) -> ContractId
        recommends
            bytes.len() == 32,
    {
        ContractId { bytes: choose|held: [u8; 32]| holds(held, bytes) }
    }

    /// An identifier is the one that holds its bytes.
    pub proof fn lemma_of_own_bytes(self)
        ensures
            ContractId::of(self.bytes@) == self,
    {
        assert(holds(self.bytes, self.bytes@));
        let held = choose|held: [u8; 32]| holds(held, self.bytes@);
        assert(held =~= self.bytes);
    }

    /// Reads a contract identifier from its hexadecimal text.
    pub fn parse(text: &str) -> (r: Option<ContractId>)
        ensures
            r == contract_named(text@),
    {
        match contract_id_from_str(text) {
            Some(bytes) => {
                let id = ContractId { bytes };
                proof {
                    id.lemma_of_own_bytes();
                }
                Some(id)
            },
            None => None,
        }
    }
}

/// The code in which a breakpoint lies.
#[derive(Clone, Copy, Debug, Eq)]
pub enum Target {
    /// The script of the transaction itself, outside any contract call.
    Script,
    /// The code of the given contract.
    Contract(ContractId),
}

impl PartialEq for Target {
    fn eq(&self, other: &Target) -> (same: bool) {
        match (self, other) {
            (Target::Script, Target::Script) => true,
            (Target::Contract(a), Target::Contract(b)) => a == b,
            _ => false,
        }
    }
}

impl vstd::std_specs::cmp::PartialEqSpecImpl for Target {
    open spec fn obeys_eq_spec() -> bool {
        true
    }

    open spec fn eq_spec(&self, other: &Target) -> bool {
        *self == *other
    }
}

/// A place at which the machine pauses: a target and an offset of the
/// program counter in it, in bytes.
#[derive(Clone, Copy, Debug, Eq)]
pub struct Breakpoint {
    pub target: Target,
    pub pc: u64,
}

impl PartialEq for Breakpoint {
    fn eq(&self, other: &Breakpoint) -> (same: bool) {
        self.target == other.target && self.pc == other.pc
    }
}

impl vstd::std_specs::cmp::PartialEqSpecImpl for Breakpoint {
    open spec fn obeys_eq_spec() -> bool {
        true
    }

    open spec fn eq_spec(&self, other: &Breakpoint) -> bool {
        *self == *other
    }
}

/// The target that the machine executes when `context` is the contract whose
/// call is active, if any.
pub open spec fn target_of(context: Option<ContractId>) -> Target {
    match context {
        Some(id) => Target::Contract(id),
        None => Target::Script,
    }
}

impl Breakpoint {
    /// Whether execution at offset `pc`, inside the contract `context` or in
    /// the script when there is none, is at this breakpoint.
    pub open spec fn hit_by(self, context: Option<ContractId>, pc: u64) -> bool {
        self.target == target_of(context) && self.pc == pc
    }

    /// The breakpoint at the instruction number `index` of a contract.
    pub fn new(contract: ContractId, index: u64) -> (bp: Breakpoint)
        requires
            index * INSTRUCTION_SIZE <= u64::MAX,
        ensures
            bp.target == Target::Contract(contract),
            bp.pc == index * INSTRUCTION_SIZE,
    {
        Breakpoint { target: Target::Contract(contract), pc: index * INSTRUCTION_SIZE }
    }

    /// The breakpoint at the instruction number `index` of the script.
    pub fn script(index: u64) -> (bp: Breakpoint)
        requires
            index * INSTRUCTION_SIZE <= u64::MAX,
        ensures
            bp.target == Target::Script,
            bp.pc == index * INSTRUCTION_SIZE,
    {
        Breakpoint { target: Target::Script, pc: index * INSTRUCTION_SIZE }
    }

    /// Decides whether the machine, about to execute at `pc` in `context`,
    /// has reached this breakpoint.
    pub fn matches(&self, context: Option<ContractId>, pc: u64) -> (hit: bool)
        ensures
            hit == self.hit_by(context, pc),
    {
        let current: Target = match context {
            Some(id) => Target::Contract(id),
            None => Target::Script,
        };
        self.target == current && self.pc == pc
    }
}

} // verus!
