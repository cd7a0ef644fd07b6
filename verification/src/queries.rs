//! The values that travel over the remote query binding: the arguments of
//! its operations and the fields of their replies.

use vstd::prelude::*;
use vstd::string::*;

use crate::breakpoint::{ContractId, Target};
use crate::error::{ProtocolError, RangeError};
use crate::numeral::{numeral_value, parse_decimal};
use crate::session::SessionId;
use crate::text::{decimal, lemma_decimal_reads_back, push_decimal};

verus! {

/// A number of 64 bits as the binding carries it: in decimal text.
#[derive(Debug)]
pub struct U64(String);

impl Clone for U64 {
    fn clone(&self) -> (copy: U64)
        ensures
            copy@ == self@,
            copy.text() == self.text(),
    {
        proof {
            use_type_invariant(self);
        }
        U64(self.0.clone())
    }
}

impl View for U64 {
    type V = u64;

    closed spec fn view(&self) -> u64 {
        numeral_value(self.0@, 10, u64::MAX as nat).unwrap_or(0) as u64
    }
}

impl U64 {
    #[verifier::type_invariant]
    spec fn is_numeral(self) -> bool {
        numeral_value(self.0@, 10, u64::MAX as nat) is Some
    }

    /// The text that carries the number.
    pub closed spec fn text(&self) -> Seq<char> {
        self.0@
    }

    /// Writes `v` for the wire.
    pub fn new(v: u64) -> (out: U64)
        ensures
            out@ == v,
            out.text() == decimal(v as nat),
    {
        let mut text: String = String::new();
        push_decimal(&mut text, v);
        proof {
            assert(text@ =~= decimal(v as nat));
            lemma_decimal_reads_back(v as nat, u64::MAX as nat);
        }
        U64(text)
    }

    /// Takes a number as it came over the wire, if the text is one.
    pub fn from_text(text: String) -> (r: Option<U64>)
        ensures
            r matches Some(number) ==> number.text() == text@ && numeral_value(
                text@,
                10,
                u64::MAX as nat,
            ) == Some(number@ as nat),
            r is None ==> numeral_value(text@, 10, u64::MAX as nat) is None,
    {
        match parse_decimal(text.as_str()) {
            Some(_) => Some(U64(text)),
            None => None,
        }
    }

    /// The number.
    pub fn value(&self) -> (v: u64)
        ensures
            v == self@,
    {
        proof {
            use_type_invariant(self);
        }
        match parse_decimal(self.0.as_str()) {
            Some(v) => v,
            None => 0,
        }
    }

    /// The text to put on the wire. It reads as the number.
    pub fn as_str(&self) -> (text: &str)
        ensures
            text@ == self.text(),
            numeral_value(text@, 10, u64::MAX as nat) == Some(self@ as nat),
    {
        proof {
            use_type_invariant(self);
        }
        self.0.as_str()
    }
}

/// Argument of the `register` query.
#[derive(Debug)]
pub struct RegisterArguments {
    pub id: SessionId,
    pub reg: U64,
}

/// Reply to the `register` query.
#[derive(Debug)]
pub struct Register {
    pub register: U64,
}

/// Argument of the `memory` query.
#[derive(Debug)]
pub struct MemoryArguments {
    pub id: SessionId,
    pub start: U64,
    pub size: U64,
}

/// Reply to the `memory` query: the bytes as the text of a JSON array.
#[derive(Debug)]
pub struct Memory {
    pub memory: String,
}

/// Reply to the `start-session` mutation.
#[derive(Debug)]
pub struct StartSession {
    pub start_session: SessionId,
}

/// Argument of the `end-session` mutation.
#[derive(Debug)]
pub struct EndSessionArguments {
    pub id: SessionId,
}

/// Reply to the `end-session` mutation.
#[derive(Debug)]
pub struct EndSession {
    pub end_session: bool,
}

/// Argument of the `set-breakpoint` mutation.
#[derive(Debug)]
pub struct SetBreakpointArguments {
    pub id: SessionId,
    pub bp: Breakpoint,
}

/// Reply to the `set-breakpoint` mutation.
#[derive(Debug)]
pub struct SetBreakpoint {
    pub set_breakpoint: bool,
}

/// A breakpoint as the binding carries it: the bytes of the contract, none
/// for the script, and the offset.
#[derive(Debug)]
pub struct Breakpoint {
    pub contract: Vec<i32>,
    pub pc: i32,
}

/// Argument of the `set-single-stepping` mutation.
#[derive(Debug)]
pub struct SetSingleSteppingArguments {
    pub id: SessionId,
    pub enable: bool,
}

/// Reply to the `set-single-stepping` mutation.
#[derive(Debug)]
pub struct SetSingleStepping {
    pub set_single_stepping: bool,
}

/// Argument of the `start-tx` mutation: the transaction as JSON text.
#[derive(Debug)]
pub struct StartTxArguments {
    pub id: SessionId,
    pub tx: String,
}

/// Reply to the `start-tx` mutation.
#[derive(Debug)]
pub struct StartTx {
    pub start_tx: RunResult,
}

/// Argument of the `continue-tx` mutation.
#[derive(Debug)]
pub struct ContinueTxArguments {
    pub id: SessionId,
}

/// Reply to the `continue-tx` mutation.
#[derive(Debug)]
pub struct ContinueTx {
    pub continue_tx: RunResult,
}

/// How a run ended: at a breakpoint, or, with none, because the program
/// came to its end.
#[derive(Debug)]
pub struct RunResult {
    pub breakpoint: Option<OutputBreakpoint>,
}

/// A breakpoint as a reply carries it.
#[derive(Debug)]
pub struct OutputBreakpoint {
    pub contract: OutputContractId,
    pub pc: i32,
}

/// The bytes of a contract identifier as a reply carries them; none for the
/// script.
#[derive(Debug)]
pub struct OutputContractId {
    pub value: Vec<i32>,
}

/// The numbers that carry a target: none for the script, the 32 bytes of
/// the identifier for a contract.
pub open spec fn target_numbers(target: Target) -> Seq<i32> {
    match target {
        Target::Script => Seq::<i32>::empty(),
        Target::Contract(id) => Seq::new(32, |i: int| id.bytes[i] as i32),
    }
}

/// Whether the numbers carry a target.
pub open spec fn carries_target(numbers: Seq<i32>) -> bool {
    numbers.len() == 0 || (numbers.len() == 32 && forall|i: int|
        0 <= i < 32 ==> 0 <= #[trigger] numbers[i] <= 255)
}

/// Writes a target as the numbers that carry it.
pub fn target_to_numbers(target: &Target) -> (numbers: Vec<i32>)
    ensures
        numbers@ == target_numbers(*target),
        carries_target(numbers@),
{
    let mut numbers: Vec<i32> = Vec::new();
    match target {
        Target::Script => {},
        Target::Contract(id) => {
            let mut i: usize = 0;
            while i < 32
                invariant
                    i <= 32,
                    numbers@ == Seq::new(i as nat, |j: int| id.bytes[j] as i32),
                decreases 32 - i,
            {
                numbers.push(id.bytes[i] as i32);
                i = i + 1;
                assert(numbers@ =~= Seq::new(i as nat, |j: int| id.bytes[j] as i32));
            }
        },
    }
    numbers
}

/// Reads a target from the numbers that carry it.
pub fn target_from_numbers(numbers: &Vec<i32>) -> (r: Option<Target>)
    ensures
        r matches Some(target) ==> target_numbers(target) == numbers@,
        r is None ==> !carries_target(numbers@),
{
    if numbers.len() == 0 {
        let target = Target::Script;
        assert(target_numbers(target) =~= numbers@);
        return Some(target);
    }
    if numbers.len() != 32 {
        return None;
    }
    let mut bytes: [u8; 32] = [0u8; 32];
    let mut i: usize = 0;
    while i < 32
        invariant
            i <= 32,
            numbers@.len() == 32,
            forall|j: int| 0 <= j < i ==> bytes[j] as i32 == numbers@[j],
        decreases 32 - i,
    {
        let number: i32 = numbers[i];
        if number < 0 || number > 255 {
            return None;
        }
        bytes[i] = number as u8;
        i = i + 1;
    }
    let target = Target::Contract(ContractId { bytes });
    assert(target_numbers(target) =~= numbers@);
    Some(target)
}

impl Breakpoint {
    /// Writes a breakpoint for the wire. The binding carries offsets up to
    /// the largest `i32` only.
    pub fn from_breakpoint(bp: &crate::breakpoint::Breakpoint) -> (r: Result<Breakpoint, RangeError>)
        ensures
            bp.pc <= i32::MAX ==> r is Ok && r->Ok_0.contract@ == target_numbers(bp.target)
                && r->Ok_0.pc == bp.pc,
            bp.pc > i32::MAX ==> r == Err::<Breakpoint, RangeError>(
                RangeError::ProgramCounter { pc: bp.pc },
            ),
    {
        if bp.pc > i32::MAX as u64 {
            return Err(RangeError::ProgramCounter { pc: bp.pc });
        }
        Ok(Breakpoint { contract: target_to_numbers(&bp.target), pc: bp.pc as i32 })
    }

    /// Reads a breakpoint that came over the wire.
    pub fn to_breakpoint(&self) -> (r: Result<crate::breakpoint::Breakpoint, ProtocolError>)
        ensures
            r == breakpoint_carried(self.contract@, self.pc),
    {
        read_breakpoint(&self.contract, self.pc)
    }
}

/// The breakpoint that a list of numbers and an offset carry, if they carry
/// one: the offset is not negative and the numbers carry a target.
pub open spec fn breakpoint_carried(numbers: Seq<i32>, pc: i32) -> Result<
    crate::breakpoint::Breakpoint,
    ProtocolError,
> {
    if pc >= 0 && carries_target(numbers) {
        Ok(
            crate::breakpoint::Breakpoint {
                target: choose|target: Target| target_numbers(target) == numbers,
                pc: pc as u64,
            },
        )
    } else {
        Err(ProtocolError::Undecodable)
    }
}

/// Two targets that the same numbers carry are one.
pub proof fn lemma_target_numbers_injective(a: Target, b: Target)
    requires
        target_numbers(a) == target_numbers(b),
    ensures
        a == b,
{
    match (a, b) {
        (Target::Contract(x), Target::Contract(y)) => {
            assert forall|i: int| 0 <= i < 32 implies x.bytes[i] == y.bytes[i] by {
                assert(target_numbers(a)[i] == x.bytes[i] as i32);
                assert(target_numbers(b)[i] == y.bytes[i] as i32);
            }
            assert(x.bytes =~= y.bytes);
        },
        (Target::Script, Target::Script) => {},
        (Target::Script, Target::Contract(_)) => {
            assert(target_numbers(a).len() == 0);
            assert(target_numbers(b).len() == 32);
        },
        (Target::Contract(_), Target::Script) => {
            assert(target_numbers(b).len() == 0);
            assert(target_numbers(a).len() == 32);
        },
    }
}

fn read_breakpoint(numbers: &Vec<i32>, pc: i32) -> (r: Result<
    crate::breakpoint::Breakpoint,
    ProtocolError,
>)
    ensures
        r == breakpoint_carried(numbers@, pc),
{
    if pc < 0 {
        return Err(ProtocolError::Undecodable);
    }
    match target_from_numbers(numbers) {
        Some(target) => {
            proof {
                let chosen = choose|target: Target| target_numbers(target) == numbers@;
                lemma_target_numbers_injective(target, chosen);
            }
            Ok(crate::breakpoint::Breakpoint { target, pc: pc as u64 })
        },
        None => Err(ProtocolError::Undecodable),
    }
}

impl OutputBreakpoint {
    /// Reads a breakpoint that came in a reply.
    pub fn to_breakpoint(&self) -> (r: Result<crate::breakpoint::Breakpoint, ProtocolError>)
        ensures
            r == breakpoint_carried(self.contract.value@, self.pc),
    {
        read_breakpoint(&self.contract.value, self.pc)
    }
}

impl RunResult {
    /// Where the run paused, or `None` where the program came to its end.
    pub fn paused_at(&self) -> (r: Result<Option<crate::breakpoint::Breakpoint>, ProtocolError>)
        ensures
            match self.breakpoint {
                Some(hit) => match breakpoint_carried(hit.contract.value@, hit.pc) {
                    Ok(bp) => r == Ok::<Option<crate::breakpoint::Breakpoint>, ProtocolError>(Some(bp)),
                    Err(fault) => r == Err::<Option<crate::breakpoint::Breakpoint>, ProtocolError>(
                        fault,
                    ),
                },
                None => r == Ok::<Option<crate::breakpoint::Breakpoint>, ProtocolError>(None),
            },
    {
        match &self.breakpoint {
            Some(hit) => match hit.to_breakpoint() {
                Ok(bp) => Ok(Some(bp)),
                Err(fault) => Err(fault),
            },
            None => Ok(None),
        }
    }
}

} // verus!
