//! The text of the line protocol: how each command and each response is
//! written, and how it is read again.

use vstd::prelude::*;
use vstd::string::*;

use crate::breakpoint::{Breakpoint, ContractId, Target};
use crate::command::{Command, Response, ResponseView};
use crate::error::ProtocolError;
use crate::json::{
    all_elements, check_element, element_list_at, element_list_text, expect, holds_at,
    lemma_decimal_on_one_line, lemma_element_list_found, lemma_elements_on_one_line,
    lemma_list_bounded, lemma_list_found, lemma_list_on_one_line, lemma_number_found,
    lemma_string_found, lemma_string_on_one_line, list_at, on_one_line,
    list_text, number_at, push_elements, push_list, push_string, read_elements, read_list,
    read_number, read_string, string_at, string_text, widened,
};
use crate::numeral::chars_of;
use crate::text::{decimal, push_decimal, push_text, same_text};

verus! {

/// The numbers that stand for a target: none for the script, the 32 bytes of
/// the identifier for a contract.
pub open spec fn target_list(target: Target) -> Seq<u64> {
    match target {
        Target::Script => Seq::<u64>::empty(),
        Target::Contract(id) => widened(id.bytes@),
    }
}

/// A breakpoint as text.
pub open spec fn breakpoint_text(bp: Breakpoint) -> Seq<char> {
    "{\"contract\":"@ + list_text(target_list(bp.target)) + ",\"pc\":"@ + decimal(bp.pc as nat)
        + "}"@
}

impl Command {
    /// The command as it is written on the wire, without the line feed.
    pub open spec fn wire(self) -> Seq<char> {
        match self {
            Command::Version => "{\"version\":null}"@,
            Command::Continue => "{\"continue\":null}"@,
            Command::SetStepping(on) => if on {
                "{\"single-stepping\":true}"@
            } else {
                "{\"single-stepping\":false}"@
            },
            Command::SetBreakpoint(bp) => "{\"breakpoint\":"@ + breakpoint_text(bp) + "}"@,
            Command::ReadRegisters => "{\"read-registers\":null}"@,
            Command::ReadMemory { start, len } => "{\"read-memory\":{\"start\":"@ + decimal(
                start as nat,
            ) + ",\"len\":"@ + decimal(len as nat) + "}}"@,
        }
    }

    /// Writes the command for the wire.
    pub fn encode(&self) -> (line: String)
        ensures
            line@ == self.wire(),
    {
        let mut line: String = String::new();
        match self {
            Command::Version => {
                push_text(&mut line, "{\"version\":null}");
            },
            Command::Continue => {
                push_text(&mut line, "{\"continue\":null}");
            },
            Command::SetStepping(on) => {
                if *on {
                    push_text(&mut line, "{\"single-stepping\":true}");
                } else {
                    push_text(&mut line, "{\"single-stepping\":false}");
                }
            },
            Command::SetBreakpoint(bp) => {
                push_text(&mut line, "{\"breakpoint\":");
                push_breakpoint(&mut line, bp);
                push_text(&mut line, "}");
            },
            Command::ReadRegisters => {
                push_text(&mut line, "{\"read-registers\":null}");
            },
            Command::ReadMemory { start, len } => {
                push_text(&mut line, "{\"read-memory\":{\"start\":");
                push_decimal(&mut line, *start);
                push_text(&mut line, ",\"len\":");
                push_decimal(&mut line, *len);
                push_text(&mut line, "}}");
            },
        }
        assert(line@ =~= self.wire());
        line
    }
}

/// Writes the numbers that stand for a target.
fn target_to_list(target: &Target) -> (numbers: Vec<u64>)
    ensures
        numbers@ == target_list(*target),
{
    let mut numbers: Vec<u64> = Vec::new();
    match target {
        Target::Script => {},
        Target::Contract(id) => {
            let mut i: usize = 0;
            while i < 32
                invariant
                    i <= 32,
                    numbers@ == widened(id.bytes@.take(i as int)),
                decreases 32 - i,
            {
                numbers.push(id.bytes[i] as u64);
                i = i + 1;
                assert(numbers@ =~= widened(id.bytes@.take(i as int)));
            }
            assert(id.bytes@.take(32) =~= id.bytes@);
        },
    }
    numbers
}

/// Appends a breakpoint to `out`.
fn push_breakpoint(out: &mut String, bp: &Breakpoint)
    ensures
        final(out)@ == old(out)@ + breakpoint_text(*bp),
{
    push_text(out, "{\"contract\":");
    let numbers: Vec<u64> = target_to_list(&bp.target);
    push_list(out, &numbers);
    push_text(out, ",\"pc\":");
    push_decimal(out, bp.pc);
    push_text(out, "}");
    assert(out@ =~= old(out)@ + breakpoint_text(*bp));
}

impl ResponseView {
    /// Whether the response can be written: each of its receipts is one
    /// element of a list.
    pub open spec fn wf(self) -> bool {
        match self {
            ResponseView::Terminated { receipts } => all_elements(receipts),
            _ => true,
        }
    }

    /// The response as it is written on the wire, without the line feed.
    pub open spec fn wire(self) -> Seq<char> {
        match self {
            ResponseView::Done => "{\"ok\":null}"@,
            ResponseView::Version { core } => "{\"version\":{\"core\":"@ + string_text(core) + "}}"@,
            ResponseView::Terminated { receipts } => "{\"terminated\":{\"receipts\":"@
                + element_list_text(receipts) + "}}"@,
            ResponseView::Breakpoint(hit) => "{\"breakpoint\":"@ + breakpoint_text(hit) + "}"@,
            ResponseView::Registers(values) => "{\"read-registers\":"@ + list_text(values) + "}"@,
            ResponseView::Memory(bytes) => "{\"read-memory\":"@ + list_text(widened(bytes)) + "}"@,
        }
    }
}

/// The bytes as numbers of 64 bits.
pub fn widen(bytes: &Vec<u8>) -> (numbers: Vec<u64>)
    ensures
        numbers@ == widened(bytes@),
{
    let mut numbers: Vec<u64> = Vec::new();
    let len: usize = bytes.len();
    let mut i: usize = 0;
    while i < len
        invariant
            i <= len,
            len == bytes@.len(),
            numbers@ == widened(bytes@.take(i as int)),
        decreases len - i,
    {
        numbers.push(bytes[i] as u64);
        i = i + 1;
        assert(numbers@ =~= widened(bytes@.take(i as int)));
    }
    assert(bytes@.take(len as int) =~= bytes@);
    numbers
}

/// Decides whether each text is an element.
fn check_elements(items: &Vec<String>) -> (ok: bool)
    ensures
        ok == all_elements(items.deep_view()),
{
    let len: usize = items.len();
    let mut i: usize = 0;
    while i < len
        invariant
            i <= len,
            len == items@.len(),
            forall|j: int| 0 <= j < i ==> crate::json::is_element(#[trigger] items.deep_view()[j]),
        decreases len - i,
    {
        assert(items.deep_view()[i as int] == items[i as int]@);
        if !check_element(items[i].as_str()) {
            return false;
        }
        i = i + 1;
    }
    true
}

impl Response {
    /// Writes the response for the wire. A response with a receipt that is
    /// no element of a list cannot be written.
    pub fn encode(&self) -> (r: Result<String, ProtocolError>)
        ensures
            match r {
                Ok(line) => self@.wf() && line@ == self@.wire(),
                Err(fault) => !self@.wf() && fault == ProtocolError::Unwritable,
            },
    {
        let mut line: String = String::new();
        match self {
            Response::Done => {
                push_text(&mut line, "{\"ok\":null}");
            },
            Response::Version { core } => {
                push_text(&mut line, "{\"version\":{\"core\":");
                push_string(&mut line, core.as_str());
                push_text(&mut line, "}}");
            },
            Response::Terminated { receipts } => {
                if !check_elements(receipts) {
                    return Err(ProtocolError::Unwritable);
                }
                push_text(&mut line, "{\"terminated\":{\"receipts\":");
                push_elements(&mut line, receipts);
                push_text(&mut line, "}}");
            },
            Response::Breakpoint(hit) => {
                push_text(&mut line, "{\"breakpoint\":");
                push_breakpoint(&mut line, hit);
                push_text(&mut line, "}");
            },
            Response::Registers(values) => {
                push_text(&mut line, "{\"read-registers\":");
                push_list(&mut line, values);
                push_text(&mut line, "}");
            },
            Response::Memory(bytes) => {
                push_text(&mut line, "{\"read-memory\":");
                let numbers: Vec<u64> = widen(bytes);
                push_list(&mut line, &numbers);
                push_text(&mut line, "}");
            },
        }
        assert(line@ =~= self@.wire());
        Ok(line)
    }
}

/// The numbers as bytes.
pub open spec fn narrowed(numbers: Seq<u64>) -> Seq<u8> {
    Seq::new(numbers.len(), |i: int| numbers[i] as u8)
}

/// The target that a list of numbers stands for, if it has none or 32 of
/// them.
pub open spec fn target_from_list(numbers: Seq<u64>) -> Option<Target> {
    if numbers.len() == 0 {
        Some(Target::Script)
    } else if numbers.len() == 32 {
        Some(Target::Contract(ContractId::of(narrowed(numbers))))
    } else {
        None
    }
}

/// Whether `text` holds `part` from `at` on and ends with it.
pub open spec fn ends_with(text: Seq<char>, at: int, part: Seq<char>) -> bool {
    holds_at(text, at, part) && at + part.len() == text.len()
}

/// The breakpoint that is written at `at`, with the position behind it.
pub open spec fn breakpoint_at(text: Seq<char>, at: int) -> Option<(Breakpoint, int)> {
    if !holds_at(text, at, "{\"contract\":"@) {
        None
    } else {
        match list_at(text, at + "{\"contract\":"@.len(), 255) {
            None => None,
            Some((numbers, behind_list)) => match target_from_list(numbers) {
                None => None,
                Some(target) => if !holds_at(text, behind_list, ",\"pc\":"@) {
                    None
                } else {
                    match number_at(text, behind_list + ",\"pc\":"@.len(), u64::MAX as nat) {
                        None => None,
                        Some((pc, behind_pc)) => if holds_at(text, behind_pc, "}"@) {
                            Some((Breakpoint { target, pc }, behind_pc + "}"@.len()))
                        } else {
                            None
                        },
                    }
                },
            },
        }
    }
}

/// The stretch of memory that is written behind the head of a `read-memory`
/// command, if the text ends with it.
pub open spec fn memory_command_at(text: Seq<char>, at: int) -> Option<Command> {
    match number_at(text, at, u64::MAX as nat) {
        None => None,
        Some((start, behind_start)) => if !holds_at(text, behind_start, ",\"len\":"@) {
            None
        } else {
            match number_at(text, behind_start + ",\"len\":"@.len(), u64::MAX as nat) {
                None => None,
                Some((len, behind_len)) => if ends_with(text, behind_len, "}}"@) {
                    Some(Command::ReadMemory { start, len })
                } else {
                    None
                },
            }
        },
    }
}

/// The command that is read from a text: the reader goes by how the text
/// starts and takes the first value it finds.
pub open spec fn command_read(text: Seq<char>) -> Option<Command> {
    if ends_with(text, 0, "{\"version\":null}"@) {
        Some(Command::Version)
    } else if ends_with(text, 0, "{\"continue\":null}"@) {
        Some(Command::Continue)
    } else if ends_with(text, 0, "{\"single-stepping\":true}"@) {
        Some(Command::SetStepping(true))
    } else if ends_with(text, 0, "{\"single-stepping\":false}"@) {
        Some(Command::SetStepping(false))
    } else if ends_with(text, 0, "{\"read-registers\":null}"@) {
        Some(Command::ReadRegisters)
    } else if holds_at(text, 0, "{\"breakpoint\":"@) {
        match breakpoint_at(text, "{\"breakpoint\":"@.len() as int) {
            Some((bp, behind)) => if ends_with(text, behind, "}"@) {
                Some(Command::SetBreakpoint(bp))
            } else {
                None
            },
            None => None,
        }
    } else if holds_at(text, 0, "{\"read-memory\":{\"start\":"@) {
        memory_command_at(text, "{\"read-memory\":{\"start\":"@.len() as int)
    } else {
        None
    }
}

/// Reads the target that a list of numbers stands for.
fn target_of_list(numbers: &Vec<u64>) -> (r: Option<Target>)
    requires
        forall|i: int| 0 <= i < numbers@.len() ==> #[trigger] numbers@[i] <= 255,
    ensures
        r == target_from_list(numbers@),
{
    if numbers.len() == 0 {
        return Some(Target::Script);
    }
    if numbers.len() != 32 {
        return None;
    }
    let mut bytes: [u8; 32] = [0u8; 32];
    let mut i: usize = 0;
    while i < 32
        invariant
            i <= 32,
            numbers@.len() == 32,
            forall|j: int| 0 <= j < numbers@.len() ==> #[trigger] numbers@[j] <= 255,
            forall|j: int| 0 <= j < i ==> bytes[j] == numbers@[j] as u8,
        decreases 32 - i,
    {
        bytes[i] = numbers[i] as u8;
        i = i + 1;
    }
    let id = ContractId { bytes };
    proof {
        id.lemma_of_own_bytes();
        assert(id.bytes@ =~= narrowed(numbers@));
    }
    Some(Target::Contract(id))
}

/// Reads the breakpoint that is written at `at`.
fn read_breakpoint(text: &Vec<char>, at: usize) -> (r: Option<(Breakpoint, usize)>)
    ensures
        r matches Some((bp, end)) ==> breakpoint_at(text@, at as int) == Some((bp, end as int))
            && end <= text@.len(),
        r is None ==> breakpoint_at(text@, at as int) is None,
{
    let behind_head: usize = match expect(text, at, "{\"contract\":") {
        Some(end) => end,
        None => {
            return None;
        },
    };
    let (numbers, behind_list): (Vec<u64>, usize) = match read_list(text, behind_head, 255) {
        Some(found) => found,
        None => {
            return None;
        },
    };
    proof {
        lemma_list_bounded(text@, behind_head as int, 255);
    }

    let target: Target = match target_of_list(&numbers) {
        Some(target) => target,
        None => {
            return None;
        },
    };
    let behind_key: usize = match expect(text, behind_list, ",\"pc\":") {
        Some(end) => end,
        None => {
            return None;
        },
    };
    let (pc, behind_pc): (u64, usize) = match read_number(text, behind_key, u64::MAX) {
        Some(found) => found,
        None => {
            return None;
        },
    };
    match expect(text, behind_pc, "}") {
        Some(end) => Some((Breakpoint { target, pc }, end)),
        None => None,
    }
}

/// Steps over `part` where the text holds it at `at` and ends with it.
fn expect_end(text: &Vec<char>, at: usize, part: &str) -> (found: bool)
    ensures
        found == ends_with(text@, at as int, part@),
{
    match expect(text, at, part) {
        Some(end) => end == text.len(),
        None => false,
    }
}

/// Reads a command from the characters of a line.
fn read_command(text: &Vec<char>) -> (r: Option<Command>)
    ensures
        r == command_read(text@),
{
    if expect_end(text, 0, "{\"version\":null}") {
        return Some(Command::Version);
    }
    if expect_end(text, 0, "{\"continue\":null}") {
        return Some(Command::Continue);
    }
    if expect_end(text, 0, "{\"single-stepping\":true}") {
        return Some(Command::SetStepping(true));
    }
    if expect_end(text, 0, "{\"single-stepping\":false}") {
        return Some(Command::SetStepping(false));
    }
    if expect_end(text, 0, "{\"read-registers\":null}") {
        return Some(Command::ReadRegisters);
    }
    if let Some(behind_head) = expect(text, 0, "{\"breakpoint\":") {
        return match read_breakpoint(text, behind_head) {
            Some((bp, behind)) => if expect_end(text, behind, "}") {
                Some(Command::SetBreakpoint(bp))
            } else {
                None
            },
            None => None,
        };
    }
    if let Some(behind_head) = expect(text, 0, "{\"read-memory\":{\"start\":") {
        let (start, behind_start): (u64, usize) = match read_number(text, behind_head, u64::MAX) {
            Some(found) => found,
            None => {
                return None;
            },
        };
        let behind_key: usize = match expect(text, behind_start, ",\"len\":") {
            Some(end) => end,
            None => {
                return None;
            },
        };
        let (len, behind_len): (u64, usize) = match read_number(text, behind_key, u64::MAX) {
            Some(found) => found,
            None => {
                return None;
            },
        };
        return if expect_end(text, behind_len, "}}") {
            Some(Command::ReadMemory { start, len })
        } else {
            None
        };
    }
    None
}

/// The response that is read from a text: the reader goes by how the text
/// starts and takes the first value it finds.
pub open spec fn response_read(text: Seq<char>) -> Option<ResponseView> {
    if ends_with(text, 0, "{\"ok\":null}"@) {
        Some(ResponseView::Done)
    } else if holds_at(text, 0, "{\"version\":{\"core\":"@) {
        match string_at(text, "{\"version\":{\"core\":"@.len() as int) {
            Some((core, behind)) => if ends_with(text, behind, "}}"@) {
                Some(ResponseView::Version { core })
            } else {
                None
            },
            None => None,
        }
    } else if holds_at(text, 0, "{\"terminated\":{\"receipts\":"@) {
        match element_list_at(text, "{\"terminated\":{\"receipts\":"@.len() as int) {
            Some((receipts, behind)) => if ends_with(text, behind, "}}"@) {
                Some(ResponseView::Terminated { receipts })
            } else {
                None
            },
            None => None,
        }
    } else if holds_at(text, 0, "{\"breakpoint\":"@) {
        match breakpoint_at(text, "{\"breakpoint\":"@.len() as int) {
            Some((hit, behind)) => if ends_with(text, behind, "}"@) {
                Some(ResponseView::Breakpoint(hit))
            } else {
                None
            },
            None => None,
        }
    } else if holds_at(text, 0, "{\"read-registers\":"@) {
        match list_at(text, "{\"read-registers\":"@.len() as int, u64::MAX as nat) {
            Some((values, behind)) => if ends_with(text, behind, "}"@) {
                Some(ResponseView::Registers(values))
            } else {
                None
            },
            None => None,
        }
    } else if holds_at(text, 0, "{\"read-memory\":"@) {
        match list_at(text, "{\"read-memory\":"@.len() as int, 255) {
            Some((numbers, behind)) => if ends_with(text, behind, "}"@) {
                Some(ResponseView::Memory(narrowed(numbers)))
            } else {
                None
            },
            None => None,
        }
    } else {
        None
    }
}

/// The numbers as bytes.
fn narrow(numbers: &Vec<u64>) -> (bytes: Vec<u8>)
    requires
        forall|i: int| 0 <= i < numbers@.len() ==> #[trigger] numbers@[i] <= 255,
    ensures
        bytes@ == narrowed(numbers@),
{
    let mut bytes: Vec<u8> = Vec::new();
    let len: usize = numbers.len();
    let mut i: usize = 0;
    while i < len
        invariant
            i <= len,
            len == numbers@.len(),
            forall|j: int| 0 <= j < numbers@.len() ==> #[trigger] numbers@[j] <= 255,
            bytes@ == narrowed(numbers@.take(i as int)),
        decreases len - i,
    {
        bytes.push(numbers[i] as u8);
        i = i + 1;
        assert(bytes@ =~= narrowed(numbers@.take(i as int)));
    }
    assert(numbers@.take(len as int) =~= numbers@);
    bytes
}

/// Reads a response from the characters of a line.
fn read_response(text: &Vec<char>) -> (r: Option<Response>)
    ensures
        r matches Some(response) ==> response_read(text@) == Some(response@),
        r is None ==> response_read(text@) is None,
{
    if expect_end(text, 0, "{\"ok\":null}") {
        return Some(Response::Done);
    }
    if let Some(behind_head) = expect(text, 0, "{\"version\":{\"core\":") {
        return match read_string(text, behind_head) {
            Some((core, behind)) => if expect_end(text, behind, "}}") {
                Some(Response::Version { core })
            } else {
                None
            },
            None => None,
        };
    }
    if let Some(behind_head) = expect(text, 0, "{\"terminated\":{\"receipts\":") {
        return match read_elements(text, behind_head) {
            Some((receipts, behind)) => if expect_end(text, behind, "}}") {
                Some(Response::Terminated { receipts })
            } else {
                None
            },
            None => None,
        };
    }
    if let Some(behind_head) = expect(text, 0, "{\"breakpoint\":") {
        return match read_breakpoint(text, behind_head) {
            Some((hit, behind)) => if expect_end(text, behind, "}") {
                Some(Response::Breakpoint(hit))
            } else {
                None
            },
            None => None,
        };
    }
    if let Some(behind_head) = expect(text, 0, "{\"read-registers\":") {
        return match read_list(text, behind_head, u64::MAX) {
            Some((values, behind)) => if expect_end(text, behind, "}") {
                Some(Response::Registers(values))
            } else {
                None
            },
            None => None,
        };
    }
    if let Some(behind_head) = expect(text, 0, "{\"read-memory\":") {
        return match read_list(text, behind_head, 255) {
            Some((numbers, behind)) => {
                proof {
                    lemma_list_bounded(text@, behind_head as int, 255);
                }
                if expect_end(text, behind, "}") {
                    Some(Response::Memory(narrow(&numbers)))
                } else {
                    None
                }
            },
            None => None,
        };
    }
    None
}

/// The target of a list that was written for a target is that target.
pub proof fn lemma_target_read_back(target: Target)
    ensures
        target_from_list(target_list(target)) == Some(target),
        forall|i: int| 0 <= i < target_list(target).len() ==> #[trigger] target_list(target)[i] <= 255,
{
    match target {
        Target::Script => {},
        Target::Contract(id) => {
            assert(narrowed(widened(id.bytes@)) =~= id.bytes@);
            id.lemma_of_own_bytes();
        },
    }
}

/// A breakpoint is found again, whatever stands around it.
pub proof fn lemma_breakpoint_found(before: Seq<char>, bp: Breakpoint, after: Seq<char>)
    ensures
        breakpoint_at(before + breakpoint_text(bp) + after, before.len() as int) == Some(
            (bp, (before.len() + breakpoint_text(bp).len()) as int),
        ),
{
    let head = "{\"contract\":"@;
    let key = ",\"pc\":"@;
    let close = "}"@;
    let numbers = target_list(bp.target);
    let list = list_text(numbers);
    let pc = decimal(bp.pc as nat);
    let text = before + breakpoint_text(bp) + after;
    let at = before.len() as int;
    reveal_strlit("{\"contract\":");
    reveal_strlit(",\"pc\":");
    reveal_strlit("}");
    assert(text =~= before + head + list + key + pc + close + after);
    assert(text.subrange(at, at + head.len()) =~= head);
    lemma_target_read_back(bp.target);
    let behind_head = before + head;
    assert(text =~= behind_head + list + (key + pc + close + after));
    lemma_list_found(behind_head, numbers, key + pc + close + after, 255);
    let behind_list = at + head.len() + list.len();
    assert(text.subrange(behind_list, behind_list + key.len()) =~= key);
    let behind_key = behind_head + list + key;
    assert(text =~= behind_key + pc + (close + after));
    assert((close + after)[0] == '}');
    lemma_number_found(behind_key, bp.pc, close + after, u64::MAX as nat);
    let behind_pc = behind_list + key.len() + pc.len();
    assert(text.subrange(behind_pc, behind_pc + close.len()) =~= close);
}

/// A text that starts with `head` has the characters of `head` where `head`
/// has them.
proof fn lemma_starts_with(text: Seq<char>, head: Seq<char>, i: int)
    requires
        holds_at(text, 0, head),
        0 <= i < head.len(),
    ensures
        text[i] == head[i],
{
    assert(text.subrange(0, head.len() as int)[i] == head[i]);
}

/// A text made of a head, a payload and a closing part is read back where
/// the reader is at the head it is made of: it holds that head and no
/// other, and it ends with the closing part behind the payload.
proof fn lemma_made_of(head: Seq<char>, payload: Seq<char>, close: Seq<char>)
    ensures
        holds_at(head + payload + close, 0, head),
        ends_with(head + payload + close, (head.len() + payload.len()) as int, close),
        forall|i: int| 0 <= i < head.len() ==> (head + payload + close)[i] == head[i],
{
    let text = head + payload + close;
    assert(text.subrange(0, head.len() as int) =~= head);
    let behind = (head.len() + payload.len()) as int;
    assert(text.subrange(behind, behind + close.len()) =~= close);
}

/// How the texts of the commands start: each in its own way within the
/// first eight characters.
proof fn lemma_command_heads()
    ensures
        "{\"version\":null}"@.len() > 2,
        "{\"version\":null}"@[2] == 'v',
        "{\"continue\":null}"@.len() > 2,
        "{\"continue\":null}"@[2] == 'c',
        "{\"single-stepping\":true}"@.len() > 2,
        "{\"single-stepping\":true}"@[2] == 's',
        "{\"single-stepping\":false}"@.len() > 2,
        "{\"single-stepping\":false}"@[2] == 's',
        "{\"single-stepping\":true}"@.len() != "{\"single-stepping\":false}"@.len(),
        "{\"read-registers\":null}"@.len() > 7,
        "{\"read-registers\":null}"@[2] == 'r',
        "{\"read-registers\":null}"@[7] == 'r',
        "{\"breakpoint\":"@.len() > 2,
        "{\"breakpoint\":"@[2] == 'b',
        "{\"read-memory\":{\"start\":"@.len() > 7,
        "{\"read-memory\":{\"start\":"@[2] == 'r',
        "{\"read-memory\":{\"start\":"@[7] == 'm',
{
    reveal_strlit("{\"version\":null}");
    reveal_strlit("{\"continue\":null}");
    reveal_strlit("{\"single-stepping\":true}");
    reveal_strlit("{\"single-stepping\":false}");
    reveal_strlit("{\"read-registers\":null}");
    reveal_strlit("{\"breakpoint\":");
    reveal_strlit("{\"read-memory\":{\"start\":");
}

/// A text that starts with another character than `head` has at the place
/// `i` does not start with `head`.
proof fn lemma_starts_otherwise(text: Seq<char>, head: Seq<char>, i: int)
    requires
        0 <= i < head.len(),
        i < text.len(),
        text[i] != head[i],
    ensures
        !holds_at(text, 0, head),
{
    if holds_at(text, 0, head) {
        lemma_starts_with(text, head, i);
    }
}

/// A command without a payload is read back as itself.
proof fn lemma_bare_command_read_back(command: Command)
    requires
        command is Version || command is Continue || command is SetStepping
            || command is ReadRegisters,
    ensures
        command_read(command.wire()) == Some(command),
{
    let text = command.wire();
    lemma_command_heads();
    assert(text.subrange(0, text.len() as int) =~= text);
    assert(ends_with(text, 0, text));
    match command {
        Command::Version => {},
        Command::Continue => {
            lemma_starts_otherwise(text, "{\"version\":null}"@, 2);
        },
        Command::SetStepping(on) => {
            lemma_starts_otherwise(text, "{\"version\":null}"@, 2);
            lemma_starts_otherwise(text, "{\"continue\":null}"@, 2);
        },
        _ => {
            lemma_starts_otherwise(text, "{\"version\":null}"@, 2);
            lemma_starts_otherwise(text, "{\"continue\":null}"@, 2);
            lemma_starts_otherwise(text, "{\"single-stepping\":true}"@, 2);
            lemma_starts_otherwise(text, "{\"single-stepping\":false}"@, 2);
        },
    }
}

/// A command that sets a breakpoint is read back as itself.
proof fn lemma_breakpoint_command_read_back(bp: Breakpoint)
    ensures
        command_read(Command::SetBreakpoint(bp).wire()) == Some(Command::SetBreakpoint(bp)),
{
    let head = "{\"breakpoint\":"@;
    let close = "}"@;
    let text = Command::SetBreakpoint(bp).wire();
    lemma_command_heads();
    lemma_made_of(head, breakpoint_text(bp), close);
    assert(text[2] == 'b');
    lemma_starts_otherwise(text, "{\"version\":null}"@, 2);
    lemma_starts_otherwise(text, "{\"continue\":null}"@, 2);
    lemma_starts_otherwise(text, "{\"single-stepping\":true}"@, 2);
    lemma_starts_otherwise(text, "{\"single-stepping\":false}"@, 2);
    lemma_starts_otherwise(text, "{\"read-registers\":null}"@, 2);
    lemma_breakpoint_found(head, bp, close);
}

/// A command that reads memory is read back as itself.
proof fn lemma_memory_command_read_back(start: u64, len: u64)
    ensures
        command_read(Command::ReadMemory { start, len }.wire()) == Some(
            Command::ReadMemory { start, len },
        ),
{
    let head = "{\"read-memory\":{\"start\":"@;
    let key = ",\"len\":"@;
    let close = "}}"@;
    let first = decimal(start as nat);
    let second = decimal(len as nat);
    let text = Command::ReadMemory { start, len }.wire();
    lemma_command_heads();
    reveal_strlit(",\"len\":");
    reveal_strlit("}}");
    lemma_made_of(head, first + key + second, close);
    assert(text =~= head + (first + key + second) + close);
    assert(text[2] == 'r');
    assert(text[7] == 'm');
    lemma_starts_otherwise(text, "{\"version\":null}"@, 2);
    lemma_starts_otherwise(text, "{\"continue\":null}"@, 2);
    lemma_starts_otherwise(text, "{\"single-stepping\":true}"@, 2);
    lemma_starts_otherwise(text, "{\"single-stepping\":false}"@, 2);
    lemma_starts_otherwise(text, "{\"read-registers\":null}"@, 7);
    lemma_starts_otherwise(text, "{\"breakpoint\":"@, 2);
    assert(text =~= head + first + (key + second + close));
    assert((key + second + close)[0] == ',');
    lemma_number_found(head, start, key + second + close, u64::MAX as nat);
    let behind_start = (head.len() + first.len()) as int;
    assert(text.subrange(behind_start, behind_start + key.len()) =~= key);
    let behind_key = head + first + key;
    assert(text =~= behind_key + second + close);
    assert(close[0] == '}');
    lemma_number_found(behind_key, len, close, u64::MAX as nat);
    let behind_len = behind_start + key.len() + second.len();
    assert(text.subrange(behind_len, behind_len + close.len()) =~= close);
}

/// A command that was written is read back as itself.
pub proof fn lemma_command_read_back(command: Command)
    ensures
        command_read(command.wire()) == Some(command),
{
    match command {
        Command::SetBreakpoint(bp) => lemma_breakpoint_command_read_back(bp),
        Command::ReadMemory { start, len } => lemma_memory_command_read_back(start, len),
        _ => lemma_bare_command_read_back(command),
    }
}

/// How the texts of the responses start: each in its own way within the
/// first eight characters.
proof fn lemma_response_heads()
    ensures
        "{\"ok\":null}"@.len() > 2,
        "{\"ok\":null}"@[2] == 'o',
        "{\"version\":{\"core\":"@.len() > 2,
        "{\"version\":{\"core\":"@[2] == 'v',
        "{\"terminated\":{\"receipts\":"@.len() > 2,
        "{\"terminated\":{\"receipts\":"@[2] == 't',
        "{\"breakpoint\":"@.len() > 2,
        "{\"breakpoint\":"@[2] == 'b',
        "{\"read-registers\":"@.len() > 7,
        "{\"read-registers\":"@[2] == 'r',
        "{\"read-registers\":"@[7] == 'r',
        "{\"read-memory\":"@.len() > 7,
        "{\"read-memory\":"@[2] == 'r',
        "{\"read-memory\":"@[7] == 'm',
{
    reveal_strlit("{\"ok\":null}");
    reveal_strlit("{\"version\":{\"core\":");
    reveal_strlit("{\"terminated\":{\"receipts\":");
    reveal_strlit("{\"breakpoint\":");
    reveal_strlit("{\"read-registers\":");
    reveal_strlit("{\"read-memory\":");
}

/// A response that tells nothing is read back as itself.
proof fn lemma_done_read_back()
    ensures
        response_read(ResponseView::Done.wire()) == Some(ResponseView::Done),
{
    let text = ResponseView::Done.wire();
    assert(text.subrange(0, text.len() as int) =~= text);
}

/// A version is read back as itself.
proof fn lemma_version_read_back(core: Seq<char>)
    ensures
        response_read(ResponseView::Version { core }.wire()) == Some(ResponseView::Version { core }),
{
    let head = "{\"version\":{\"core\":"@;
    let close = "}}"@;
    let text = ResponseView::Version { core }.wire();
    lemma_response_heads();
    lemma_made_of(head, string_text(core), close);
    assert(text[2] == 'v');
    if holds_at(text, 0, "{\"ok\":null}"@) {
        lemma_starts_with(text, "{\"ok\":null}"@, 2);
    }
    lemma_string_found(head, core, close);
}

/// The receipts of a program that ended are read back as themselves.
proof fn lemma_terminated_read_back(receipts: Seq<Seq<char>>)
    requires
        all_elements(receipts),
    ensures
        response_read(ResponseView::Terminated { receipts }.wire()) == Some(
            ResponseView::Terminated { receipts },
        ),
{
    let head = "{\"terminated\":{\"receipts\":"@;
    let close = "}}"@;
    let text = ResponseView::Terminated { receipts }.wire();
    lemma_response_heads();
    lemma_made_of(head, element_list_text(receipts), close);
    assert(text[2] == 't');
    if holds_at(text, 0, "{\"ok\":null}"@) {
        lemma_starts_with(text, "{\"ok\":null}"@, 2);
    }
    if holds_at(text, 0, "{\"version\":{\"core\":"@) {
        lemma_starts_with(text, "{\"version\":{\"core\":"@, 2);
    }
    lemma_element_list_found(head, receipts, close);
}

/// The place of a pause is read back as itself.
proof fn lemma_pause_read_back(hit: Breakpoint)
    ensures
        response_read(ResponseView::Breakpoint(hit).wire()) == Some(ResponseView::Breakpoint(hit)),
{
    let head = "{\"breakpoint\":"@;
    let close = "}"@;
    let text = ResponseView::Breakpoint(hit).wire();
    lemma_response_heads();
    lemma_made_of(head, breakpoint_text(hit), close);
    assert(text[2] == 'b');
    if holds_at(text, 0, "{\"ok\":null}"@) {
        lemma_starts_with(text, "{\"ok\":null}"@, 2);
    }
    if holds_at(text, 0, "{\"version\":{\"core\":"@) {
        lemma_starts_with(text, "{\"version\":{\"core\":"@, 2);
    }
    if holds_at(text, 0, "{\"terminated\":{\"receipts\":"@) {
        lemma_starts_with(text, "{\"terminated\":{\"receipts\":"@, 2);
    }
    lemma_breakpoint_found(head, hit, close);
}

/// A text that starts like the values of the registers or like bytes of
/// memory starts like no response that the reader looks for before these.
proof fn lemma_read_heads_apart(text: Seq<char>)
    requires
        text.len() > 2,
        text[2] == 'r',
    ensures
        !holds_at(text, 0, "{\"ok\":null}"@),
        !holds_at(text, 0, "{\"version\":{\"core\":"@),
        !holds_at(text, 0, "{\"terminated\":{\"receipts\":"@),
        !holds_at(text, 0, "{\"breakpoint\":"@),
{
    lemma_response_heads();
    if holds_at(text, 0, "{\"ok\":null}"@) {
        lemma_starts_with(text, "{\"ok\":null}"@, 2);
    }
    if holds_at(text, 0, "{\"version\":{\"core\":"@) {
        lemma_starts_with(text, "{\"version\":{\"core\":"@, 2);
    }
    if holds_at(text, 0, "{\"terminated\":{\"receipts\":"@) {
        lemma_starts_with(text, "{\"terminated\":{\"receipts\":"@, 2);
    }
    if holds_at(text, 0, "{\"breakpoint\":"@) {
        lemma_starts_with(text, "{\"breakpoint\":"@, 2);
    }
}

/// The values of the registers are read back as themselves.
proof fn lemma_registers_read_back(values: Seq<u64>)
    ensures
        response_read(ResponseView::Registers(values).wire()) == Some(
            ResponseView::Registers(values),
        ),
{
    let head = "{\"read-registers\":"@;
    let close = "}"@;
    let text = ResponseView::Registers(values).wire();
    lemma_response_heads();
    lemma_made_of(head, list_text(values), close);
    assert(text[2] == 'r');
    lemma_read_heads_apart(text);
    lemma_list_found(head, values, close, u64::MAX as nat);
}

/// Bytes of memory are read back as themselves.
proof fn lemma_memory_read_back(bytes: Seq<u8>)
    ensures
        response_read(ResponseView::Memory(bytes).wire()) == Some(ResponseView::Memory(bytes)),
{
    let head = "{\"read-memory\":"@;
    let close = "}"@;
    let numbers = widened(bytes);
    let text = ResponseView::Memory(bytes).wire();
    lemma_response_heads();
    lemma_made_of(head, list_text(numbers), close);
    assert(text[2] == 'r');
    assert(text[7] == 'm');
    lemma_read_heads_apart(text);
    if holds_at(text, 0, "{\"read-registers\":"@) {
        lemma_starts_with(text, "{\"read-registers\":"@, 7);
    }
    lemma_list_found(head, numbers, close, 255);
    assert(narrowed(numbers) =~= bytes);
}

/// A response that was written is read back as itself.
pub proof fn lemma_response_read_back(response: ResponseView)
    requires
        response.wf(),
    ensures
        response_read(response.wire()) == Some(response),
{
    match response {
        ResponseView::Done => lemma_done_read_back(),
        ResponseView::Version { core } => lemma_version_read_back(core),
        ResponseView::Terminated { receipts } => lemma_terminated_read_back(receipts),
        ResponseView::Breakpoint(hit) => lemma_pause_read_back(hit),
        ResponseView::Registers(values) => lemma_registers_read_back(values),
        ResponseView::Memory(bytes) => lemma_memory_read_back(bytes),
    }
}

impl Command {
    /// The command that a text carries: the one that is written as this
    /// text, if there is one.
    pub open spec fn carried_by(text: Seq<char>) -> Option<Command> {
        if exists|command: Command| #[trigger] command.wire() == text {
            Some(choose|command: Command| #[trigger] command.wire() == text)
        } else {
            None
        }
    }

    /// Reads a command from the text of a line without its line feed. Only
    /// the text that `encode` writes for a command is read as that command.
    pub fn decode(text: &str) -> (r: Result<Command, ProtocolError>)
        ensures
            r == match Command::carried_by(text@) {
                Some(command) => Ok::<Command, ProtocolError>(command),
                None => Err::<Command, ProtocolError>(ProtocolError::Undecodable),
            },
    {
        let chars: Vec<char> = chars_of(text);
        let found: Option<Command> = read_command(&chars);
        proof {
            assert forall|command: Command| #[trigger] command.wire() == text@ implies found == Some(
                command,
            ) by {
                lemma_command_read_back(command);
            }
        }
        match found {
            Some(command) => {
                let line: String = command.encode();
                if same_text(line.as_str(), text) {
                    Ok(command)
                } else {
                    Err(ProtocolError::Undecodable)
                }
            },
            None => Err(ProtocolError::Undecodable),
        }
    }
}

/// Writing a command and reading the text gives the command again.
pub proof fn lemma_command_round_trip(command: Command)
    ensures
        Command::carried_by(command.wire()) == Some(command),
{
    let text = command.wire();
    let chosen = choose|other: Command| #[trigger] other.wire() == text;
    lemma_command_read_back(command);
    lemma_command_read_back(chosen);
}

impl Response {
    /// The response that a text carries: the one that is written as this
    /// text, if there is one.
    pub open spec fn carried_by(text: Seq<char>) -> Option<ResponseView> {
        if exists|response: ResponseView| response.wf() && #[trigger] response.wire() == text {
            Some(choose|response: ResponseView| response.wf() && #[trigger] response.wire() == text)
        } else {
            None
        }
    }

    /// Reads a response from the text of a line without its line feed. Only
    /// the text that `encode` writes for a response is read as that
    /// response.
    pub fn decode(text: &str) -> (r: Result<Response, ProtocolError>)
        ensures
            match Response::carried_by(text@) {
                Some(response) => r is Ok && r->Ok_0@ == response,
                None => r matches Err(ProtocolError::Undecodable),
            },
    {
        let chars: Vec<char> = chars_of(text);
        let found: Option<Response> = read_response(&chars);
        proof {
            assert forall|response: ResponseView|
                response.wf() && #[trigger] response.wire() == text@ implies response_read(text@)
                == Some(response) by {
                lemma_response_read_back(response);
            }
        }
        match found {
            Some(response) => match response.encode() {
                Ok(line) => {
                    if same_text(line.as_str(), text) {
                        Ok(response)
                    } else {
                        Err(ProtocolError::Undecodable)
                    }
                },
                Err(_) => Err(ProtocolError::Undecodable),
            },
            None => Err(ProtocolError::Undecodable),
        }
    }
}

/// Writing a response and reading the text gives the response again.
pub proof fn lemma_response_round_trip(response: ResponseView)
    requires
        response.wf(),
    ensures
        Response::carried_by(response.wire()) == Some(response),
{
    let text = response.wire();
    let chosen = choose|other: ResponseView| other.wf() && #[trigger] other.wire() == text;
    lemma_response_read_back(response);
    lemma_response_read_back(chosen);
}

/// A breakpoint as text lies on one line.
pub proof fn lemma_breakpoint_on_one_line(bp: Breakpoint)
    ensures
        on_one_line(breakpoint_text(bp)),
{
    reveal_strlit("{\"contract\":");
    reveal_strlit(",\"pc\":");
    reveal_strlit("}");
    lemma_list_on_one_line(target_list(bp.target));
    lemma_decimal_on_one_line(bp.pc as nat);
}

/// A command is written on one line.
pub proof fn lemma_command_on_one_line(command: Command)
    ensures
        on_one_line(command.wire()),
{
    reveal_strlit("{\"version\":null}");
    reveal_strlit("{\"continue\":null}");
    reveal_strlit("{\"single-stepping\":true}");
    reveal_strlit("{\"single-stepping\":false}");
    reveal_strlit("{\"read-registers\":null}");
    reveal_strlit("{\"breakpoint\":");
    reveal_strlit("{\"read-memory\":{\"start\":");
    reveal_strlit(",\"len\":");
    reveal_strlit("}}");
    reveal_strlit("}");
    match command {
        Command::SetBreakpoint(bp) => {
            lemma_breakpoint_on_one_line(bp);
        },
        Command::ReadMemory { start, len } => {
            lemma_decimal_on_one_line(start as nat);
            lemma_decimal_on_one_line(len as nat);
        },
        _ => {},
    }
}

/// A response that can be written is written on one line.
pub proof fn lemma_response_on_one_line(response: ResponseView)
    requires
        response.wf(),
    ensures
        on_one_line(response.wire()),
{
    reveal_strlit("{\"ok\":null}");
    reveal_strlit("{\"version\":{\"core\":");
    reveal_strlit("{\"terminated\":{\"receipts\":");
    reveal_strlit("{\"breakpoint\":");
    reveal_strlit("{\"read-registers\":");
    reveal_strlit("{\"read-memory\":");
    reveal_strlit("}}");
    reveal_strlit("}");
    match response {
        ResponseView::Done => {},
        ResponseView::Version { core } => {
            lemma_string_on_one_line(core);
        },
        ResponseView::Terminated { receipts } => {
            lemma_elements_on_one_line(receipts);
        },
        ResponseView::Breakpoint(hit) => {
            lemma_breakpoint_on_one_line(hit);
        },
        ResponseView::Registers(values) => {
            lemma_list_on_one_line(values);
        },
        ResponseView::Memory(bytes) => {
            lemma_list_on_one_line(widened(bytes));
        },
    }
}

} // verus!
