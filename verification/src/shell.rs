//! The arguments of the shell's commands. Each function takes the words of
//! one command line, the command's own name first, and says what the command
//! is to do or which fault the line has.

use vstd::prelude::*;
use vstd::string::*;

use crate::breakpoint::{contract_named, Breakpoint, ContractId, Target};
use crate::error::ArgError;
use crate::limits::{INSTRUCTION_SIZE, MAX_RAM, REGISTER_COUNT, WORD_SIZE};
use crate::names::{index_of, name_of, register_index, register_name};
use crate::numeral::{int_literal, parse_int};
use crate::text::{decimal, hex_padded, push_char, push_decimal, push_hex_padded, push_text, same_text};

verus! {

/// The stretch of memory that `memory` shows: `limit` bytes from `offset`.
#[derive(Clone, Copy, Debug, PartialEq, Eq, Structural)]
pub struct MemoryRange {
    pub offset: usize,
    pub limit: usize,
}

/// The number of bytes that `memory` shows where the line names none.
pub open spec fn default_limit() -> nat {
    (WORD_SIZE * MAX_RAM) as nat
}

/// What the words of a `memory` line ask for. The last word is the limit,
/// the one before it the offset; both may be left out, the offset first.
/// A limit that is no number is found before an offset that is none, and
/// either before a word too many.
pub open spec fn memory_request(words: Seq<Seq<char>>) -> Result<MemoryRange, ArgError> {
    let n = words.len() as int;
    if n == 0 {
        Err(ArgError::NotEnough)
    } else {
        let limit = if n >= 2 {
            int_literal(words[n - 1])
        } else {
            Some(default_limit())
        };
        let offset = if n >= 3 {
            int_literal(words[n - 2])
        } else {
            Some(0nat)
        };
        if limit is None || offset is None {
            Err(ArgError::Invalid)
        } else if n > 3 {
            Err(ArgError::TooMany)
        } else {
            Ok(MemoryRange { offset: offset.unwrap() as usize, limit: limit.unwrap() as usize })
        }
    }
}

/// Reads the words of a `memory [offset] [limit]` line.
pub fn memory_args(args: &Vec<String>) -> (r: Result<MemoryRange, ArgError>)
    ensures
        r == memory_request(args.deep_view()),
{
    let n: usize = args.len();
    if n == 0 {
        return Err(ArgError::NotEnough);
    }
    let limit: usize = if n >= 2 {
        assert(args.deep_view()[n - 1] == args[n - 1]@);
        match parse_int(args[n - 1].as_str()) {
            Some(v) => v,
            None => {
                return Err(ArgError::Invalid);
            },
        }
    } else {
        WORD_SIZE * (MAX_RAM as usize)
    };
    let offset: usize = if n >= 3 {
        assert(args.deep_view()[n - 2] == args[n - 2]@);
        match parse_int(args[n - 2].as_str()) {
            Some(v) => v,
            None => {
                return Err(ArgError::Invalid);
            },
        }
    } else {
        0
    };
    if n > 3 {
        return Err(ArgError::TooMany);
    }
    Ok(MemoryRange { offset, limit })
}

/// What the words of a `breakpoint` line ask for. The last word is the
/// number of the instruction; a word before it names the contract, and
/// without one the breakpoint lies in the script. The count of words is
/// judged before what they hold.
pub open spec fn breakpoint_request(words: Seq<Seq<char>>) -> Result<Breakpoint, ArgError> {
    let n = words.len() as int;
    if n <= 1 {
        Err(ArgError::NotEnough)
    } else if n > 3 {
        Err(ArgError::TooMany)
    } else {
        match int_literal(words[n - 1]) {
            Some(index) if index * INSTRUCTION_SIZE <= u64::MAX => {
                let pc = (index * INSTRUCTION_SIZE) as u64;
                if n == 2 {
                    Ok(Breakpoint { target: Target::Script, pc })
                } else {
                    match contract_named(words[1]) {
                        Some(id) => Ok(Breakpoint { target: Target::Contract(id), pc }),
                        None => Err(ArgError::Invalid),
                    }
                }
            },
            _ => Err(ArgError::Invalid),
        }
    }
}

/// Reads the words of a `breakpoint [contract] offset` line.
pub fn breakpoint_args(args: &Vec<String>) -> (r: Result<Breakpoint, ArgError>)
    ensures
        r == breakpoint_request(args.deep_view()),
{
    let n: usize = args.len();
    if n <= 1 {
        return Err(ArgError::NotEnough);
    }
    if n > 3 {
        return Err(ArgError::TooMany);
    }
    assert(args.deep_view()[n - 1] == args[n - 1]@);
    assert(args.deep_view()[1] == args[1]@);
    let index: u64 = match parse_int(args[n - 1].as_str()) {
        Some(v) => v as u64,
        None => {
            return Err(ArgError::Invalid);
        },
    };
    if index > u64::MAX / INSTRUCTION_SIZE {
        return Err(ArgError::Invalid);
    }
    if n == 2 {
        Ok(Breakpoint::script(index))
    } else {
        match ContractId::parse(args[1].as_str()) {
            Some(id) => Ok(Breakpoint::new(id, index)),
            None => Err(ArgError::Invalid),
        }
    }
}

/// Whether a word turns single-stepping off.
pub open spec fn means_off(word: Seq<char>) -> bool {
    word == "off"@ || word == "no"@ || word == "disable"@
}

/// What the words of a `step` line ask for: single-stepping on, unless the
/// one word that may follow the command turns it off.
pub open spec fn stepping_request(words: Seq<Seq<char>>) -> Result<bool, ArgError> {
    if words.len() == 0 {
        Err(ArgError::NotEnough)
    } else if words.len() > 2 {
        Err(ArgError::TooMany)
    } else if words.len() == 2 {
        Ok(!means_off(words[1]))
    } else {
        Ok(true)
    }
}

/// Reads the words of a `step [on|off]` line.
pub fn step_args(args: &Vec<String>) -> (r: Result<bool, ArgError>)
    ensures
        r == stepping_request(args.deep_view()),
{
    let n: usize = args.len();
    if n == 0 {
        return Err(ArgError::NotEnough);
    }
    if n > 2 {
        return Err(ArgError::TooMany);
    }
    if n == 2 {
        assert(args.deep_view()[1] == args[1]@);
        let word: &str = args[1].as_str();
        Ok(!(same_text(word, "off") || same_text(word, "no") || same_text(word, "disable")))
    } else {
        Ok(true)
    }
}

/// What the words of a line ask for whose command takes no argument.
pub open spec fn bare_request(words: Seq<Seq<char>>) -> Result<(), ArgError> {
    if words.len() == 0 {
        Err(ArgError::NotEnough)
    } else if words.len() > 1 {
        Err(ArgError::TooMany)
    } else {
        Ok(())
    }
}

/// Reads the words of a `version` or `continue` line.
pub fn no_args(args: &Vec<String>) -> (r: Result<(), ArgError>)
    ensures
        r == bare_request(args.deep_view()),
{
    if args.len() == 0 {
        Err(ArgError::NotEnough)
    } else if args.len() > 1 {
        Err(ArgError::TooMany)
    } else {
        Ok(())
    }
}

/// Reads the words of a `start_tx path` line and gives the path of the file
/// that holds the transaction.
pub fn start_tx_args(args: &Vec<String>) -> (r: Result<String, ArgError>)
    ensures
        args.len() <= 1 ==> r == Err::<String, ArgError>(ArgError::NotEnough),
        args.len() > 2 ==> r == Err::<String, ArgError>(ArgError::TooMany),
        args.len() == 2 ==> r is Ok && r->Ok_0@ == args[1]@,
{
    if args.len() <= 1 {
        Err(ArgError::NotEnough)
    } else if args.len() > 2 {
        Err(ArgError::TooMany)
    } else {
        Ok(args[1].clone())
    }
}

/// The registers that a `registers` line shows, in the order of its words,
/// each with the name it is shown under, and what is said of the first word
/// that names none. The words after that one are not looked at.
#[derive(Debug)]
pub struct RegisterSelection {
    pub indices: Vec<usize>,
    pub names: Vec<String>,
    pub complaint: Option<String>,
}

impl RegisterSelection {
    /// The characters of the complaint, if there is one.
    pub open spec fn complaint_text(self) -> Option<Seq<char>> {
        match self.complaint {
            Some(text) => Some(text@),
            None => None,
        }
    }
}

/// The register that one word of a `registers` line names, or what is said
/// of the word. A number is an index and must be below the register count;
/// any other word is looked up among the register names.
pub open spec fn register_named(word: Seq<char>) -> Result<usize, Seq<char>> {
    match int_literal(word) {
        Some(index) => if index < REGISTER_COUNT {
            Ok(index as usize)
        } else {
            Err("Register index too large "@ + decimal(index))
        },
        None => match index_of(word) {
            Some(index) => Ok(index as usize),
            None => Err("Unknown register name "@ + word),
        },
    }
}

/// The name under which the register of a word is shown: the word itself
/// where it is a name, the name of the register where it is an index.
pub open spec fn register_label(word: Seq<char>) -> Seq<char> {
    match int_literal(word) {
        Some(index) => name_of(index),
        None => word,
    }
}

/// Whether `indices`, `names` and `complaint` are what the words of a
/// `registers` line ask for. Without a word after the command these are all
/// registers under their names. Else they are the registers of the words up
/// to the first that names none, with the complaint about that word if
/// there is one.
pub open spec fn is_register_request(
    words: Seq<Seq<char>>,
    indices: Seq<usize>,
    names: Seq<Seq<char>>,
    complaint: Option<Seq<char>>,
) -> bool {
    if words.len() == 1 {
        &&& indices == Seq::new(REGISTER_COUNT as nat, |i: int| i as usize)
        &&& names == Seq::new(REGISTER_COUNT as nat, |i: int| name_of(i as nat))
        &&& complaint is None
    } else {
        &&& indices.len() < words.len()
        &&& names.len() == indices.len()
        &&& forall|i: int|
            0 <= i < indices.len() ==> register_named(#[trigger] words[i + 1]) == Ok::<
                usize,
                Seq<char>,
            >(indices[i]) && names[i] == register_label(words[i + 1])
        &&& if indices.len() + 1 < words.len() {
            complaint matches Some(text) && register_named(words[indices.len() as int + 1]) == Err::<
                usize,
                Seq<char>,
            >(text)
        } else {
            complaint is None
        }
    }
}

/// Reads one word of a `registers` line.
fn register_arg(word: &str) -> (r: Result<(usize, String), String>)
    ensures
        r matches Ok((index, name)) ==> register_named(word@) == Ok::<usize, Seq<char>>(index)
            && name@ == register_label(word@),
        r matches Err(text) ==> register_named(word@) == Err::<usize, Seq<char>>(text@),
{
    match parse_int(word) {
        Some(index) => {
            if index < REGISTER_COUNT {
                Ok((index, register_name(index)))
            } else {
                let mut text: String = "Register index too large ".to_owned();
                push_decimal(&mut text, index as u64);
                Err(text)
            }
        },
        None => match register_index(word) {
            Some(index) => Ok((index, word.to_owned())),
            None => {
                let mut text: String = "Unknown register name ".to_owned();
                push_text(&mut text, word);
                Err(text)
            },
        },
    }
}

/// Reads the words of a `registers [name or index ...]` line.
pub fn register_args(args: &Vec<String>) -> (r: Result<RegisterSelection, ArgError>)
    ensures
        match r {
            Ok(selection) => args.len() > 0 && is_register_request(
                args.deep_view(),
                selection.indices@,
                selection.names.deep_view(),
                selection.complaint_text(),
            ),
            Err(fault) => args.len() == 0 && fault == ArgError::NotEnough,
        },
{
    let n: usize = args.len();
    if n == 0 {
        return Err(ArgError::NotEnough);
    }
    let mut indices: Vec<usize> = Vec::new();
    let mut names: Vec<String> = Vec::new();
    if n == 1 {
        let mut index: usize = 0;
        while index < REGISTER_COUNT
            invariant
                index <= REGISTER_COUNT,
                indices@ == Seq::new(index as nat, |i: int| i as usize),
                names.deep_view() == Seq::new(index as nat, |i: int| name_of(i as nat)),
            decreases REGISTER_COUNT - index,
        {
            let ghost shown = names.deep_view();
            indices.push(index);
            names.push(register_name(index));
            index = index + 1;
            assert(indices@ =~= Seq::new(index as nat, |i: int| i as usize));
            assert(names.deep_view() =~= shown.push(name_of((index - 1) as nat)));
            assert(names.deep_view() =~= Seq::new(index as nat, |i: int| name_of(i as nat)));
        }
        return Ok(RegisterSelection { indices, names, complaint: None });
    }
    let ghost words = args.deep_view();
    let mut k: usize = 1;
    while k < n
        invariant
            1 <= k <= n,
            n == args.len(),
            words == args.deep_view(),
            indices@.len() == k - 1,
            names@.len() == k - 1,
            forall|i: int|
                0 <= i < indices@.len() ==> register_named(#[trigger] words[i + 1]) == Ok::<
                    usize,
                    Seq<char>,
                >(indices@[i]) && names.deep_view()[i] == register_label(words[i + 1]),
        decreases n - k,
    {
        assert(words[k as int] == args[k as int]@);
        match register_arg(args[k].as_str()) {
            Ok((index, name)) => {
                let ghost shown = names.deep_view();
                indices.push(index);
                names.push(name);
                assert(names.deep_view() =~= shown.push(register_label(words[k as int])));
            },
            Err(text) => {
                return Ok(RegisterSelection { indices, names, complaint: Some(text) });
            },
        }
        k = k + 1;
    }
    Ok(RegisterSelection { indices, names, complaint: None })
}

/// The bytes of a line of a memory dump: each as a blank and two
/// hexadecimal digits.
pub open spec fn dump_bytes(bytes: Seq<u8>) -> Seq<char>
    decreases bytes.len(),
{
    if bytes.len() == 0 {
        Seq::<char>::empty()
    } else {
        dump_bytes(bytes.drop_last()) + seq![' '] + hex_padded(bytes.last() as nat, 2)
    }
}

/// One line of a memory dump: a blank, the address of its first byte in at
/// least six hexadecimal digits, a colon, and its bytes.
pub open spec fn dump_line(address: nat, bytes: Seq<u8>) -> Seq<char> {
    seq![' '] + hex_padded(address, 6) + seq![':'] + dump_bytes(bytes)
}

/// The number of lines in the dump of `len` bytes: one for each word of
/// memory, begun or full.
pub open spec fn dump_height(len: nat) -> nat {
    (len + WORD_SIZE - 1) as nat / (WORD_SIZE as nat)
}

/// The bytes of line `row` in the dump of `mem`.
pub open spec fn dump_row(mem: Seq<u8>, row: int) -> Seq<u8> {
    let start = row * WORD_SIZE;
    let end = if start + WORD_SIZE <= mem.len() {
        start + WORD_SIZE
    } else {
        mem.len() as int
    };
    mem.subrange(start, end)
}

/// Lays out the bytes of memory read from `offset` on, one line for each
/// machine word.
pub fn memory_dump(offset: usize, mem: &[u8]) -> (lines: Vec<String>)
    requires
        offset + mem.len() <= usize::MAX,
    ensures
        lines.len() == dump_height(mem@.len()),
        forall|row: int|
            0 <= row < lines.len() ==> (#[trigger] lines[row])@ == dump_line(
                (offset + row * WORD_SIZE) as nat,
                dump_row(mem@, row),
            ),
{
    let len: usize = mem.len();
    let mut lines: Vec<String> = Vec::new();
    let mut start: usize = 0;
    while start < len
        invariant
            len == mem@.len(),
            offset + len <= usize::MAX,
            start <= len,
            start < len ==> start == lines.len() * WORD_SIZE,
            start == len ==> lines.len() == dump_height(len as nat),
            forall|row: int|
                0 <= row < lines.len() ==> (#[trigger] lines[row])@ == dump_line(
                    (offset + row * WORD_SIZE) as nat,
                    dump_row(mem@, row),
                ),
        decreases len - start,
    {
        let end: usize = if len - start >= WORD_SIZE {
            start + WORD_SIZE
        } else {
            len
        };
        let ghost row = lines.len() as int;
        let ghost bytes = dump_row(mem@, row);
        let mut line: String = " ".to_owned();
        proof {
            reveal_strlit(" ");
            assert(line@ =~= seq![' ']);
        }
        push_hex_padded(&mut line, (offset + start) as u64, 6);
        push_char(&mut line, ':');
        let ghost head = line@;
        let mut i: usize = start;
        while i < end
            invariant
                start <= i <= end <= len,
                len == mem@.len(),
                bytes == mem@.subrange(start as int, end as int),
                line@ == head + dump_bytes(bytes.take(i - start)),
            decreases end - i,
        {
            proof {
                let longer = bytes.take(i + 1 - start);
                assert(longer.drop_last() =~= bytes.take(i - start));
                assert(longer.last() == mem@[i as int]);
            }
            push_char(&mut line, ' ');
            push_hex_padded(&mut line, mem[i] as u64, 2);
            i = i + 1;
            assert(line@ =~= head + dump_bytes(bytes.take(i - start)));
        }
        proof {
            assert(bytes.take(end - start) =~= bytes);
            assert(line@ =~= dump_line((offset + row * WORD_SIZE) as nat, bytes));
        }
        lines.push(line);
        start = end;
    }
    lines
}

} // verus!
