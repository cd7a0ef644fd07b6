//! The names of the machine's registers.

use vstd::prelude::*;
use vstd::string::*;

use crate::text::{decimal, push_decimal, same_text};

verus! {

/// Number of registers that have a name of their own. They come first.
pub const NAMED_REGISTERS: usize = 16;

/// The names of the first registers, by index.
pub open spec fn register_names() -> Seq<Seq<char>> {
    seq![
        "zero"@,
        "one"@,
        "of"@,
        "pc"@,
        "ssp"@,
        "sp"@,
        "fp"@,
        "hp"@,
        "err"@,
        "ggas"@,
        "cgas"@,
        "bal"@,
        "is"@,
        "ret"@,
        "retl"@,
        "flag"@,
    ]
}

/// The name under which a register is shown: its own where it has one, else
/// `reg` and its index in decimal.
pub open spec fn name_of(index: nat) -> Seq<char> {
    if index < NAMED_REGISTERS {
        register_names()[index as int]
    } else {
        "reg"@ + decimal(index)
    }
}

/// The first index at or after `from` whose name is `name`.
pub open spec fn index_from(name: Seq<char>, from: nat) -> Option<nat>
    decreases NAMED_REGISTERS - from,
{
    if from >= NAMED_REGISTERS {
        None
    } else if register_names()[from as int] == name {
        Some(from)
    } else {
        index_from(name, from + 1)
    }
}

/// The register that a name stands for.
pub open spec fn index_of(name: Seq<char>) -> Option<nat> {
    index_from(name, 0)
}

/// The name of one of the named registers.
fn own_name(index: usize) -> (name: &'static str)
    requires
        index < NAMED_REGISTERS,
    ensures
        name@ == register_names()[index as int],
{
    match index {
        0 => "zero",
        1 => "one",
        2 => "of",
        3 => "pc",
        4 => "ssp",
        5 => "sp",
        6 => "fp",
        7 => "hp",
        8 => "err",
        9 => "ggas",
        10 => "cgas",
        11 => "bal",
        12 => "is",
        13 => "ret",
        14 => "retl",
        _ => "flag",
    }
}

/// The name under which the register `index` is shown.
pub fn register_name(index: usize) -> (name: String)
    ensures
        name@ == name_of(index as nat),
{
    if index < NAMED_REGISTERS {
        own_name(index).to_owned()
    } else {
        let mut name: String = "reg".to_owned();
        push_decimal(&mut name, index as u64);
        name
    }
}

/// Looks a register up by its name.
pub fn register_index(name: &str) -> (r: Option<usize>)
    ensures
        r matches Some(index) ==> index_of(name@) == Some(index as nat) && index < NAMED_REGISTERS,
        r is None ==> index_of(name@) is None,
{
    let mut i: usize = 0;
    while i < NAMED_REGISTERS
        invariant
            i <= NAMED_REGISTERS,
            index_of(name@) == index_from(name@, i as nat),
        decreases NAMED_REGISTERS - i,
    {
        if same_text(own_name(i), name) {
            return Some(i);
        }
        i = i + 1;
    }
    None
}

} // verus!
