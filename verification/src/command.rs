//! The vocabulary of the debugger: what a client may ask of the machine and
//! what it is told.

use vstd::prelude::*;
use vstd::string::*;

use crate::breakpoint::Breakpoint;

verus! {

/// What a client asks of the machine.
#[derive(Clone, Copy, Debug, Eq)]
pub enum Command {
    /// Tell the version of the machine.
    Version,
    /// Run until a breakpoint is reached or the program ends.
    Continue,
    /// Pause after every instruction, or only at breakpoints again.
    SetStepping(bool),
    /// Pause at this place. It takes the place of a breakpoint set before.
    SetBreakpoint(Breakpoint),
    /// Tell the values of all registers.
    ReadRegisters,
    /// Tell `len` bytes of memory from the address `start` on.
    ReadMemory { start: u64, len: u64 },
}

impl PartialEq for Command {
    fn eq(&self, other: &Command) -> (same: bool) {
        match (self, other) {
            (Command::Version, Command::Version) => true,
            (Command::Continue, Command::Continue) => true,
            (Command::SetStepping(a), Command::SetStepping(b)) => *a == *b,
            (Command::SetBreakpoint(a), Command::SetBreakpoint(b)) => a == b,
            (Command::ReadRegisters, Command::ReadRegisters) => true,
            (Command::ReadMemory { start: s, len: l }, Command::ReadMemory { start: t, len: m }) => {
                *s == *t && *l == *m
            },
            _ => false,
        }
    }
}

impl vstd::std_specs::cmp::PartialEqSpecImpl for Command {
    open spec fn obeys_eq_spec() -> bool {
        true
    }

    open spec fn eq_spec(&self, other: &Command) -> bool {
        *self == *other
    }
}

/// What a client is told.
#[derive(Debug, PartialEq, Eq)]
pub enum Response {
    /// The command was carried out and there is nothing to tell. On the
    /// wire this is `ok`.
    Done,
    /// The version of the machine.
    Version { core: String },
    /// The program came to its end. Each receipt is the JSON text that the
    /// machine gave for it.
    Terminated { receipts: Vec<String> },
    /// The machine paused at this place.
    Breakpoint(Breakpoint),
    /// The values of the registers, by index.
    Registers(Vec<u64>),
    /// The bytes of memory that were asked for.
    Memory(Vec<u8>),
}

/// What a response holds.
pub enum ResponseView {
    Done,
    Version { core: Seq<char> },
    Terminated { receipts: Seq<Seq<char>> },
    Breakpoint(Breakpoint),
    Registers(Seq<u64>),
    Memory(Seq<u8>),
}

impl View for Response {
    type V = ResponseView;

    open spec fn view(&self) -> ResponseView {
        match self {
            Response::Done => ResponseView::Done,
            Response::Version { core } => ResponseView::Version { core: core@ },
            Response::Terminated { receipts } => ResponseView::Terminated {
                receipts: receipts.deep_view(),
            },
            Response::Breakpoint(hit) => ResponseView::Breakpoint(*hit),
            Response::Registers(values) => ResponseView::Registers(values@),
            Response::Memory(bytes) => ResponseView::Memory(bytes@),
        }
    }
}

} // verus!
