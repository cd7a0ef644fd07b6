//! The failures that the debugger reports.

use vstd::prelude::*;
use vstd::string::*;

verus! {

/// A fault in the arguments of a shell command. Nothing was sent to the
/// machine when one is reported.
#[derive(Clone, Copy, Debug, PartialEq, Eq, Structural)]
pub enum ArgError {
    /// An argument could not be read as what the command expects.
    Invalid,
    /// The command needs more arguments than it was given.
    NotEnough,
    /// The command was given more arguments than it takes.
    TooMany,
}

impl ArgError {
    /// The text shown to the user for this fault.
    pub open spec fn text(self) -> Seq<char> {
        match self {
            ArgError::Invalid => "Invalid argument"@,
            ArgError::NotEnough => "Not enough arguments"@,
            ArgError::TooMany => "Too many arguments"@,
        }
    }

    /// Renders the fault for the user.
    pub fn message(&self) -> (out: String)
        ensures
            out@ == self.text(),
    {
        match self {
            ArgError::Invalid => "Invalid argument".to_owned(),
            ArgError::NotEnough => "Not enough arguments".to_owned(),
            ArgError::TooMany => "Too many arguments".to_owned(),
        }
    }
}

/// A fault in the use of sessions. The machine is as it was before the
/// call that reports one.
#[derive(Clone, Copy, Debug, PartialEq, Eq, Structural)]
pub enum SessionError {
    /// No session is active.
    NoSession,
    /// A session is active already.
    AlreadyActive,
    /// The session that is active has another identifier.
    Mismatch,
}

impl SessionError {
    /// The text shown to the user for this fault.
    pub open spec fn text(self) -> Seq<char> {
        match self {
            SessionError::NoSession => "no session"@,
            SessionError::AlreadyActive => "session already exists"@,
            SessionError::Mismatch => "id mismatch"@,
        }
    }

    /// Renders the fault for the user.
    pub fn message(&self) -> (out: String)
        ensures
            out@ == self.text(),
    {
        match self {
            SessionError::NoSession => "no session".to_owned(),
            SessionError::AlreadyActive => "session already exists".to_owned(),
            SessionError::Mismatch => "id mismatch".to_owned(),
        }
    }
}

/// A request for something outside the bounds of the machine.
#[derive(Clone, Copy, Debug, PartialEq, Eq, Structural)]
pub enum RangeError {
    /// The register index is not below the register count.
    Register { index: u64 },
    /// The stretch of memory does not lie within what can be addressed.
    Memory { start: u64, len: u64 },
    /// The offset of a breakpoint is beyond what the binding can carry.
    ProgramCounter { pc: u64 },
}

/// A message that does not follow the protocol. On the line protocol it ends
/// the connection.
#[derive(Clone, Copy, Debug, PartialEq, Eq, Structural)]
pub enum ProtocolError {
    /// The line does not end where a message ends.
    Unterminated,
    /// The line holds no message of the vocabulary.
    Undecodable,
    /// The value cannot be written as a message.
    Unwritable,
    /// The reply carries no data.
    MissingData,
    /// The reply is not one that the request allows.
    UnexpectedReply,
    /// A message arrived while none was awaited, or was sent while the
    /// answer to an earlier one was due.
    OutOfTurn,
}

/// A failure of the connection itself.
#[derive(Clone, Copy, Debug, PartialEq, Eq, Structural)]
pub enum TransportError {
    /// The peer closed the connection.
    ConnectionClosed,
}

/// A fault that a binding reports: of the protocol, of a session, of a
/// range, or of the connection.
#[derive(Clone, Copy, Debug, PartialEq, Eq, Structural)]
pub enum Fault {
    Protocol(ProtocolError),
    Session(SessionError),
    Range(RangeError),
    Transport(TransportError),
}

} // verus!
