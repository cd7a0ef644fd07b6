//! The client of the remote query binding. It keeps the session of its
//! caller, writes the arguments of each operation and reads the replies;
//! sending and receiving is left to the caller.

use vstd::prelude::*;
use vstd::string::*;

use crate::error::{Fault, ProtocolError, SessionError};
use crate::queries::{
    target_numbers, Breakpoint, ContinueTx, ContinueTxArguments, EndSessionArguments, Memory,
    MemoryArguments, Register, RegisterArguments, RunResult, SetBreakpoint, SetBreakpointArguments,
    SetSingleStepping, SetSingleSteppingArguments, StartSession, StartTx, StartTxArguments, U64,
};
use crate::session::SessionId;

verus! {

#[verifier::external_type_specification]
#[verifier::external_body]
pub struct ExJsonError(serde_json::Error);

/// The bytes that a text denotes where `serde_json` reads it as a list of
/// numbers from 0 to 255, and `None` where it does not.
pub uninterp spec fn json_byte_array(text: Seq<char>) -> Option<Seq<u8>>;

/// Calls `serde_json::from_str` for a `Vec<u8>`. What it returns depends on
/// the text alone; the contract gives that result the name
/// `json_byte_array` and claims nothing more of it.
#[verifier::external_body]
fn bytes_from_json(text: &str) -> (r: Result<Vec<u8>, serde_json::Error>)
    ensures
        r matches Ok(bytes) ==> json_byte_array(text@) == Some(bytes@),
        r is Err ==> json_byte_array(text@) is None,
{
    serde_json::from_str::<Vec<u8>>(text)
}

/// A client of the remote query binding.
#[derive(Debug)]
pub struct Client {
    api_url: String,
    session: Option<SessionId>,
}

impl Client {
    /// The session that the client holds, if any.
    pub closed spec fn session(&self) -> Option<Seq<char>> {
        match self.session {
            Some(id) => Some(id@),
            None => None,
        }
    }

    /// The address of the endpoint that the client talks to.
    pub closed spec fn endpoint(&self) -> Seq<char> {
        self.api_url@
    }

    /// A client of the endpoint at `api_url`, without a session.
    pub fn new(api_url: String) -> (client: Client)
        ensures
            client.session() is None,
            client.endpoint() == api_url@,
    {
        Client { api_url, session: None }
    }

    /// The address of the endpoint.
    pub fn api_url(&self) -> (url: &str)
        ensures
            url@ == self.endpoint(),
    {
        self.api_url.as_str()
    }

    /// The identifier of the session, for a request.
    fn id(&self) -> (r: Result<SessionId, SessionError>)
        ensures
            match self.session() {
                Some(id) => r is Ok && r->Ok_0@ == id,
                None => r matches Err(SessionError::NoSession),
            },
    {
        match &self.session {
            Some(id) => Ok(id.clone()),
            None => Err(SessionError::NoSession),
        }
    }

    /// Asks whether a session may be started: not while the client holds
    /// one.
    pub fn start_session(&self) -> (r: Result<(), SessionError>)
        ensures
            r == if self.session() is Some {
                Err::<(), SessionError>(SessionError::AlreadyActive)
            } else {
                Ok::<(), SessionError>(())
            },
    {
        if self.session.is_some() {
            Err(SessionError::AlreadyActive)
        } else {
            Ok(())
        }
    }

    /// Takes the reply to `start-session` and keeps the session it names.
    /// A client that holds a session keeps that one.
    pub fn session_started(&mut self, reply: Option<StartSession>) -> (r: Result<(), Fault>)
        ensures
            final(self).endpoint() == old(self).endpoint(),
            old(self).session() is Some ==> r == Err::<(), Fault>(
                Fault::Session(SessionError::AlreadyActive),
            ) && final(self).session() == old(self).session(),
            old(self).session() is None && reply is None ==> r == Err::<(), Fault>(
                Fault::Protocol(ProtocolError::MissingData),
            ) && final(self).session() is None,
            old(self).session() is None && reply is Some ==> r is Ok && final(self).session()
                == Some(reply->0.start_session@),
    {
        if self.session.is_some() {
            return Err(Fault::Session(SessionError::AlreadyActive));
        }
        match reply {
            Some(started) => {
                self.session = Some(started.start_session);
                Ok(())
            },
            None => Err(Fault::Protocol(ProtocolError::MissingData)),
        }
    }

    /// Gives the session up and writes the argument of `end-session`.
    pub fn end_session(&mut self) -> (r: Result<EndSessionArguments, SessionError>)
        ensures
            final(self).endpoint() == old(self).endpoint(),
            final(self).session() is None,
            match old(self).session() {
                Some(id) => r is Ok && r->Ok_0.id@ == id,
                None => r matches Err(SessionError::NoSession),
            },
    {
        match self.session.take() {
            Some(id) => Ok(EndSessionArguments { id }),
            None => Err(SessionError::NoSession),
        }
    }

    /// Writes the argument of `set-breakpoint`.
    pub fn set_breakpoint(&self, bp: crate::breakpoint::Breakpoint) -> (r: Result<
        SetBreakpointArguments,
        Fault,
    >)
        ensures
            match self.session() {
                None => r matches Err(Fault::Session(SessionError::NoSession)),
                Some(id) => if bp.pc <= i32::MAX {
                    &&& r matches Ok(arguments)
                    &&& arguments.id@ == id
                    &&& arguments.bp.contract@ == target_numbers(bp.target)
                    &&& arguments.bp.pc == bp.pc
                } else {
                    r matches Err(Fault::Range(crate::error::RangeError::ProgramCounter { pc }))
                        && pc == bp.pc
                },
            },
    {
        let id: SessionId = match self.id() {
            Ok(id) => id,
            Err(fault) => {
                return Err(Fault::Session(fault));
            },
        };
        match Breakpoint::from_breakpoint(&bp) {
            Ok(bp) => Ok(SetBreakpointArguments { id, bp }),
            Err(fault) => Err(Fault::Range(fault)),
        }
    }

    /// Reads the reply to `set-breakpoint`: it must say that the breakpoint
    /// was set.
    pub fn breakpoint_set(reply: Option<SetBreakpoint>) -> (r: Result<(), ProtocolError>)
        ensures
            r == match reply {
                None => Err::<(), ProtocolError>(ProtocolError::MissingData),
                Some(answer) => if answer.set_breakpoint {
                    Ok::<(), ProtocolError>(())
                } else {
                    Err::<(), ProtocolError>(ProtocolError::UnexpectedReply)
                },
            },
    {
        match reply {
            None => Err(ProtocolError::MissingData),
            Some(answer) => if answer.set_breakpoint {
                Ok(())
            } else {
                Err(ProtocolError::UnexpectedReply)
            },
        }
    }

    /// Writes the argument of `set-single-stepping`.
    pub fn set_single_stepping(&self, enable: bool) -> (r: Result<
        SetSingleSteppingArguments,
        SessionError,
    >)
        ensures
            match self.session() {
                None => r matches Err(SessionError::NoSession),
                Some(id) => r matches Ok(arguments) && arguments.id@ == id && arguments.enable
                    == enable,
            },
    {
        match self.id() {
            Ok(id) => Ok(SetSingleSteppingArguments { id, enable }),
            Err(fault) => Err(fault),
        }
    }

    /// Reads the reply to `set-single-stepping`: it must carry data.
    pub fn single_stepping_set(reply: Option<SetSingleStepping>) -> (r: Result<(), ProtocolError>)
        ensures
            r == if reply is Some {
                Ok::<(), ProtocolError>(())
            } else {
                Err::<(), ProtocolError>(ProtocolError::MissingData)
            },
    {
        match reply {
            Some(_) => Ok(()),
            None => Err(ProtocolError::MissingData),
        }
    }

    /// Writes the argument of `start-tx` for a transaction given as JSON
    /// text.
    pub fn start_tx(&self, tx: String) -> (r: Result<StartTxArguments, SessionError>)
        ensures
            match self.session() {
                None => r matches Err(SessionError::NoSession),
                Some(id) => r matches Ok(arguments) && arguments.id@ == id && arguments.tx@ == tx@,
            },
    {
        match self.id() {
            Ok(id) => Ok(StartTxArguments { id, tx }),
            Err(fault) => Err(fault),
        }
    }

    /// Reads the reply to `start-tx`.
    pub fn tx_started(reply: Option<StartTx>) -> (r: Result<RunResult, ProtocolError>)
        ensures
            match reply {
                Some(answer) => r == Ok::<RunResult, ProtocolError>(answer.start_tx),
                None => r matches Err(ProtocolError::MissingData),
            },
    {
        match reply {
            Some(answer) => Ok(answer.start_tx),
            None => Err(ProtocolError::MissingData),
        }
    }

    /// Writes the argument of `continue-tx`.
    pub fn continue_tx(&self) -> (r: Result<ContinueTxArguments, SessionError>)
        ensures
            match self.session() {
                None => r matches Err(SessionError::NoSession),
                Some(id) => r matches Ok(arguments) && arguments.id@ == id,
            },
    {
        match self.id() {
            Ok(id) => Ok(ContinueTxArguments { id }),
            Err(fault) => Err(fault),
        }
    }

    /// Reads the reply to `continue-tx`.
    pub fn tx_continued(reply: Option<ContinueTx>) -> (r: Result<RunResult, ProtocolError>)
        ensures
            match reply {
                Some(answer) => r == Ok::<RunResult, ProtocolError>(answer.continue_tx),
                None => r matches Err(ProtocolError::MissingData),
            },
    {
        match reply {
            Some(answer) => Ok(answer.continue_tx),
            None => Err(ProtocolError::MissingData),
        }
    }

    /// Writes the argument of `register` for the register `reg`.
    pub fn read_register(&self, reg: u64) -> (r: Result<RegisterArguments, SessionError>)
        ensures
            match self.session() {
                None => r matches Err(SessionError::NoSession),
                Some(id) => r matches Ok(arguments) && arguments.id@ == id && arguments.reg@ == reg,
            },
    {
        match self.id() {
            Ok(id) => Ok(RegisterArguments { id, reg: U64::new(reg) }),
            Err(fault) => Err(fault),
        }
    }

    /// Reads the reply to `register`: the value of the register.
    pub fn register_read(reply: Option<Register>) -> (r: Result<u64, ProtocolError>)
        ensures
            r == match reply {
                Some(answer) => Ok::<u64, ProtocolError>(answer.register@),
                None => Err::<u64, ProtocolError>(ProtocolError::MissingData),
            },
    {
        match reply {
            Some(answer) => Ok(answer.register.value()),
            None => Err(ProtocolError::MissingData),
        }
    }

    /// Writes the argument of `memory` for `size` bytes from `start`.
    pub fn read_memory(&self, start: u64, size: u64) -> (r: Result<MemoryArguments, SessionError>)
        ensures
            match self.session() {
                None => r matches Err(SessionError::NoSession),
                Some(id) => r matches Ok(arguments) && arguments.id@ == id && arguments.start@
                    == start && arguments.size@ == size,
            },
    {
        match self.id() {
            Ok(id) => Ok(MemoryArguments { id, start: U64::new(start), size: U64::new(size) }),
            Err(fault) => Err(fault),
        }
    }

    /// Takes the bytes that were read from the text of a `memory` reply, or
    /// the fault of reading them.
    pub fn memory_parsed(parsed: Result<Vec<u8>, serde_json::Error>) -> (r: Result<
        Vec<u8>,
        ProtocolError,
    >)
        ensures
            match parsed {
                Ok(bytes) => r == Ok::<Vec<u8>, ProtocolError>(bytes),
                Err(_) => r matches Err(ProtocolError::Undecodable),
            },
    {
        match parsed {
            Ok(bytes) => Ok(bytes),
            Err(_) => Err(ProtocolError::Undecodable),
        }
    }

    /// Reads the reply to `memory`: the bytes that its text lists.
    pub fn memory_read(reply: Option<Memory>) -> (r: Result<Vec<u8>, ProtocolError>)
        ensures
            match reply {
                None => r matches Err(ProtocolError::MissingData),
                Some(answer) => match json_byte_array(answer.memory@) {
                    Some(bytes) => r is Ok && r->Ok_0@ == bytes,
                    None => r matches Err(ProtocolError::Undecodable),
                },
            },
    {
        match reply {
            Some(answer) => Self::memory_parsed(bytes_from_json(answer.memory.as_str())),
            None => Err(ProtocolError::MissingData),
        }
    }
}

} // verus!
