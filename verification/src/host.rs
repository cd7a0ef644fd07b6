//! The machine's side of the remote query binding: each operation names its
//! session, and is carried out only for the session that is active.

use vstd::prelude::*;
use vstd::string::*;

use crate::breakpoint::{target_of, Breakpoint};
use crate::command::Response;
use crate::control::{pauses, refusal, Action, ControlFlow, Debugger, Event, Machine};
use crate::error::{Fault, ProtocolError, RangeError, SessionError};
use crate::json::{list_text, push_list, widened};
use crate::limits::REGISTER_COUNT;
use crate::queries::{
    breakpoint_carried, target_numbers, target_to_numbers, ContinueTxArguments, EndSession,
    EndSessionArguments, Memory, MemoryArguments, OutputBreakpoint, OutputContractId, Register,
    RegisterArguments, RunResult, SetBreakpoint, SetBreakpointArguments, SetSingleStepping,
    SetSingleSteppingArguments, StartSession, StartTxArguments, U64,
};
use crate::session::{SessionId, SessionManager};
use crate::wire::widen;

verus! {

/// A machine's sessions and its run control.
#[derive(Debug)]
pub struct Host {
    sessions: SessionManager,
    debugger: Debugger,
}

/// The fault that a verdict on a session is, if it is one.
pub open spec fn session_fault(verdict: Result<(), SessionError>) -> Option<Fault> {
    match verdict {
        Ok(_) => None,
        Err(fault) => Some(Fault::Session(fault)),
    }
}

impl Host {
    /// The identifier of the active session, if there is one.
    pub closed spec fn active(&self) -> Option<Seq<char>> {
        self.sessions.active()
    }

    /// The number of sessions started so far, counted modulo 2^64.
    pub closed spec fn issued(&self) -> u64 {
        self.sessions.issued()
    }

    /// The state of run control.
    pub closed spec fn state(&self) -> ControlFlow {
        self.debugger.state()
    }

    /// Whether the machine pauses after every instruction.
    pub closed spec fn stepping(&self) -> bool {
        self.debugger.stepping()
    }

    /// The breakpoint, if one is set.
    pub closed spec fn breakpoint(&self) -> Option<Breakpoint> {
        self.debugger.breakpoint()
    }

    /// What is said to the caller that names the session `id`: a fault
    /// where that is not the active session, else a fault where the machine
    /// is not paused, else nothing.
    pub open spec fn refuses(&self, id: Seq<char>) -> Option<Fault> {
        match SessionManager::verdict(self.active(), id) {
            Err(fault) => Some(Fault::Session(fault)),
            Ok(_) => if self.state() == ControlFlow::Debugger {
                None
            } else {
                Some(refusal(self.state()))
            },
        }
    }

    /// A host without a session.
    pub fn new() -> (host: Host)
        ensures
            host.active() is None,
            host.issued() == 0,
            host.state() == ControlFlow::Debugger,
            !host.stepping(),
            host.breakpoint() is None,
    {
        Host { sessions: SessionManager::new(), debugger: Debugger::new() }
    }

    /// Checks the session and that the machine is paused.
    fn admit_call(&self, id: &SessionId) -> (r: Result<(), Fault>)
        ensures
            match self.refuses(id@) {
                Some(fault) => r == Err::<(), Fault>(fault),
                None => r is Ok,
            },
    {
        match self.sessions.check(id) {
            Ok(()) => self.debugger.ready(),
            Err(fault) => Err(Fault::Session(fault)),
        }
    }

    /// `start-session`: starts a session on a machine that has none, with
    /// run control as new. While a session is active the call fails and
    /// changes nothing.
    pub fn start_session(&mut self) -> (r: Result<StartSession, SessionError>)
        ensures
            old(self).active() is Some ==> (r matches Err(SessionError::AlreadyActive)) && *final(self)
                == *old(self),
            old(self).active() is None ==> {
                &&& r matches Ok(reply)
                &&& final(self).active() == Some(reply.start_session@)
                &&& reply.start_session@ == crate::text::decimal(old(self).issued() as nat)
                &&& final(self).issued() == SessionManager::next_count(old(self).issued())
                &&& final(self).state() == ControlFlow::Debugger
                &&& !final(self).stepping()
                &&& final(self).breakpoint() is None
            },
    {
        match self.sessions.start() {
            Ok(id) => {
                self.debugger = Debugger::new();
                Ok(StartSession { start_session: id })
            },
            Err(fault) => Err(fault),
        }
    }

    /// `end-session`: ends the session that the argument names and leaves
    /// the machine free for the next. A call that names another session, or
    /// comes while there is none, changes nothing.
    pub fn end_session(&mut self, arguments: &EndSessionArguments) -> (r: Result<
        EndSession,
        SessionError,
    >)
        ensures
            final(self).issued() == old(self).issued(),
            match SessionManager::verdict(old(self).active(), arguments.id@) {
                Ok(_) => (r matches Ok(reply) && reply.end_session) && final(self).active() is None
                    && final(self).state() == ControlFlow::Terminate,
                Err(fault) => r == Err::<EndSession, SessionError>(fault) && *final(self) == *old(self),
            },
    {
        match self.sessions.end(&arguments.id) {
            Ok(()) => {
                self.debugger.terminate();
                Ok(EndSession { end_session: true })
            },
            Err(fault) => Err(fault),
        }
    }
}

impl Host {
    /// `set-breakpoint`: sets the breakpoint that the argument carries, in
    /// place of the one before.
    pub fn set_breakpoint(&mut self, arguments: &SetBreakpointArguments) -> (r: Result<
        SetBreakpoint,
        Fault,
    >)
        ensures
            final(self).active() == old(self).active(),
            final(self).issued() == old(self).issued(),
            final(self).state() == old(self).state(),
            final(self).stepping() == old(self).stepping(),
            match old(self).refuses(arguments.id@) {
                Some(fault) => r == Err::<SetBreakpoint, Fault>(fault) && final(self).breakpoint()
                    == old(self).breakpoint(),
                None => match breakpoint_carried(arguments.bp.contract@, arguments.bp.pc) {
                    Ok(bp) => (r matches Ok(reply) && reply.set_breakpoint) && final(self).breakpoint() == Some(bp),
                    Err(fault) => r == Err::<SetBreakpoint, Fault>(Fault::Protocol(fault)) && final(self).breakpoint() == old(self).breakpoint(),
                },
            },
    {
        match self.admit_call(&arguments.id) {
            Ok(()) => {},
            Err(fault) => {
                return Err(fault);
            },
        }
        let bp: Breakpoint = match arguments.bp.to_breakpoint() {
            Ok(bp) => bp,
            Err(fault) => {
                return Err(Fault::Protocol(fault));
            },
        };
        match self.debugger.set_breakpoint(bp) {
            Ok(()) => Ok(SetBreakpoint { set_breakpoint: true }),
            Err(fault) => Err(fault),
        }
    }

    /// `set-single-stepping`: makes the machine pause after every
    /// instruction, or at breakpoints only.
    pub fn set_single_stepping(&mut self, arguments: &SetSingleSteppingArguments) -> (r: Result<
        SetSingleStepping,
        Fault,
    >)
        ensures
            final(self).active() == old(self).active(),
            final(self).issued() == old(self).issued(),
            final(self).state() == old(self).state(),
            final(self).breakpoint() == old(self).breakpoint(),
            match old(self).refuses(arguments.id@) {
                Some(fault) => r == Err::<SetSingleStepping, Fault>(fault) && final(self).stepping()
                    == old(self).stepping(),
                None => (r matches Ok(reply) && reply.set_single_stepping) && final(self).stepping()
                    == arguments.enable,
            },
    {
        match self.admit_call(&arguments.id) {
            Ok(()) => {},
            Err(fault) => {
                return Err(fault);
            },
        }
        match self.debugger.set_stepping(arguments.enable) {
            Ok(()) => Ok(SetSingleStepping { set_single_stepping: true }),
            Err(fault) => Err(fault),
        }
    }

    /// Lets the machine run for the session `id`.
    fn run(&mut self, id: &SessionId) -> (r: Result<(), Fault>)
        ensures
            final(self).active() == old(self).active(),
            final(self).issued() == old(self).issued(),
            final(self).stepping() == old(self).stepping(),
            final(self).breakpoint() == old(self).breakpoint(),
            match old(self).refuses(id@) {
                Some(fault) => r == Err::<(), Fault>(fault) && final(self).state() == old(self).state(),
                None => r is Ok && final(self).state() == ControlFlow::Proceed,
            },
    {
        match self.admit_call(id) {
            Ok(()) => self.debugger.proceed(),
            Err(fault) => Err(fault),
        }
    }

    /// `start-tx`: lets the machine run the transaction that the caller has
    /// loaded from the argument. The reply is what `report` gives once the
    /// machine pauses or the program ends.
    pub fn start_tx(&mut self, arguments: &StartTxArguments) -> (r: Result<(), Fault>)
        ensures
            final(self).active() == old(self).active(),
            final(self).issued() == old(self).issued(),
            final(self).stepping() == old(self).stepping(),
            final(self).breakpoint() == old(self).breakpoint(),
            match old(self).refuses(arguments.id@) {
                Some(fault) => r == Err::<(), Fault>(fault) && final(self).state() == old(self).state(),
                None => r is Ok && final(self).state() == ControlFlow::Proceed,
            },
    {
        self.run(&arguments.id)
    }

    /// `continue-tx`: lets the paused machine run on. The reply is what
    /// `report` gives once the machine pauses or the program ends.
    pub fn continue_tx(&mut self, arguments: &ContinueTxArguments) -> (r: Result<(), Fault>)
        ensures
            final(self).active() == old(self).active(),
            final(self).issued() == old(self).issued(),
            final(self).stepping() == old(self).stepping(),
            final(self).breakpoint() == old(self).breakpoint(),
            match old(self).refuses(arguments.id@) {
                Some(fault) => r == Err::<(), Fault>(fault) && final(self).state() == old(self).state(),
                None => r is Ok && final(self).state() == ControlFlow::Proceed,
            },
    {
        self.run(&arguments.id)
    }

    /// Takes what the running machine reports and gives the reply to
    /// `start-tx` or `continue-tx` once it is due: `None` while the machine
    /// goes on, the place where it pauses, or no place where the program
    /// ended. A place whose offset the binding cannot carry is reported as
    /// a fault; the machine is paused there all the same.
    pub fn report(&mut self, event: Event) -> (r: Result<Option<RunResult>, Fault>)
        ensures
            final(self).active() == old(self).active(),
            final(self).issued() == old(self).issued(),
            final(self).stepping() == old(self).stepping(),
            final(self).breakpoint() == old(self).breakpoint(),
            old(self).state() != ControlFlow::Proceed ==> (r matches Err(
                Fault::Protocol(ProtocolError::OutOfTurn),
            )) && final(self).state() == old(self).state(),
            old(self).state() == ControlFlow::Proceed ==> match event {
                Event::Reached { context, pc } => if pauses(
                    old(self).stepping(),
                    old(self).breakpoint(),
                    context,
                    pc,
                ) {
                    &&& final(self).state() == ControlFlow::Debugger
                    &&& if pc <= i32::MAX {
                        &&& r matches Ok(Some(result))
                        &&& result.breakpoint matches Some(hit)
                        &&& hit.contract.value@ == target_numbers(target_of(context))
                        &&& hit.pc == pc
                    } else {
                        r matches Err(Fault::Range(RangeError::ProgramCounter { pc: beyond }))
                            && beyond == pc
                    }
                } else {
                    &&& final(self).state() == ControlFlow::Proceed
                    &&& r matches Ok(None)
                },
                Event::Finished { receipts } => {
                    &&& final(self).state() == ControlFlow::Debugger
                    &&& r matches Ok(Some(result))
                    &&& result.breakpoint is None
                },
            },
    {
        match self.debugger.on_event(event) {
            Ok(Action::Resume) => Ok(None),
            Ok(Action::Report(Response::Breakpoint(hit))) => {
                if hit.pc > i32::MAX as u64 {
                    return Err(Fault::Range(RangeError::ProgramCounter { pc: hit.pc }));
                }
                let place = OutputBreakpoint {
                    contract: OutputContractId { value: target_to_numbers(&hit.target) },
                    pc: hit.pc as i32,
                };
                Ok(Some(RunResult { breakpoint: Some(place) }))
            },
            Ok(Action::Report(_)) => Ok(Some(RunResult { breakpoint: None })),
            Err(fault) => Err(fault),
        }
    }

    /// `register`: the value of the register that the argument names, as
    /// the machine shows it.
    pub fn register(&self, arguments: &RegisterArguments, machine: &Machine) -> (r: Result<
        Register,
        Fault,
    >)
        ensures
            match self.refuses(arguments.id@) {
                Some(fault) => r == Err::<Register, Fault>(fault),
                None => if arguments.reg@ < REGISTER_COUNT {
                    r matches Ok(reply) && reply.register@ == machine.registers()[arguments.reg@ as int]
                } else {
                    r matches Err(Fault::Range(RangeError::Register { index })) && index
                        == arguments.reg@
                },
            },
    {
        match self.admit_call(&arguments.id) {
            Ok(()) => {},
            Err(fault) => {
                return Err(fault);
            },
        }
        match machine.register(arguments.reg.value()) {
            Ok(value) => Ok(Register { register: U64::new(value) }),
            Err(fault) => Err(Fault::Range(fault)),
        }
    }

    /// `memory`: the bytes of the stretch of memory that the arguments
    /// name, as the machine shows them, written as a list of numbers.
    pub fn memory(&self, arguments: &MemoryArguments, machine: &Machine) -> (r: Result<
        Memory,
        Fault,
    >)
        ensures
            match self.refuses(arguments.id@) {
                Some(fault) => r == Err::<Memory, Fault>(fault),
                None => if arguments.start@ + arguments.size@ <= machine.memory().len() {
                    r matches Ok(reply) && reply.memory@ == list_text(
                        widened(
                            machine.memory().subrange(
                                arguments.start@ as int,
                                arguments.start@ + arguments.size@,
                            ),
                        ),
                    )
                } else {
                    r matches Err(Fault::Range(RangeError::Memory { start, len })) && start
                        == arguments.start@ && len == arguments.size@
                },
            },
    {
        match self.admit_call(&arguments.id) {
            Ok(()) => {},
            Err(fault) => {
                return Err(fault);
            },
        }
        match machine.window(arguments.start.value(), arguments.size.value()) {
            Ok(bytes) => {
                let numbers: Vec<u64> = widen(&bytes);
                let mut text: String = String::new();
                push_list(&mut text, &numbers);
                assert(text@ =~= list_text(numbers@));
                Ok(Memory { memory: text })
            },
            Err(fault) => Err(Fault::Range(fault)),
        }
    }
}

} // verus!
