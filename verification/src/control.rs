//! Run control: whether the machine is paused or runs, where it pauses, and
//! what each command does to it.

use vstd::prelude::*;
use vstd::string::*;

use crate::breakpoint::{target_of, Breakpoint, ContractId, Target};
use crate::command::{Command, Response, ResponseView};
use crate::error::{Fault, ProtocolError, RangeError, SessionError};
use crate::limits::{MAX_RAM, REGISTER_COUNT};

verus! {

/// The state of run control, and what the caller of the dispatcher does
/// next.
#[derive(Clone, Copy, Debug, PartialEq, Eq, Structural)]
pub enum ControlFlow {
    /// The machine is paused and commands are taken.
    Debugger,
    /// The machine runs until it reports a pause or the end of the program.
    Proceed,
    /// The session ends; no command is taken any more.
    Terminate,
}

/// What the machine shows while it is paused: its registers, its memory and
/// its version.
#[derive(Debug)]
pub struct Machine {
    registers: Vec<u64>,
    memory: Vec<u8>,
    version: String,
}

impl Machine {
    #[verifier::type_invariant]
    spec fn within_limits(self) -> bool {
        self.registers@.len() == REGISTER_COUNT && self.memory@.len() <= MAX_RAM
    }

    /// The values of the registers, by index.
    pub closed spec fn registers(&self) -> Seq<u64> {
        self.registers@
    }

    /// The bytes of memory, by address.
    pub closed spec fn memory(&self) -> Seq<u8> {
        self.memory@
    }

    /// The version of the machine.
    pub closed spec fn version(&self) -> Seq<char> {
        self.version@
    }

    /// Takes what a machine shows, if it has as many registers as a machine
    /// has and no more memory than a machine can have.
    pub fn new(registers: Vec<u64>, memory: Vec<u8>, version: String) -> (r: Option<Machine>)
        ensures
            r is Some == (registers@.len() == REGISTER_COUNT && memory@.len() <= MAX_RAM),
            r matches Some(machine) ==> machine.registers() == registers@ && machine.memory()
                == memory@ && machine.version() == version@,
    {
        if registers.len() == REGISTER_COUNT && memory.len() as u64 <= MAX_RAM {
            Some(Machine { registers, memory, version })
        } else {
            None
        }
    }

    /// The value of the register `index`.
    pub fn register(&self, index: u64) -> (r: Result<u64, RangeError>)
        ensures
            self.registers().len() == REGISTER_COUNT,
            index < REGISTER_COUNT ==> r == Ok::<u64, RangeError>(self.registers()[index as int]),
            index >= REGISTER_COUNT ==> r == Err::<u64, RangeError>(RangeError::Register { index }),
    {
        proof {
            use_type_invariant(self);
        }
        if index < REGISTER_COUNT as u64 {
            Ok(self.registers[index as usize])
        } else {
            Err(RangeError::Register { index })
        }
    }

    /// The values of all registers.
    pub fn all_registers(&self) -> (values: Vec<u64>)
        ensures
            values@ == self.registers(),
            values@.len() == REGISTER_COUNT,
    {
        proof {
            use_type_invariant(self);
        }
        self.registers.clone()
    }

    /// The `len` bytes of memory from the address `start` on, where they lie
    /// within the memory.
    pub fn window(&self, start: u64, len: u64) -> (r: Result<Vec<u8>, RangeError>)
        ensures
            self.memory().len() <= MAX_RAM,
            start + len <= self.memory().len() ==> r is Ok && r->Ok_0@ == self.memory().subrange(
                start as int,
                start + len,
            ),
            start + len > self.memory().len() ==> r == Err::<Vec<u8>, RangeError>(
                RangeError::Memory { start, len },
            ),
    {
        proof {
            use_type_invariant(self);
        }
        let size: u64 = self.memory.len() as u64;
        if start > size || len > size - start {
            return Err(RangeError::Memory { start, len });
        }
        let end: usize = (start + len) as usize;
        let mut bytes: Vec<u8> = Vec::new();
        let mut i: usize = start as usize;
        while i < end
            invariant
                start <= i <= end <= self.memory@.len(),
                bytes@ == self.memory@.subrange(start as int, i as int),
            decreases end - i,
        {
            bytes.push(self.memory[i]);
            i = i + 1;
            assert(bytes@ =~= self.memory@.subrange(start as int, i as int));
        }
        Ok(bytes)
    }

    /// The number of bytes of memory.
    pub fn memory_size(&self) -> (size: u64)
        ensures
            size == self.memory().len(),
            size <= MAX_RAM,
    {
        proof {
            use_type_invariant(self);
        }
        self.memory.len() as u64
    }

    /// The version of the machine.
    pub fn version_text(&self) -> (text: String)
        ensures
            text@ == self.version(),
    {
        self.version.clone()
    }
}

/// Whether the machine pauses when it comes to the offset `pc` in the
/// contract `context`, or in the script where there is none: always while it
/// steps, else where the breakpoint lies.
pub open spec fn pauses(
    stepping: bool,
    breakpoint: Option<Breakpoint>,
    context: Option<ContractId>,
    pc: u64,
) -> bool {
    stepping || (breakpoint matches Some(bp) && bp.hit_by(context, pc))
}

/// What the machine reports while it runs.
#[derive(Debug)]
pub enum Event {
    /// It came to the offset `pc` in the contract `context`, or in the
    /// script where there is none.
    Reached { context: Option<ContractId>, pc: u64 },
    /// The program came to its end and left these receipts.
    Finished { receipts: Vec<String> },
}

/// What is done after the machine reported an event.
#[derive(Debug)]
pub enum Action {
    /// The machine goes on.
    Resume,
    /// The machine stays paused and the client is told why.
    Report(Response),
}

/// What a command does where the machine is paused: the answer, if one is
/// given at once, and the state after it.
pub open spec fn answer_to(
    command: Command,
    registers: Seq<u64>,
    memory: Seq<u8>,
    version: Seq<char>,
) -> Result<(Option<ResponseView>, ControlFlow), Fault> {
    match command {
        Command::Version => Ok((Some(ResponseView::Version { core: version }), ControlFlow::Debugger)),
        Command::Continue => Ok((None, ControlFlow::Proceed)),
        Command::SetStepping(_) => Ok((Some(ResponseView::Done), ControlFlow::Debugger)),
        Command::SetBreakpoint(_) => Ok((Some(ResponseView::Done), ControlFlow::Debugger)),
        Command::ReadRegisters => Ok((Some(ResponseView::Registers(registers)), ControlFlow::Debugger)),
        Command::ReadMemory { start, len } => if start + len <= memory.len() {
            Ok(
                (
                    Some(ResponseView::Memory(memory.subrange(start as int, start + len))),
                    ControlFlow::Debugger,
                ),
            )
        } else {
            Err(Fault::Range(RangeError::Memory { start, len }))
        },
    }
}

/// Of all commands only `Continue` lets the machine run, and it alone gets
/// no answer at once; every other command that is carried out leaves the
/// machine paused and is answered.
pub proof fn lemma_only_continue_proceeds(
    command: Command,
    registers: Seq<u64>,
    memory: Seq<u8>,
    version: Seq<char>,
)
    ensures
        command is Continue ==> answer_to(command, registers, memory, version) == Ok::<
            (Option<ResponseView>, ControlFlow),
            Fault,
        >((None, ControlFlow::Proceed)),
        !(command is Continue) ==> match answer_to(command, registers, memory, version) {
            Ok((answer, flow)) => answer is Some && flow == ControlFlow::Debugger,
            Err(_) => true,
        },
{
}

/// What an answer holds, if there is one.
pub open spec fn what_is_told(given: Option<Response>) -> Option<ResponseView> {
    match given {
        Some(response) => Some(response@),
        None => None,
    }
}

/// What is said to a command that comes while the machine is not paused.
pub open spec fn refusal(state: ControlFlow) -> Fault {
    if state == ControlFlow::Terminate {
        Fault::Session(SessionError::NoSession)
    } else {
        Fault::Protocol(ProtocolError::OutOfTurn)
    }
}

/// Run control for one session: its state, whether the machine steps, and
/// the one breakpoint, if one is set.
#[derive(Debug)]
pub struct Debugger {
    state: ControlFlow,
    stepping: bool,
    breakpoint: Option<Breakpoint>,
}

impl Debugger {
    /// The state of run control.
    pub closed spec fn state(&self) -> ControlFlow {
        self.state
    }

    /// Whether the machine pauses after every instruction.
    pub closed spec fn stepping(&self) -> bool {
        self.stepping
    }

    /// The breakpoint, if one is set.
    pub closed spec fn breakpoint(&self) -> Option<Breakpoint> {
        self.breakpoint
    }

    /// Run control of a paused machine that does not step and has no
    /// breakpoint.
    pub fn new() -> (debugger: Debugger)
        ensures
            debugger.state() == ControlFlow::Debugger,
            !debugger.stepping(),
            debugger.breakpoint() is None,
    {
        Debugger { state: ControlFlow::Debugger, stepping: false, breakpoint: None }
    }

    /// The state of run control.
    pub fn flow(&self) -> (state: ControlFlow)
        ensures
            state == self.state(),
    {
        self.state
    }

    /// Says whether a command is taken now: only while the machine is
    /// paused.
    pub fn ready(&self) -> (r: Result<(), Fault>)
        ensures
            r == self.ready_spec(),
    {
        match self.state {
            ControlFlow::Debugger => Ok(()),
            ControlFlow::Proceed => Err(Fault::Protocol(ProtocolError::OutOfTurn)),
            ControlFlow::Terminate => Err(Fault::Session(SessionError::NoSession)),
        }
    }

    /// Sets the breakpoint, in place of the one before.
    pub fn set_breakpoint(&mut self, bp: Breakpoint) -> (r: Result<(), Fault>)
        ensures
            r == old(self).ready_spec(),
            r is Err ==> *final(self) == *old(self),
            final(self).state() == old(self).state(),
            final(self).stepping() == old(self).stepping(),
            final(self).breakpoint() == if r is Ok {
                Some(bp)
            } else {
                old(self).breakpoint()
            },
    {
        match self.ready() {
            Ok(()) => {
                self.breakpoint = Some(bp);
                Ok(())
            },
            Err(fault) => Err(fault),
        }
    }

    /// Makes the machine pause after every instruction, or at breakpoints
    /// only.
    pub fn set_stepping(&mut self, on: bool) -> (r: Result<(), Fault>)
        ensures
            r == old(self).ready_spec(),
            r is Err ==> *final(self) == *old(self),
            final(self).state() == old(self).state(),
            final(self).breakpoint() == old(self).breakpoint(),
            final(self).stepping() == if r is Ok {
                on
            } else {
                old(self).stepping()
            },
    {
        match self.ready() {
            Ok(()) => {
                self.stepping = on;
                Ok(())
            },
            Err(fault) => Err(fault),
        }
    }

    /// Lets the machine run.
    pub fn proceed(&mut self) -> (r: Result<(), Fault>)
        ensures
            r == old(self).ready_spec(),
            r is Err ==> *final(self) == *old(self),
            final(self).stepping() == old(self).stepping(),
            final(self).breakpoint() == old(self).breakpoint(),
            final(self).state() == if r is Ok {
                ControlFlow::Proceed
            } else {
                old(self).state()
            },
    {
        match self.ready() {
            Ok(()) => {
                self.state = ControlFlow::Proceed;
                Ok(())
            },
            Err(fault) => Err(fault),
        }
    }

    /// Whether a command is taken now.
    pub open spec fn ready_spec(&self) -> Result<(), Fault> {
        if self.state() == ControlFlow::Debugger {
            Ok(())
        } else {
            Err(refusal(self.state()))
        }
    }

    /// Carries out a command. A command is taken only while the machine is
    /// paused. Only `Continue` changes the state of run control, and it
    /// alone gets no answer at once: its answer is what the machine reports
    /// later. A command that fails changes nothing.
    pub fn dispatch(&mut self, command: &Command, machine: &Machine) -> (r: Result<
        (Option<Response>, ControlFlow),
        Fault,
    >)
        ensures
            old(self).state() != ControlFlow::Debugger ==> r == Err::<
                (Option<Response>, ControlFlow),
                Fault,
            >(refusal(old(self).state())),
            old(self).state() == ControlFlow::Debugger ==> match answer_to(
                *command,
                machine.registers(),
                machine.memory(),
                machine.version(),
            ) {
                Ok((answer, flow)) => {
                    &&& r matches Ok((given, next))
                    &&& what_is_told(given) == answer
                    &&& next == flow
                    &&& final(self).state() == flow
                },
                Err(fault) => r matches Err(raised) && raised == fault,
            },
            r is Err ==> *final(self) == *old(self),
            !(command is Continue) ==> final(self).state() == old(self).state(),
            final(self).stepping() == if r is Ok && command is SetStepping {
                command->SetStepping_0
            } else {
                old(self).stepping()
            },
            final(self).breakpoint() == if r is Ok && command is SetBreakpoint {
                Some(command->SetBreakpoint_0)
            } else {
                old(self).breakpoint()
            },
    {
        match self.ready() {
            Ok(()) => {},
            Err(fault) => {
                return Err(fault);
            },
        }
        match command {
            Command::Version => Ok(
                (Some(Response::Version { core: machine.version_text() }), ControlFlow::Debugger),
            ),
            Command::Continue => {
                self.state = ControlFlow::Proceed;
                Ok((None, ControlFlow::Proceed))
            },
            Command::SetStepping(on) => {
                self.stepping = *on;
                Ok((Some(Response::Done), ControlFlow::Debugger))
            },
            Command::SetBreakpoint(bp) => {
                self.breakpoint = Some(*bp);
                Ok((Some(Response::Done), ControlFlow::Debugger))
            },
            Command::ReadRegisters => Ok(
                (Some(Response::Registers(machine.all_registers())), ControlFlow::Debugger),
            ),
            Command::ReadMemory { start, len } => match machine.window(*start, *len) {
                Ok(bytes) => Ok((Some(Response::Memory(bytes)), ControlFlow::Debugger)),
                Err(fault) => Err(Fault::Range(fault)),
            },
        }
    }

    /// Decides whether the machine pauses at the place it came to.
    pub fn pauses_at(&self, context: Option<ContractId>, pc: u64) -> (pause: bool)
        ensures
            pause == pauses(self.stepping(), self.breakpoint(), context, pc),
    {
        if self.stepping {
            return true;
        }
        match &self.breakpoint {
            Some(bp) => bp.matches(context, pc),
            None => false,
        }
    }

    /// Takes what the running machine reports. Where it came to a place at
    /// which it pauses, and where the program ended, the machine is paused
    /// again and the client is told; else the machine goes on. A report
    /// from a machine that does not run changes nothing.
    pub fn on_event(&mut self, event: Event) -> (r: Result<Action, Fault>)
        ensures
            final(self).stepping() == old(self).stepping(),
            final(self).breakpoint() == old(self).breakpoint(),
            old(self).state() != ControlFlow::Proceed ==> (r matches Err(
                Fault::Protocol(ProtocolError::OutOfTurn),
            )) && *final(self) == *old(self),
            old(self).state() == ControlFlow::Proceed ==> match event {
                Event::Reached { context, pc } => if pauses(
                    old(self).stepping(),
                    old(self).breakpoint(),
                    context,
                    pc,
                ) {
                    &&& final(self).state() == ControlFlow::Debugger
                    &&& r matches Ok(Action::Report(told))
                    &&& told@ == ResponseView::Breakpoint(Breakpoint { target: target_of(context), pc })
                } else {
                    &&& final(self).state() == ControlFlow::Proceed
                    &&& r matches Ok(Action::Resume)
                },
                Event::Finished { receipts } => {
                    &&& final(self).state() == ControlFlow::Debugger
                    &&& r matches Ok(Action::Report(told))
                    &&& told@ == ResponseView::Terminated { receipts: receipts.deep_view() }
                },
            },
    {
        match self.state {
            ControlFlow::Proceed => {},
            _ => {
                return Err(Fault::Protocol(ProtocolError::OutOfTurn));
            },
        }
        match event {
            Event::Reached { context, pc } => {
                if self.pauses_at(context, pc) {
                    self.state = ControlFlow::Debugger;
                    let target: Target = match context {
                        Some(id) => Target::Contract(id),
                        None => Target::Script,
                    };
                    Ok(Action::Report(Response::Breakpoint(Breakpoint { target, pc })))
                } else {
                    Ok(Action::Resume)
                }
            },
            Event::Finished { receipts } => {
                self.state = ControlFlow::Debugger;
                Ok(Action::Report(Response::Terminated { receipts }))
            },
        }
    }

    /// Ends run control: no command is taken any more.
    pub fn terminate(&mut self)
        ensures
            final(self).state() == ControlFlow::Terminate,
            final(self).stepping() == old(self).stepping(),
            final(self).breakpoint() == old(self).breakpoint(),
    {
        self.state = ControlFlow::Terminate;
    }
}

/// A breakpoint in the script pauses the machine, while it does not step,
/// exactly at its offset outside every contract.
pub proof fn lemma_script_breakpoint(offset: u64, context: Option<ContractId>, pc: u64)
    ensures
        pauses(false, Some(Breakpoint { target: Target::Script, pc: offset }), context, pc) <==> (pc
            == offset && context is None),
{
}

/// A breakpoint in a contract pauses the machine, while it does not step,
/// exactly at its offset inside that contract.
pub proof fn lemma_contract_breakpoint(
    contract: ContractId,
    offset: u64,
    context: Option<ContractId>,
    pc: u64,
)
    ensures
        pauses(false, Some(Breakpoint { target: Target::Contract(contract), pc: offset }), context, pc)
            <==> (pc == offset && context == Some(contract)),
{
}

/// While the machine steps it pauses wherever it comes to, whatever
/// breakpoint is set.
pub proof fn lemma_stepping_pauses_everywhere(
    breakpoint: Option<Breakpoint>,
    context: Option<ContractId>,
    pc: u64,
)
    ensures
        pauses(true, breakpoint, context, pc),
{
}

} // verus!
