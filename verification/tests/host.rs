use fuel_debugger::breakpoint::{Breakpoint, ContractId, Target};
use fuel_debugger::client::Client;
use fuel_debugger::control::{Event, Machine};
use fuel_debugger::error::{Fault, ProtocolError, RangeError, SessionError};
use fuel_debugger::host::Host;
use fuel_debugger::queries::{
    self, ContinueTx, ContinueTxArguments, EndSessionArguments, Memory, MemoryArguments, Register,
    RegisterArguments, SetBreakpointArguments, SetSingleSteppingArguments, StartTx,
    StartTxArguments, U64,
};
use fuel_debugger::session::{SessionId, SessionManager};

fn machine() -> Machine {
    let registers: Vec<u64> = (0..64).map(|i| 1000 + i).collect();
    let memory: Vec<u8> = (0..256).map(|i| i as u8).collect();
    Machine::new(registers, memory, "0.11.1".to_string()).unwrap()
}

fn id(text: &str) -> SessionId {
    SessionId { text: text.to_string() }
}

#[test]
fn a_second_start_fails_while_the_first_stays() {
    let mut manager = SessionManager::new();
    assert!(!manager.is_active());
    let first = manager.start().unwrap();
    assert!(manager.is_active());
    assert!(matches!(manager.start(), Err(SessionError::AlreadyActive)));
    assert!(matches!(manager.start(), Err(SessionError::AlreadyActive)));
    assert!(manager.is_active());
    assert_eq!(manager.check(&first), Ok(()));
}

#[test]
fn sessions_are_named_by_their_count() {
    let mut manager = SessionManager::new();
    let first = manager.start().unwrap();
    assert_eq!(first.text, "0");
    assert_eq!(manager.end(&first), Ok(()));
    let second = manager.start().unwrap();
    assert_eq!(second.text, "1");
    assert!(!second.same(&first));
    assert!(second.same(&second.clone()));
    assert_eq!(manager.check(&first), Err(SessionError::Mismatch));
}

#[test]
fn ending_needs_the_active_session() {
    let mut manager = SessionManager::new();
    assert_eq!(manager.end(&id("0")), Err(SessionError::NoSession));
    let first = manager.start().unwrap();
    assert_eq!(manager.end(&id("7")), Err(SessionError::Mismatch));
    assert!(manager.is_active());
    assert_eq!(manager.end(&first), Ok(()));
    assert!(!manager.is_active());
    assert_eq!(manager.end(&first), Err(SessionError::NoSession));
    assert_eq!(manager.check(&first), Err(SessionError::NoSession));
    assert!(manager.start().is_ok());
}

#[test]
fn host_serves_one_session() {
    let mut host = Host::new();
    let started = host.start_session().unwrap();
    assert!(matches!(host.start_session(), Err(SessionError::AlreadyActive)));
    let other = EndSessionArguments { id: id("other") };
    assert!(matches!(host.end_session(&other), Err(SessionError::Mismatch)));
    let own = EndSessionArguments { id: started.start_session.clone() };
    assert!(host.end_session(&own).unwrap().end_session);
    assert!(matches!(host.end_session(&own), Err(SessionError::NoSession)));
    assert!(host.start_session().is_ok());
}

#[test]
fn register_reads_the_live_value_or_fails_out_of_range() {
    let machine = machine();
    let mut host = Host::new();
    let session = host.start_session().unwrap().start_session;
    for index in [0u64, 1, 12, 63] {
        let arguments = RegisterArguments { id: session.clone(), reg: U64::new(index) };
        assert_eq!(host.register(&arguments, &machine).unwrap().register.value(), 1000 + index);
    }
    for index in [64u64, 65, 1 << 32, u64::MAX] {
        let arguments = RegisterArguments { id: session.clone(), reg: U64::new(index) };
        assert!(matches!(
            host.register(&arguments, &machine),
            Err(Fault::Range(RangeError::Register { index: found })) if found == index
        ));
    }
}

#[test]
fn memory_reads_exactly_the_window_or_fails_out_of_range() {
    let machine = machine();
    let mut host = Host::new();
    let session = host.start_session().unwrap().start_session;
    let ask = |start: u64, size: u64| MemoryArguments {
        id: session.clone(),
        start: U64::new(start),
        size: U64::new(size),
    };
    assert_eq!(host.memory(&ask(0x10, 4), &machine).unwrap().memory, "[16,17,18,19]");
    assert_eq!(host.memory(&ask(0, 0), &machine).unwrap().memory, "[]");
    assert_eq!(host.memory(&ask(255, 1), &machine).unwrap().memory, "[255]");
    assert_eq!(host.memory(&ask(256, 0), &machine).unwrap().memory, "[]");
    let whole = host.memory(&ask(0, 256), &machine).unwrap();
    assert_eq!(Client::memory_read(Some(whole)), Ok((0..=255).collect::<Vec<u8>>()));
    assert!(matches!(
        host.memory(&ask(255, 2), &machine),
        Err(Fault::Range(RangeError::Memory { start: 255, len: 2 }))
    ));
    assert!(matches!(
        host.memory(&ask(257, 0), &machine),
        Err(Fault::Range(RangeError::Memory { start: 257, len: 0 }))
    ));
    assert!(matches!(
        host.memory(&ask(u64::MAX, 2), &machine),
        Err(Fault::Range(RangeError::Memory { .. }))
    ));
}

#[test]
fn every_operation_needs_the_active_session() {
    let machine = machine();
    let mut host = Host::new();
    let none = |fault: &Fault| *fault == Fault::Session(SessionError::NoSession);
    let bp = queries::Breakpoint { contract: vec![], pc: 0 };
    assert!(host
        .set_breakpoint(&SetBreakpointArguments { id: id("0"), bp })
        .is_err_and(|f| none(&f)));
    assert!(host
        .set_single_stepping(&SetSingleSteppingArguments { id: id("0"), enable: true })
        .is_err_and(|f| none(&f)));
    assert!(host.start_tx(&StartTxArguments { id: id("0"), tx: String::new() }).is_err_and(|f| none(&f)));
    assert!(host.continue_tx(&ContinueTxArguments { id: id("0") }).is_err_and(|f| none(&f)));
    assert!(host
        .register(&RegisterArguments { id: id("0"), reg: U64::new(0) }, &machine)
        .is_err_and(|f| none(&f)));
    assert!(host
        .memory(&MemoryArguments { id: id("0"), start: U64::new(0), size: U64::new(0) }, &machine)
        .is_err_and(|f| none(&f)));
    let session = host.start_session().unwrap().start_session;
    let wrong = |fault: &Fault| *fault == Fault::Session(SessionError::Mismatch);
    assert!(host.continue_tx(&ContinueTxArguments { id: id("zz") }).is_err_and(|f| wrong(&f)));
    assert!(host
        .register(&RegisterArguments { id: id("zz"), reg: U64::new(99) }, &machine)
        .is_err_and(|f| wrong(&f)));
    host.end_session(&EndSessionArguments { id: session.clone() }).unwrap();
    assert!(host.continue_tx(&ContinueTxArguments { id: session.clone() }).is_err_and(|f| none(&f)));
    assert!(host
        .register(&RegisterArguments { id: session, reg: U64::new(0) }, &machine)
        .is_err_and(|f| none(&f)));
}

#[test]
fn start_breakpoint_run_and_continue() {
    let machine = machine();
    let mut host = Host::new();
    let mut client = Client::new("http://localhost:4000/graphql".to_string());
    client.start_session().unwrap();
    client.session_started(Some(host.start_session().unwrap())).unwrap();

    let arguments = client.set_breakpoint(Breakpoint::script(0)).unwrap();
    let reply = host.set_breakpoint(&arguments).unwrap();
    assert_eq!(Client::breakpoint_set(Some(reply)), Ok(()));

    let arguments = client.start_tx("{}".to_string()).unwrap();
    host.start_tx(&arguments).unwrap();
    let result = host.report(Event::Reached { context: None, pc: 0 }).unwrap().unwrap();
    let result = Client::tx_started(Some(StartTx { start_tx: result })).unwrap();
    assert_eq!(result.paused_at(), Ok(Some(Breakpoint { target: Target::Script, pc: 0 })));

    let arguments = client.read_register(12).unwrap();
    let reply: Register = host.register(&arguments, &machine).unwrap();
    assert_eq!(Client::register_read(Some(reply)), Ok(1012));
    let arguments = client.read_memory(0x10, 0x20).unwrap();
    let reply: Memory = host.memory(&arguments, &machine).unwrap();
    assert_eq!(Client::memory_read(Some(reply)), Ok((0x10..0x30).collect::<Vec<u8>>()));

    let arguments = client.set_single_stepping(true).unwrap();
    assert!(host.set_single_stepping(&arguments).unwrap().set_single_stepping);
    host.continue_tx(&client.continue_tx().unwrap()).unwrap();
    let result = host.report(Event::Reached { context: None, pc: 4 }).unwrap().unwrap();
    let result = Client::tx_continued(Some(ContinueTx { continue_tx: result })).unwrap();
    assert_eq!(result.paused_at(), Ok(Some(Breakpoint { target: Target::Script, pc: 4 })));

    let arguments = client.set_single_stepping(false).unwrap();
    host.set_single_stepping(&arguments).unwrap();
    host.continue_tx(&client.continue_tx().unwrap()).unwrap();
    assert_eq!(host.report(Event::Reached { context: None, pc: 8 }).unwrap().map(|r| r.breakpoint.is_some()), None);
    let result = host.report(Event::Finished { receipts: vec![] }).unwrap().unwrap();
    assert_eq!(result.paused_at(), Ok(None));

    let arguments = client.end_session().unwrap();
    assert!(host.end_session(&arguments).unwrap().end_session);
    assert!(matches!(client.continue_tx(), Err(SessionError::NoSession)));
}

#[test]
fn host_takes_no_command_while_the_machine_runs() {
    let machine = machine();
    let mut host = Host::new();
    let session = host.start_session().unwrap().start_session;
    host.continue_tx(&ContinueTxArguments { id: session.clone() }).unwrap();
    let busy = Fault::Protocol(ProtocolError::OutOfTurn);
    assert_eq!(host.continue_tx(&ContinueTxArguments { id: session.clone() }), Err(busy));
    assert!(host
        .register(&RegisterArguments { id: session.clone(), reg: U64::new(0) }, &machine)
        .is_err_and(|f| f == busy));
    assert!(host.report(Event::Reached { context: None, pc: 0 }).unwrap().is_none());
    let inside = ContractId { bytes: [1; 32] };
    let bp = queries::Breakpoint { contract: vec![1; 32], pc: 4 };
    assert!(host
        .set_breakpoint(&SetBreakpointArguments { id: session.clone(), bp })
        .is_err_and(|f| f == busy));
    let result = host.report(Event::Finished { receipts: vec![] }).unwrap().unwrap();
    assert!(result.breakpoint.is_none());
    let bp = queries::Breakpoint { contract: vec![1; 32], pc: 4 };
    assert!(host.set_breakpoint(&SetBreakpointArguments { id: session.clone(), bp }).is_ok());
    host.continue_tx(&ContinueTxArguments { id: session.clone() }).unwrap();
    let result = host.report(Event::Reached { context: Some(inside), pc: 4 }).unwrap().unwrap();
    let hit = result.breakpoint.unwrap();
    assert_eq!((hit.contract.value, hit.pc), (vec![1; 32], 4));
    assert!(matches!(
        host.report(Event::Reached { context: None, pc: 0 }),
        Err(Fault::Protocol(ProtocolError::OutOfTurn))
    ));
}

#[test]
fn host_refuses_arguments_that_carry_no_breakpoint() {
    let mut host = Host::new();
    let session = host.start_session().unwrap().start_session;
    let bp = queries::Breakpoint { contract: vec![1, 2], pc: 4 };
    assert!(host
        .set_breakpoint(&SetBreakpointArguments { id: session.clone(), bp })
        .is_err_and(|f| f == Fault::Protocol(ProtocolError::Undecodable)));
    let bp = queries::Breakpoint { contract: vec![], pc: -1 };
    assert!(host
        .set_breakpoint(&SetBreakpointArguments { id: session, bp })
        .is_err_and(|f| f == Fault::Protocol(ProtocolError::Undecodable)));
}

#[test]
fn a_pause_beyond_what_the_binding_carries_is_a_fault() {
    let mut host = Host::new();
    let session = host.start_session().unwrap().start_session;
    host.set_single_stepping(&SetSingleSteppingArguments { id: session.clone(), enable: true }).unwrap();
    host.continue_tx(&ContinueTxArguments { id: session.clone() }).unwrap();
    assert!(matches!(
        host.report(Event::Reached { context: None, pc: 1 << 31 }),
        Err(Fault::Range(RangeError::ProgramCounter { pc: 2147483648 }))
    ));
    assert!(host.continue_tx(&ContinueTxArguments { id: session }).is_ok());
}
