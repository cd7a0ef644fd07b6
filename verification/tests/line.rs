use fuel_debugger::breakpoint::{Breakpoint, ContractId, Target};
use fuel_debugger::command::{Command, Response};
use fuel_debugger::control::{Action, ControlFlow, Debugger, Event, Machine};
use fuel_debugger::error::{Fault, ProtocolError, RangeError, SessionError, TransportError};
use fuel_debugger::line::{frame, memory_told, registers_told, unframe, Client, Connection};

fn machine() -> Machine {
    let registers: Vec<u64> = (0..64).map(|i| i * 3).collect();
    let memory: Vec<u8> = (0..1024).map(|i| (i % 251) as u8).collect();
    Machine::new(registers, memory, "0.11.1".to_string()).unwrap()
}

#[test]
fn frames_end_with_a_line_feed() {
    assert_eq!(frame("{\"ok\":null}".to_string()), "{\"ok\":null}\n");
    assert_eq!(frame(String::new()), "\n");
    assert_eq!(unframe("{\"ok\":null}\n"), Ok("{\"ok\":null}".to_string()));
    assert_eq!(unframe("\n"), Ok(String::new()));
    assert_eq!(unframe("a\n\n"), Ok("a\n".to_string()));
    assert_eq!(unframe(""), Err(Fault::Transport(TransportError::ConnectionClosed)));
    assert_eq!(unframe("{\"ok\":null}"), Err(Fault::Protocol(ProtocolError::Unterminated)));
}

#[test]
fn machine_must_have_the_registers_of_a_machine() {
    assert!(Machine::new(vec![0; 64], vec![], String::new()).is_some());
    assert!(Machine::new(vec![0; 63], vec![], String::new()).is_none());
    assert!(Machine::new(vec![0; 65], vec![], String::new()).is_none());
    assert!(Machine::new(vec![0; 64], vec![0; 8 * 1024 * 1024], String::new()).is_some());
    assert!(Machine::new(vec![0; 64], vec![0; 8 * 1024 * 1024 + 1], String::new()).is_none());
}

#[test]
fn machine_reads_registers_and_memory_within_bounds() {
    let machine = machine();
    assert_eq!(machine.register(0), Ok(0));
    assert_eq!(machine.register(12), Ok(36));
    assert_eq!(machine.register(63), Ok(189));
    assert_eq!(machine.register(64), Err(RangeError::Register { index: 64 }));
    assert_eq!(machine.register(u64::MAX), Err(RangeError::Register { index: u64::MAX }));
    assert_eq!(machine.window(0, 4), Ok(vec![0, 1, 2, 3]));
    assert_eq!(machine.window(250, 3), Ok(vec![250, 0, 1]));
    assert_eq!(machine.window(1020, 4), Ok(vec![16, 17, 18, 19]));
    assert_eq!(machine.window(1024, 0), Ok(vec![]));
    assert_eq!(machine.window(1021, 4), Err(RangeError::Memory { start: 1021, len: 4 }));
    assert_eq!(machine.window(1025, 0), Err(RangeError::Memory { start: 1025, len: 0 }));
    assert_eq!(
        machine.window(u64::MAX, u64::MAX),
        Err(RangeError::Memory { start: u64::MAX, len: u64::MAX })
    );
    assert_eq!(machine.window(0, 1024).unwrap().len(), 1024);
}

#[test]
fn only_continue_changes_run_control() {
    let machine = machine();
    let mut debugger = Debugger::new();
    let bp = Breakpoint { target: Target::Script, pc: 0 };
    let commands = [
        Command::Version,
        Command::SetStepping(true),
        Command::SetBreakpoint(bp),
        Command::ReadRegisters,
        Command::ReadMemory { start: 0, len: 64 },
        Command::ReadMemory { start: 2000, len: 64 },
        Command::SetStepping(false),
    ];
    for command in commands {
        match debugger.dispatch(&command, &machine) {
            Ok((answer, flow)) => {
                assert!(answer.is_some());
                assert_eq!(flow, ControlFlow::Debugger);
            }
            Err(fault) => assert_eq!(fault, Fault::Range(RangeError::Memory { start: 2000, len: 64 })),
        }
        assert_eq!(debugger.flow(), ControlFlow::Debugger);
    }
    assert_eq!(debugger.dispatch(&Command::Continue, &machine), Ok((None, ControlFlow::Proceed)));
    assert_eq!(debugger.flow(), ControlFlow::Proceed);
}

#[test]
fn dispatch_answers_each_command() {
    let machine = machine();
    let mut debugger = Debugger::new();
    assert_eq!(
        debugger.dispatch(&Command::Version, &machine),
        Ok((Some(Response::Version { core: "0.11.1".to_string() }), ControlFlow::Debugger))
    );
    assert_eq!(
        debugger.dispatch(&Command::SetStepping(true), &machine),
        Ok((Some(Response::Done), ControlFlow::Debugger))
    );
    assert_eq!(
        debugger.dispatch(&Command::ReadRegisters, &machine),
        Ok((Some(Response::Registers((0..64).map(|i| i * 3).collect())), ControlFlow::Debugger))
    );
    assert_eq!(
        debugger.dispatch(&Command::ReadMemory { start: 2, len: 3 }, &machine),
        Ok((Some(Response::Memory(vec![2, 3, 4])), ControlFlow::Debugger))
    );
    assert_eq!(
        debugger.dispatch(&Command::ReadMemory { start: 1000, len: 25 }, &machine),
        Err(Fault::Range(RangeError::Memory { start: 1000, len: 25 }))
    );
}

#[test]
fn no_command_is_taken_while_the_machine_runs_or_after_the_end() {
    let machine = machine();
    let mut debugger = Debugger::new();
    debugger.dispatch(&Command::Continue, &machine).unwrap();
    assert_eq!(
        debugger.dispatch(&Command::ReadRegisters, &machine),
        Err(Fault::Protocol(ProtocolError::OutOfTurn))
    );
    assert_eq!(
        debugger.dispatch(&Command::Continue, &machine),
        Err(Fault::Protocol(ProtocolError::OutOfTurn))
    );
    assert_eq!(debugger.flow(), ControlFlow::Proceed);
    debugger.terminate();
    assert_eq!(
        debugger.dispatch(&Command::Version, &machine),
        Err(Fault::Session(SessionError::NoSession))
    );
    assert_eq!(debugger.flow(), ControlFlow::Terminate);
    assert!(matches!(
        debugger.on_event(Event::Finished { receipts: vec![] }),
        Err(Fault::Protocol(ProtocolError::OutOfTurn))
    ));
}

#[test]
fn setting_a_breakpoint_replaces_the_one_before() {
    let machine = machine();
    let mut debugger = Debugger::new();
    let first = Breakpoint { target: Target::Script, pc: 4 };
    let second = Breakpoint { target: Target::Script, pc: 8 };
    debugger.dispatch(&Command::SetBreakpoint(first), &machine).unwrap();
    debugger.dispatch(&Command::SetBreakpoint(second), &machine).unwrap();
    assert!(!debugger.pauses_at(None, 4));
    assert!(debugger.pauses_at(None, 8));
}

#[test]
fn machine_pauses_at_the_breakpoint() {
    let machine = machine();
    let mut debugger = Debugger::new();
    let id = ContractId { bytes: [4; 32] };
    let bp = Breakpoint { target: Target::Contract(id), pc: 8 };
    debugger.dispatch(&Command::SetBreakpoint(bp), &machine).unwrap();
    debugger.dispatch(&Command::Continue, &machine).unwrap();
    assert!(matches!(debugger.on_event(Event::Reached { context: None, pc: 8 }), Ok(Action::Resume)));
    assert!(matches!(
        debugger.on_event(Event::Reached { context: Some(id), pc: 4 }),
        Ok(Action::Resume)
    ));
    assert_eq!(debugger.flow(), ControlFlow::Proceed);
    match debugger.on_event(Event::Reached { context: Some(id), pc: 8 }) {
        Ok(Action::Report(response)) => assert_eq!(response, Response::Breakpoint(bp)),
        other => panic!("no pause: {:?}", other),
    }
    assert_eq!(debugger.flow(), ControlFlow::Debugger);
}

#[test]
fn stepping_pauses_after_every_instruction() {
    let machine = machine();
    let mut debugger = Debugger::new();
    let far = Breakpoint { target: Target::Script, pc: 400 };
    debugger.dispatch(&Command::SetBreakpoint(far), &machine).unwrap();
    debugger.dispatch(&Command::SetStepping(true), &machine).unwrap();
    for step in 1..5u64 {
        assert_eq!(debugger.dispatch(&Command::Continue, &machine), Ok((None, ControlFlow::Proceed)));
        match debugger.on_event(Event::Reached { context: None, pc: step * 4 }) {
            Ok(Action::Report(Response::Breakpoint(hit))) => {
                assert_eq!(hit, Breakpoint { target: Target::Script, pc: step * 4 })
            }
            other => panic!("no pause: {:?}", other),
        }
        assert_eq!(debugger.flow(), ControlFlow::Debugger);
    }
    debugger.dispatch(&Command::SetStepping(false), &machine).unwrap();
    debugger.dispatch(&Command::Continue, &machine).unwrap();
    assert!(matches!(debugger.on_event(Event::Reached { context: None, pc: 20 }), Ok(Action::Resume)));
    assert!(matches!(
        debugger.on_event(Event::Reached { context: None, pc: 400 }),
        Ok(Action::Report(_))
    ));
}

#[test]
fn line_client_sends_one_command_at_a_time() {
    let mut client = Client::new();
    assert_eq!(client.cmd(&Command::Version), Ok("{\"version\":null}\n".to_string()));
    assert_eq!(client.cmd(&Command::Continue), Err(ProtocolError::OutOfTurn));
    assert_eq!(
        client.reply("{\"version\":{\"core\":\"0.1.0\"}}\n"),
        Ok(Response::Version { core: "0.1.0".to_string() })
    );
    assert_eq!(client.reply("{\"ok\":null}\n"), Err(Fault::Protocol(ProtocolError::OutOfTurn)));
    assert_eq!(client.cmd(&Command::Continue), Ok("{\"continue\":null}\n".to_string()));
}

#[test]
fn line_client_reports_faults_of_the_line() {
    let mut client = Client::new();
    client.cmd(&Command::ReadRegisters).unwrap();
    assert_eq!(client.reply(""), Err(Fault::Transport(TransportError::ConnectionClosed)));
    client.cmd(&Command::ReadRegisters).unwrap();
    assert_eq!(client.reply("{\"ok\":null}"), Err(Fault::Protocol(ProtocolError::Unterminated)));
    client.cmd(&Command::ReadRegisters).unwrap();
    assert_eq!(client.reply("{\"ok\":nil}\n"), Err(Fault::Protocol(ProtocolError::Undecodable)));
    client.cmd(&Command::ReadRegisters).unwrap();
    assert_eq!(client.reply("{\"read-registers\":[1,2]}\n"), Ok(Response::Registers(vec![1, 2])));
}

#[test]
fn replies_of_another_kind_are_unexpected() {
    assert_eq!(registers_told(Response::Registers(vec![1])), Ok(vec![1]));
    assert_eq!(registers_told(Response::Memory(vec![1])), Err(ProtocolError::UnexpectedReply));
    assert_eq!(registers_told(Response::Done), Err(ProtocolError::UnexpectedReply));
    assert_eq!(memory_told(Response::Memory(vec![1])), Ok(vec![1]));
    assert_eq!(memory_told(Response::Registers(vec![1])), Err(ProtocolError::UnexpectedReply));
}

#[test]
fn connection_answers_in_order() {
    let machine = machine();
    let mut connection = Connection::open();
    assert_eq!(
        connection.receive("{\"version\":null}\n", &machine),
        Ok((Some("{\"version\":{\"core\":\"0.11.1\"}}\n".to_string()), ControlFlow::Debugger))
    );
    assert_eq!(
        connection.receive("{\"single-stepping\":true}\n", &machine),
        Ok((Some("{\"ok\":null}\n".to_string()), ControlFlow::Debugger))
    );
    assert_eq!(
        connection.receive("{\"read-memory\":{\"start\":1,\"len\":2}}\n", &machine),
        Ok((Some("{\"read-memory\":[1,2]}\n".to_string()), ControlFlow::Debugger))
    );
    assert_eq!(
        connection.receive("{\"read-memory\":{\"start\":1024,\"len\":1}}\n", &machine),
        Err(Fault::Range(RangeError::Memory { start: 1024, len: 1 }))
    );
    assert_eq!(connection.flow(), ControlFlow::Debugger);
    assert_eq!(connection.receive("{\"continue\":null}\n", &machine), Ok((None, ControlFlow::Proceed)));
    assert_eq!(
        connection.receive("{\"version\":null}\n", &machine),
        Err(Fault::Protocol(ProtocolError::OutOfTurn))
    );
    assert_eq!(
        connection.report(Event::Reached { context: None, pc: 4 }),
        Ok(Some("{\"breakpoint\":{\"contract\":[],\"pc\":4}}\n".to_string()))
    );
    assert_eq!(connection.flow(), ControlFlow::Debugger);
}

#[test]
fn a_malformed_line_ends_the_connection() {
    let machine = machine();
    let mut connection = Connection::open();
    assert_eq!(
        connection.receive("{\"version\":null\n", &machine),
        Err(Fault::Protocol(ProtocolError::Undecodable))
    );
    assert_eq!(connection.flow(), ControlFlow::Terminate);
    assert_eq!(
        connection.receive("{\"version\":null}\n", &machine),
        Err(Fault::Session(SessionError::NoSession))
    );
    let mut connection = Connection::open();
    assert_eq!(
        connection.receive("{\"version\":null}", &machine),
        Err(Fault::Protocol(ProtocolError::Unterminated))
    );
    assert_eq!(connection.flow(), ControlFlow::Terminate);
    let mut connection = Connection::open();
    assert_eq!(
        connection.receive("", &machine),
        Err(Fault::Transport(TransportError::ConnectionClosed))
    );
    assert_eq!(connection.flow(), ControlFlow::Terminate);
    let mut connection = Connection::open();
    connection.close();
    assert_eq!(connection.flow(), ControlFlow::Terminate);
}

#[test]
fn breakpoint_at_the_start_then_continue_to_the_end() {
    let machine = machine();
    let mut client = Client::new();
    let mut connection = Connection::open();
    let set = client.cmd(&Command::SetBreakpoint(Breakpoint::script(0))).unwrap();
    let (answer, _) = connection.receive(&set, &machine).unwrap();
    assert_eq!(client.reply(&answer.unwrap()), Ok(Response::Done));
    let go = client.cmd(&Command::Continue).unwrap();
    assert_eq!(connection.receive(&go, &machine), Ok((None, ControlFlow::Proceed)));
    let line = connection.report(Event::Reached { context: None, pc: 0 }).unwrap().unwrap();
    assert_eq!(
        client.reply(&line),
        Ok(Response::Breakpoint(Breakpoint { target: Target::Script, pc: 0 }))
    );
    let go = client.cmd(&Command::Continue).unwrap();
    assert_eq!(connection.receive(&go, &machine), Ok((None, ControlFlow::Proceed)));
    assert_eq!(connection.report(Event::Reached { context: None, pc: 4 }), Ok(None));
    assert_eq!(connection.report(Event::Reached { context: None, pc: 8 }), Ok(None));
    let receipts = vec!["{\"ScriptResult\":{\"result\":0,\"gas_used\":12}}".to_string()];
    let line = connection.report(Event::Finished { receipts: receipts.clone() }).unwrap().unwrap();
    assert_eq!(line, "{\"terminated\":{\"receipts\":[{\"ScriptResult\":{\"result\":0,\"gas_used\":12}}]}}\n");
    assert_eq!(client.reply(&line), Ok(Response::Terminated { receipts }));
    assert_eq!(connection.flow(), ControlFlow::Debugger);
}

#[test]
fn receipts_that_cannot_be_written_are_reported() {
    let machine = machine();
    let mut connection = Connection::open();
    connection.receive("{\"continue\":null}\n", &machine).unwrap();
    assert_eq!(
        connection.report(Event::Finished { receipts: vec!["[".to_string()] }),
        Err(Fault::Protocol(ProtocolError::Unwritable))
    );
    assert_eq!(connection.flow(), ControlFlow::Debugger);
}
