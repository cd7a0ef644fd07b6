//! The line protocol: one message a line, a command in and at most one
//! response out, in the order of the commands.

use vstd::prelude::*;
use vstd::string::*;

use crate::command::{Command, Response, ResponseView};
use crate::control::{answer_to, what_is_told, Action, ControlFlow, Debugger, Event, Machine};
use crate::error::{Fault, ProtocolError, SessionError, TransportError};
use crate::json::copy_text;
use crate::numeral::chars_of;
use crate::text::push_char;

verus! {

/// A message as a line: its text and a line feed.
pub open spec fn framed(text: Seq<char>) -> Seq<char> {
    text.push('\n')
}

/// The message of a line as it was read from the connection. A line
/// without a character means that the peer has closed the connection; any
/// other line ends with a line feed.
pub open spec fn unframed(line: Seq<char>) -> Result<Seq<char>, Fault> {
    if line.len() == 0 {
        Err(Fault::Transport(TransportError::ConnectionClosed))
    } else if line.last() != '\n' {
        Err(Fault::Protocol(ProtocolError::Unterminated))
    } else {
        Ok(line.drop_last())
    }
}

/// The message of the line that was made of it is the message.
pub proof fn lemma_unframed_framed(text: Seq<char>)
    ensures
        unframed(framed(text)) == Ok::<Seq<char>, Fault>(text),
{
    assert(framed(text).drop_last() =~= text);
}

/// Ends a message with a line feed.
pub fn frame(text: String) -> (line: String)
    ensures
        line@ == framed(text@),
{
    let mut line: String = text;
    push_char(&mut line, '\n');
    line
}

/// Takes the message out of a line.
pub fn unframe(line: &str) -> (r: Result<String, Fault>)
    ensures
        match unframed(line@) {
            Ok(text) => r matches Ok(found) && found@ == text,
            Err(fault) => r == Err::<String, Fault>(fault),
        },
{
    let chars: Vec<char> = chars_of(line);
    let len: usize = chars.len();
    if len == 0 {
        return Err(Fault::Transport(TransportError::ConnectionClosed));
    }
    if chars[len - 1] != '\n' {
        return Err(Fault::Protocol(ProtocolError::Unterminated));
    }
    let text: String = copy_text(&chars, 0, len - 1);
    assert(text@ =~= line@.drop_last());
    Ok(text)
}

/// What a line that was read from the connection tells a client: the fault
/// of the line, or the response that its message carries.
pub open spec fn response_of_line(line: Seq<char>) -> Result<ResponseView, Fault> {
    match unframed(line) {
        Err(fault) => Err(fault),
        Ok(text) => match Response::carried_by(text) {
            Some(response) => Ok(response),
            None => Err(Fault::Protocol(ProtocolError::Undecodable)),
        },
    }
}

/// The client's end of a connection. It sends one command at a time and
/// waits for the answer before the next.
#[derive(Debug)]
pub struct Client {
    awaiting: bool,
}

impl Client {
    /// Whether the answer to a command is due.
    pub closed spec fn awaiting(&self) -> bool {
        self.awaiting
    }

    /// A client that has sent nothing yet.
    pub fn new() -> (client: Client)
        ensures
            !client.awaiting(),
    {
        Client { awaiting: false }
    }

    /// Writes the line that sends a command. No command is sent while the
    /// answer to another is due.
    pub fn cmd(&mut self, cmd: &Command) -> (r: Result<String, ProtocolError>)
        ensures
            old(self).awaiting() ==> (r matches Err(ProtocolError::OutOfTurn)) && final(self).awaiting(),
            !old(self).awaiting() ==> (r matches Ok(line) && line@ == framed(cmd.wire())) && final(self).awaiting(),
    {
        if self.awaiting {
            return Err(ProtocolError::OutOfTurn);
        }
        self.awaiting = true;
        Ok(frame(cmd.encode()))
    }

    /// Reads the line that answers the command sent last.
    pub fn reply(&mut self, line: &str) -> (r: Result<Response, Fault>)
        ensures
            !final(self).awaiting(),
            !old(self).awaiting() ==> r matches Err(Fault::Protocol(ProtocolError::OutOfTurn)),
            old(self).awaiting() ==> match response_of_line(line@) {
                Ok(response) => r matches Ok(told) && told@ == response,
                Err(fault) => r matches Err(raised) && raised == fault,
            },
    {
        if !self.awaiting {
            return Err(Fault::Protocol(ProtocolError::OutOfTurn));
        }
        self.awaiting = false;
        let text: String = match unframe(line) {
            Ok(text) => text,
            Err(fault) => {
                return Err(fault);
            },
        };
        match Response::decode(text.as_str()) {
            Ok(response) => Ok(response),
            Err(fault) => Err(Fault::Protocol(fault)),
        }
    }
}

/// The values of the registers that a response tells, where it answers
/// `ReadRegisters`.
pub fn registers_told(response: Response) -> (r: Result<Vec<u64>, ProtocolError>)
    ensures
        match response {
            Response::Registers(values) => r == Ok::<Vec<u64>, ProtocolError>(values),
            _ => r matches Err(ProtocolError::UnexpectedReply),
        },
{
    match response {
        Response::Registers(values) => Ok(values),
        _ => Err(ProtocolError::UnexpectedReply),
    }
}

/// The bytes of memory that a response tells, where it answers
/// `ReadMemory`.
pub fn memory_told(response: Response) -> (r: Result<Vec<u8>, ProtocolError>)
    ensures
        match response {
            Response::Memory(bytes) => r == Ok::<Vec<u8>, ProtocolError>(bytes),
            _ => r matches Err(ProtocolError::UnexpectedReply),
        },
{
    match response {
        Response::Memory(bytes) => Ok(bytes),
        _ => Err(ProtocolError::UnexpectedReply),
    }
}

/// What a line that was read from the connection asks of the machine: the
/// fault of the line, or the command that its message carries.
pub open spec fn command_of_line(line: Seq<char>) -> Result<Command, Fault> {
    match unframed(line) {
        Err(fault) => Err(fault),
        Ok(text) => match Command::carried_by(text) {
            Some(command) => Ok(command),
            None => Err(Fault::Protocol(ProtocolError::Undecodable)),
        },
    }
}

/// The line that tells a response, if one is told and can be written.
pub open spec fn line_of(answer: Option<ResponseView>) -> Result<Option<Seq<char>>, Fault> {
    match answer {
        None => Ok(None),
        Some(response) => if response.wf() {
            Ok(Some(framed(response.wire())))
        } else {
            Err(Fault::Protocol(ProtocolError::Unwritable))
        },
    }
}

/// The characters of a line, if there is one.
pub open spec fn line_text(line: Option<String>) -> Option<Seq<char>> {
    match line {
        Some(text) => Some(text@),
        None => None,
    }
}

/// Writes the line that tells a response.
fn write_line(answer: Option<Response>) -> (r: Result<Option<String>, Fault>)
    ensures
        match line_of(what_is_told(answer)) {
            Ok(line) => r matches Ok(written) && line_text(written) == line,
            Err(fault) => r == Err::<Option<String>, Fault>(fault),
        },
{
    match answer {
        None => Ok(None),
        Some(response) => match response.encode() {
            Ok(text) => Ok(Some(frame(text))),
            Err(fault) => Err(Fault::Protocol(fault)),
        },
    }
}

/// The machine's end of a connection. The connection is its session.
#[derive(Debug)]
pub struct Connection {
    debugger: Debugger,
}

impl Connection {
    /// The state of run control.
    pub closed spec fn state(&self) -> ControlFlow {
        self.debugger.state()
    }

    /// Whether the machine pauses after every instruction.
    pub closed spec fn stepping(&self) -> bool {
        self.debugger.stepping()
    }

    /// The breakpoint, if one is set.
    pub closed spec fn breakpoint(&self) -> Option<crate::breakpoint::Breakpoint> {
        self.debugger.breakpoint()
    }

    /// A connection that was just made, with run control as new.
    pub fn open() -> (connection: Connection)
        ensures
            connection.state() == ControlFlow::Debugger,
            !connection.stepping(),
            connection.breakpoint() is None,
    {
        Connection { debugger: Debugger::new() }
    }

    /// The state of run control.
    pub fn flow(&self) -> (state: ControlFlow)
        ensures
            state == self.state(),
    {
        self.debugger.flow()
    }

    /// Takes a line from the client and gives the line that answers it, if
    /// the command is answered at once, and what to do next. A line that
    /// carries no command, and the end of the connection, end the session.
    /// A command that cannot be carried out changes nothing.
    pub fn receive(&mut self, line: &str, machine: &Machine) -> (r: Result<
        (Option<String>, ControlFlow),
        Fault,
    >)
        ensures
            old(self).state() == ControlFlow::Terminate ==> (r matches Err(
                Fault::Session(SessionError::NoSession),
            )) && final(self).state() == ControlFlow::Terminate,
            old(self).state() != ControlFlow::Terminate ==> match command_of_line(line@) {
                Err(fault) => r == Err::<(Option<String>, ControlFlow), Fault>(fault) && final(self).state() == ControlFlow::Terminate,
                Ok(command) => if old(self).state() == ControlFlow::Proceed {
                    r == Err::<(Option<String>, ControlFlow), Fault>(
                        Fault::Protocol(ProtocolError::OutOfTurn),
                    ) && final(self).state() == ControlFlow::Proceed
                } else {
                    match answer_to(command, machine.registers(), machine.memory(), machine.version()) {
                        Err(fault) => r == Err::<(Option<String>, ControlFlow), Fault>(fault)
                            && final(self).state() == ControlFlow::Debugger,
                        Ok((answer, flow)) => {
                            &&& final(self).state() == flow
                            &&& r matches Ok((written, next))
                            &&& next == flow
                            &&& Ok::<Option<Seq<char>>, Fault>(line_text(written)) == line_of(answer)
                        },
                    }
                },
            },
    {
        match self.debugger.flow() {
            ControlFlow::Terminate => {
                return Err(Fault::Session(SessionError::NoSession));
            },
            _ => {},
        }
        let text: String = match unframe(line) {
            Ok(text) => text,
            Err(fault) => {
                self.debugger.terminate();
                return Err(fault);
            },
        };
        let command: Command = match Command::decode(text.as_str()) {
            Ok(command) => command,
            Err(fault) => {
                self.debugger.terminate();
                return Err(Fault::Protocol(fault));
            },
        };
        match self.debugger.dispatch(&command, machine) {
            Ok((answer, flow)) => match write_line(answer) {
                Ok(written) => Ok((written, flow)),
                Err(fault) => Err(fault),
            },
            Err(fault) => Err(fault),
        }
    }

    /// Takes what the running machine reports and gives the line that is
    /// due to the client: none while the machine goes on, else the answer
    /// to `Continue`.
    pub fn report(&mut self, event: Event) -> (r: Result<Option<String>, Fault>)
        ensures
            final(self).stepping() == old(self).stepping(),
            final(self).breakpoint() == old(self).breakpoint(),
            old(self).state() != ControlFlow::Proceed ==> (r matches Err(
                Fault::Protocol(ProtocolError::OutOfTurn),
            )) && final(self).state() == old(self).state(),
            old(self).state() == ControlFlow::Proceed ==> match event_answer(
                old(self).stepping(),
                old(self).breakpoint(),
                event,
            ) {
                None => (r matches Ok(None)) && final(self).state() == ControlFlow::Proceed,
                Some(response) => final(self).state() == ControlFlow::Debugger && match line_of(
                    Some(response),
                ) {
                    Ok(line) => r matches Ok(written) && line_text(written) == line,
                    Err(fault) => r == Err::<Option<String>, Fault>(fault),
                },
            },
    {
        match self.debugger.on_event(event) {
            Ok(Action::Resume) => Ok(None),
            Ok(Action::Report(response)) => write_line(Some(response)),
            Err(fault) => Err(fault),
        }
    }

    /// Ends the session when the connection ends.
    pub fn close(&mut self)
        ensures
            final(self).state() == ControlFlow::Terminate,
    {
        self.debugger.terminate();
    }
}

/// What the client is told when the running machine reports an event:
/// nothing while the machine goes on, the place where it pauses, or the
/// receipts of the program that ended.
pub open spec fn event_answer(
    stepping: bool,
    breakpoint: Option<crate::breakpoint::Breakpoint>,
    event: Event,
) -> Option<ResponseView> {
    match event {
        Event::Reached { context, pc } => if crate::control::pauses(stepping, breakpoint, context, pc) {
            Some(
                ResponseView::Breakpoint(
                    crate::breakpoint::Breakpoint { target: crate::breakpoint::target_of(context), pc },
                ),
            )
        } else {
            None
        },
        Event::Finished { receipts } => Some(
            ResponseView::Terminated { receipts: receipts.deep_view() },
        ),
    }
}

/// The line that sends a command is read as that command.
pub proof fn lemma_command_line_round_trip(command: Command)
    ensures
        command_of_line(framed(command.wire())) == Ok::<Command, Fault>(command),
{
    lemma_unframed_framed(command.wire());
    crate::wire::lemma_command_round_trip(command);
}

/// The line that tells a response is read as that response.
pub proof fn lemma_response_line_round_trip(response: ResponseView)
    requires
        response.wf(),
    ensures
        response_of_line(framed(response.wire())) == Ok::<ResponseView, Fault>(response),
{
    lemma_unframed_framed(response.wire());
    crate::wire::lemma_response_round_trip(response);
}

/// The line of a command holds one line feed, at its end: a reader that
/// takes the characters up to the first line feed takes the whole line.
pub proof fn lemma_command_line_ends_at_line_feed(command: Command)
    ensures
        framed(command.wire()).last() == '\n',
        crate::json::on_one_line(framed(command.wire()).drop_last()),
{
    crate::wire::lemma_command_on_one_line(command);
    assert(framed(command.wire()).drop_last() =~= command.wire());
}

/// The line of a response holds one line feed, at its end.
pub proof fn lemma_response_line_ends_at_line_feed(response: ResponseView)
    requires
        response.wf(),
    ensures
        framed(response.wire()).last() == '\n',
        crate::json::on_one_line(framed(response.wire()).drop_last()),
{
    crate::wire::lemma_response_on_one_line(response);
    assert(framed(response.wire()).drop_last() =~= response.wire());
}

} // verus!
