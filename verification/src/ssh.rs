//! SSH session decisions: connection parameters, host-key trust on first
//! use, the order in which authentication methods are tried, and the
//! collection of a one-shot command's output and exit status.

use vstd::prelude::*;
use crate::text::{lossy_text, utf8_lossy};

verus! {

/// Where and as whom to connect.
pub struct SshConfig {
    pub host: String,
    pub port: u16,
    pub user: String,
    pub password: Option<String>,
}

/// The port used when a saved configuration gives none.
pub fn default_port() -> (p: u16)
    ensures
        p == 22,
{
    22
}

/// What the known-hosts file says about the key a server presented.
pub enum KnownHostCheck {
    /// The host is listed and the key matches.
    Matches,
    /// The host is not listed.
    Unknown,
    /// The host is listed with another key (or the file could not be read).
    Changed,
}

/// Whether to accept a server key, and whether to remember it.
pub struct HostKeyVerdict {
    pub accept: bool,
    pub learn: bool,
}

/// Trust on first use: a known matching key is accepted, an unknown host is
/// accepted and learned, a changed key is rejected.
pub fn host_key_verdict(check: KnownHostCheck) -> (v: HostKeyVerdict)
    ensures
        v.accept == !(check is Changed),
        v.learn == (check is Unknown),
{
    match check {
        KnownHostCheck::Matches => HostKeyVerdict { accept: true, learn: false },
        KnownHostCheck::Unknown => HostKeyVerdict { accept: true, learn: true },
        KnownHostCheck::Changed => HostKeyVerdict { accept: false, learn: false },
    }
}

/// One authentication attempt.
pub enum AuthAttempt {
    /// The agent's identity at this index.
    AgentKey(usize),
    /// The configured password.
    Password,
}

/// The attempts, in order, until one succeeds: every identity the agent
/// offers, then the password if there is one.
pub fn auth_plan(agent_keys: usize, has_password: bool) -> (plan: Vec<AuthAttempt>)
    requires
        agent_keys < usize::MAX,
    ensures
        plan@.len() == agent_keys + (if has_password {
            1int
        } else {
            0int
        }),
        forall|i: int| 0 <= i < agent_keys ==> #[trigger] plan@[i] == AuthAttempt::AgentKey(i as usize),
        has_password ==> plan@[agent_keys as int] == AuthAttempt::Password,
{
    let mut plan: Vec<AuthAttempt> = Vec::new();
    let mut i: usize = 0;
    while i < agent_keys
        invariant
            i <= agent_keys,
            plan@.len() == i,
            forall|j: int| 0 <= j < i ==> #[trigger] plan@[j] == AuthAttempt::AgentKey(j as usize),
        decreases agent_keys - i,
    {
        plan.push(AuthAttempt::AgentKey(i));
        i = i + 1;
    }
    if has_password {
        plan.push(AuthAttempt::Password);
    }
    plan
}

/// What an interactive shell session hears: a request from the terminal,
/// or a message from the SSH channel.
pub enum ShellEvent {
    /// Keystrokes to send.
    Input(Vec<u8>),
    /// The terminal was resized to (columns, rows).
    Resize(u16, u16),
    /// The terminal closed the session.
    CloseRequested,
    /// The terminal side is gone.
    TerminalGone,
    /// Output from the remote shell.
    Output(Vec<u8>),
    /// Error output from the remote shell.
    ErrorOutput(Vec<u8>),
    /// The remote side sent end-of-file.
    Eof,
    /// The remote side closed the channel.
    Closed,
    /// The channel is gone.
    Ended,
    /// Anything else from the channel.
    Other,
}

/// What the session does about an event.
pub enum ShellAction {
    /// Send these bytes to the remote shell.
    Send(Vec<u8>),
    /// Tell the server the new window size (columns, rows).
    WindowChange(u16, u16),
    /// Pass these bytes to the terminal (and stop if it is gone).
    Forward(Vec<u8>),
    /// Send end-of-file on the channel, then end the session.
    SendEofAndStop,
    /// End the session.
    Stop,
    /// Nothing to do.
    Ignore,
}

/// The shell session's decision: input goes to the channel, output (and
/// error output) to the terminal; a close request or a vanished terminal
/// sends EOF and ends the session; EOF, close or loss of the channel ends it.
pub fn shell_step(ev: ShellEvent) -> (a: ShellAction)
    ensures
        match ev {
            ShellEvent::Input(d) => a matches ShellAction::Send(x) && x@ == d@,
            ShellEvent::Resize(c, r) => a matches ShellAction::WindowChange(c2, r2) && c2 == c && r2
                == r,
            ShellEvent::CloseRequested | ShellEvent::TerminalGone => a is SendEofAndStop,
            ShellEvent::Output(d) => a matches ShellAction::Forward(x) && x@ == d@,
            ShellEvent::ErrorOutput(d) => a matches ShellAction::Forward(x) && x@ == d@,
            ShellEvent::Eof | ShellEvent::Closed | ShellEvent::Ended => a is Stop,
            ShellEvent::Other => a is Ignore,
        },
{
    match ev {
        ShellEvent::Input(d) => ShellAction::Send(d),
        ShellEvent::Resize(c, r) => ShellAction::WindowChange(c, r),
        ShellEvent::CloseRequested | ShellEvent::TerminalGone => ShellAction::SendEofAndStop,
        ShellEvent::Output(d) => ShellAction::Forward(d),
        ShellEvent::ErrorOutput(d) => ShellAction::Forward(d),
        ShellEvent::Eof | ShellEvent::Closed | ShellEvent::Ended => ShellAction::Stop,
        ShellEvent::Other => ShellAction::Ignore,
    }
}

/// What a command's channel delivers.
pub enum ExecEvent {
    Data(Vec<u8>),
    ExtendedData(Vec<u8>),
    ExitStatus(u32),
    Eof,
    Close,
    /// The channel is gone.
    Ended,
    /// Anything else (window adjustments, success replies, ...).
    Other,
}

/// The output (stdout and stderr, interleaved as they arrive) and the exit
/// status of a one-shot command.
pub struct ExecCapture {
    pub output: Vec<u8>,
    pub exit_code: u32,
}

/// The capture after one event, and whether to keep listening.
pub open spec fn exec_step(output: Seq<u8>, code: u32, ev: ExecEvent) -> (Seq<u8>, u32, bool) {
    match ev {
        ExecEvent::Data(d) => (output + d@, code, true),
        ExecEvent::ExtendedData(d) => (output + d@, code, true),
        ExecEvent::ExitStatus(c) => (output, c, true),
        ExecEvent::Eof | ExecEvent::Close | ExecEvent::Ended => (output, code, false),
        ExecEvent::Other => (output, code, true),
    }
}

/// The capture only grows: data and error output are appended to what was
/// captured before, in arrival order, and keep the capture going; an exit
/// status replaces the code and leaves the output alone; end-of-file, close
/// and loss of the channel end it without touching either.
pub proof fn lemma_capture_appends(output: Seq<u8>, code: u32, ev: ExecEvent)
    ensures
        ({
            let (out2, code2, more) = exec_step(output, code, ev);
            &&& out2.len() >= output.len()
            &&& out2.subrange(0, output.len() as int) == output
            &&& match ev {
                ExecEvent::Data(d) => out2 == output + d@ && code2 == code && more,
                ExecEvent::ExtendedData(d) => out2 == output + d@ && code2 == code && more,
                ExecEvent::ExitStatus(c) => out2 == output && code2 == c && more,
                ExecEvent::Other => out2 == output && code2 == code && more,
                _ => out2 == output && code2 == code && !more,
            }
        }),
{
    let (out2, code2, more) = exec_step(output, code, ev);
    assert(out2.subrange(0, output.len() as int) =~= output);
}

/// The payload bytes an event carries: the data of a `Data` or
/// `ExtendedData` event, nothing for the others.
pub open spec fn event_payload(ev: ExecEvent) -> Seq<u8> {
    match ev {
        ExecEvent::Data(d) => d@,
        ExecEvent::ExtendedData(d) => d@,
        _ => Seq::empty(),
    }
}

/// All payload bytes of a stream of events, concatenated in arrival order.
pub open spec fn payloads(events: Seq<ExecEvent>) -> Seq<u8>
    decreases events.len(),
{
    if events.len() == 0 {
        Seq::empty()
    } else {
        payloads(events.drop_last()) + event_payload(events.last())
    }
}

/// The capture (output, exit code) after a fresh start and the given events.
pub open spec fn exec_run(events: Seq<ExecEvent>) -> (Seq<u8>, u32)
    decreases events.len(),
{
    if events.len() == 0 {
        (Seq::empty(), 0)
    } else {
        let (o, c) = exec_run(events.drop_last());
        let (o2, c2, _more) = exec_step(o, c, events.last());
        (o2, c2)
    }
}

/// A fresh capture fed a stream of events holds exactly the concatenation of
/// every data and error-output payload, in arrival order: no chunk is lost,
/// replaced or reordered.
pub proof fn lemma_capture_concatenates(events: Seq<ExecEvent>)
    ensures
        exec_run(events).0 == payloads(events),
    decreases events.len(),
{
    if events.len() > 0 {
        lemma_capture_concatenates(events.drop_last());
        let (o, c) = exec_run(events.drop_last());
        match events.last() {
            ExecEvent::Data(d) => {},
            ExecEvent::ExtendedData(d) => {},
            _ => {
                assert(o + Seq::<u8>::empty() =~= o);
            },
        }
    }
}

impl ExecCapture {
    /// Nothing received yet; the exit status is 0 until the server reports one.
    pub fn new() -> (c: Self)
        ensures
            c.output@ == Seq::<u8>::empty(),
            c.exit_code == 0,
    {
        ExecCapture { output: Vec::new(), exit_code: 0 }
    }

    /// Takes one event; returns whether more are to be awaited.
    pub fn on_event(&mut self, ev: ExecEvent) -> (more: bool)
        ensures
            exec_step(old(self).output@, old(self).exit_code, ev) == (
                final(self).output@,
                final(self).exit_code,
                more,
            ),
    {
        match ev {
            ExecEvent::Data(d) => {
                let mut d = d;
                self.output.append(&mut d);
                true
            },
            ExecEvent::ExtendedData(d) => {
                let mut d = d;
                self.output.append(&mut d);
                true
            },
            ExecEvent::ExitStatus(c) => {
                self.exit_code = c;
                true
            },
            ExecEvent::Eof | ExecEvent::Close | ExecEvent::Ended => false,
            ExecEvent::Other => true,
        }
    }

    /// The captured output as text (lossy UTF-8) and the exit status.
    pub fn finish(self) -> (r: (String, u32))
        ensures
            r.0@ == utf8_lossy(self.output@),
            r.1 == self.exit_code,
    {
        (lossy_text(self.output.as_slice()), self.exit_code)
    }
}

} // verus!
