//! The ingress session: the state machine that one SMTP connection runs
//! through, from the greeting to the end.
//!
//! The session decides; a driver outside performs. The driver reads a line,
//! hands it to the session and does what the session answers: it sends a
//! reply, or it calls a hook and hands the hook's verdict back. In the same
//! way it stores an accepted message and reports how that went.

use vstd::prelude::*;
use vstd::string::StringSliceAdditionalSpecFns;
use crate::command::{
    Command, Domain, EsmtpParameter, ForwardPath, ReversePath, params_view, texts_of,
};
use crate::grammar::{CommandView, command_of};
use crate::logging::{EnhancedStatusCode, LogDisposition, RecordType, Response, local_record};
use crate::message::{Message, SpoolId};
use crate::reply::{Reply, enhanced_text};
use crate::wire::{forward_path_wire, reverse_path_wire};

verus! {

/// The longest command line, in octets, without its CRLF.
pub const MAX_COMMAND_LINE: usize = 998;

/// Where a session stands.
#[derive(Debug, Clone, Copy, PartialEq, Eq, Structural)]
pub enum SessionState {
    /// No envelope is pending.
    Greeted,
    /// A sender has been accepted.
    HaveSender,
    /// A sender and at least one recipient have been accepted.
    HaveRecipient,
    /// The body is being read.
    Data,
    /// The session is over.
    Closed,
}

/// What the session waits for from its driver before it reads on.
#[derive(Debug, Clone, Copy, PartialEq, Eq, Structural)]
pub enum Waiting {
    Nothing,
    /// The verdict of the hook on the sender in `candidate_sender`.
    MailFromHook,
    /// The verdict of the hook on the recipient in `candidate_recipient`.
    RcptToHook,
    /// The verdict of the hook on the message that was received.
    MessageReceivedHook,
    /// Whether the message was stored.
    Spool,
}

/// A rejection by a hook: a code, an enhanced status code if the hook gave
/// one, and a text. They go to the client as they are.
#[derive(Debug, Clone, PartialEq, Eq)]
pub struct RejectError {
    pub code: u16,
    pub enhanced_code: Option<EnhancedStatusCode>,
    pub message: String,
}

/// What a hook said.
#[derive(Debug, Clone, PartialEq, Eq)]
pub enum HookVerdict {
    Accept,
    Reject(RejectError),
    /// The hook failed or did not answer in time. That is a transient
    /// failure: the client may try again.
    Failed,
}

/// What a verdict other than acceptance says to the client: the
/// rejection as the hook gave it, or `451 4.3.0 temporary failure` for a
/// hook that failed.
pub open spec fn refusal_is(r: Reply, verdict: HookVerdict) -> bool {
    match verdict {
        HookVerdict::Accept => false,
        HookVerdict::Reject(e) => r.is(
            e.code,
            match e.enhanced_code {
                Some(c) => enhanced_text(c) + seq![' '] + e.message@,
                None => e.message@,
            },
        ),
        HookVerdict::Failed => r.is(451, "4.3.0 temporary failure"@),
    }
}

/// What a verdict other than acceptance says to the client.
pub fn refusal(verdict: HookVerdict) -> (r: Reply)
    requires
        !(verdict is Accept),
    ensures
        refusal_is(r, verdict),
{
    match verdict {
        HookVerdict::Reject(e) => {
            let text = match e.enhanced_code {
                Some(c) => {
                    proof {
                        reveal_strlit(" ");
                    }
                    let mut text = c.to_text();
                    text.append(" ");
                    text.append(e.message.as_str());
                    assert(text@ =~= enhanced_text(c) + seq![' '] + e.message@);
                    text
                },
                None => e.message,
            };
            let mut lines: Vec<String> = Vec::new();
            lines.push(text);
            Reply { code: e.code, lines }
        },
        _ => Reply::single(451, "4.3.0 temporary failure"),
    }
}

/// Which of the commands that need no state the server answers.
#[derive(Debug, Clone, Copy, PartialEq, Eq, Structural)]
pub struct SessionOptions {
    pub vrfy: bool,
    pub expn: bool,
    pub help: bool,
    pub noop: bool,
}

/// What the driver is to do after a command line.
#[derive(Debug, Clone, PartialEq, Eq)]
pub enum Action {
    /// Send the reply and read the next line.
    Reply(Reply),
    /// Send the reply and close the connection.
    Close(Reply),
    /// Call the hook on the sender in `candidate_sender`, and hand its
    /// verdict to `hook_verdict`.
    MailFromHook,
    /// Call the hook on the recipient in `candidate_recipient`, and hand
    /// its verdict to `hook_verdict`.
    RcptToHook,
}

/// What a line of the body was.
#[derive(Debug, Clone, Copy, PartialEq, Eq, Structural)]
pub enum DataStep {
    /// A line of the body: read on.
    More,
    /// The line that ends the body.
    End,
}

/// One SMTP session: where it stands, and the envelope it has gathered.
pub struct Session {
    pub state: SessionState,
    pub waiting: Waiting,
    pub hostname: String,
    /// What the server announces after `EHLO`, one keyword per line.
    pub capabilities: Vec<String>,
    pub options: SessionOptions,
    pub helo: Option<Domain>,
    pub sender: Option<ReversePath>,
    pub sender_parameters: Vec<EsmtpParameter>,
    pub recipients: Vec<ForwardPath>,
    pub candidate_sender: Option<ReversePath>,
    pub candidate_recipient: Option<ForwardPath>,
    pub candidate_parameters: Vec<EsmtpParameter>,
    pub body: Vec<u8>,
}

/// The line that ends a body: a dot and CRLF.
pub open spec fn is_terminator(line: Seq<u8>) -> bool {
    line == seq![46u8, 13u8, 10u8]
}

/// What a line contributes to the body: the line without the dot that was
/// put before its leading dot.
pub open spec fn unstuffed(line: Seq<u8>) -> Seq<u8> {
    if line.len() > 0 && line[0] == 46 {
        line.skip(1)
    } else {
        line
    }
}

/// The wire forms of a list of forward paths.
pub open spec fn recipient_texts(v: Seq<ForwardPath>) -> Seq<Seq<char>> {
    v.map_values(|p: ForwardPath| forward_path_wire(p@))
}

impl Session {
    /// The session's invariant: the envelope is as far as the state says,
    /// and the session waits only for what its state can bring.
    pub open spec fn wf(&self) -> bool {
        &&& self.state is Greeted ==> self.envelope_is_empty()
        &&& self.state is HaveSender ==> self.sender is Some && self.recipients@.len() == 0
            && self.body@.len() == 0
        &&& self.state is HaveRecipient ==> self.sender is Some && self.recipients@.len() > 0
            && self.body@.len() == 0
        &&& self.state is Data ==> self.sender is Some && self.recipients@.len() > 0
        &&& self.state is Closed ==> self.waiting is Nothing
        &&& self.waiting is MailFromHook ==> self.state is Greeted && self.candidate_sender is Some
        &&& self.waiting is RcptToHook ==> (self.state is HaveSender || self.state is HaveRecipient)
            && self.candidate_recipient is Some
        &&& self.waiting is MessageReceivedHook || self.waiting is Spool ==> self.state is Data
    }

    /// No envelope is pending.
    pub open spec fn envelope_is_empty(&self) -> bool {
        self.sender is None && self.sender_parameters@.len() == 0 && self.recipients@.len() == 0
            && self.body@.len() == 0
    }

    /// Whether the session reads a command line next.
    pub open spec fn reads_commands(&self) -> bool {
        self.waiting is Nothing && !(self.state is Data) && !(self.state is Closed)
    }

    /// Whether the session reads a line of the body next.
    pub open spec fn reads_body(&self) -> bool {
        self.waiting is Nothing && self.state is Data
    }

    /// The same server and the same greeting as `other`.
    pub open spec fn same_server(&self, other: &Session) -> bool {
        self.hostname == other.hostname && self.capabilities == other.capabilities && self.options
            == other.options
    }

    /// A session that has just been greeted.
    pub fn new(hostname: String, capabilities: Vec<String>, options: SessionOptions) -> (s: Session)
        ensures
            s.wf(),
            s.state is Greeted,
            s.waiting is Nothing,
            s.envelope_is_empty(),
            s.helo is None,
            s.hostname == hostname,
            s.capabilities == capabilities,
            s.options == options,
    {
        Session {
            state: SessionState::Greeted,
            waiting: Waiting::Nothing,
            hostname,
            capabilities,
            options,
            helo: None,
            sender: None,
            sender_parameters: Vec::new(),
            recipients: Vec::new(),
            candidate_sender: None,
            candidate_recipient: None,
            candidate_parameters: Vec::new(),
            body: Vec::new(),
        }
    }

    /// Whether the session reads a command line next.
    pub fn expects_command(&self) -> (r: bool)
        ensures
            r == self.reads_commands(),
    {
        let idle = match self.waiting {
            Waiting::Nothing => true,
            _ => false,
        };
        let reading = match self.state {
            SessionState::Data => false,
            SessionState::Closed => false,
            _ => true,
        };
        idle && reading
    }

    /// Whether the session reads a line of the body next.
    pub fn expects_body(&self) -> (r: bool)
        ensures
            r == self.reads_body(),
    {
        let idle = match self.waiting {
            Waiting::Nothing => true,
            _ => false,
        };
        let reading = match self.state {
            SessionState::Data => true,
            _ => false,
        };
        idle && reading
    }

    /// The greeting of the server: `220 <hostname> ESMTP`.
    pub fn greeting(&self) -> (r: Reply)
        ensures
            r.is(220, self.hostname@ + " ESMTP"@),
    {
        Reply::joined(220, self.hostname.as_str(), " ESMTP")
    }

    /// Discards the pending envelope.
    fn reset(&mut self)
        ensures
            final(self).state is Greeted,
            final(self).waiting is Nothing,
            final(self).envelope_is_empty(),
            final(self).wf(),
            final(self).same_server(old(self)),
            final(self).helo == old(self).helo,
    {
        self.state = SessionState::Greeted;
        self.waiting = Waiting::Nothing;
        self.sender = None;
        self.sender_parameters = Vec::new();
        self.recipients = Vec::new();
        self.candidate_sender = None;
        self.candidate_recipient = None;
        self.candidate_parameters = Vec::new();
        self.body = Vec::new();
    }

    /// The answer to `EHLO`: the host name, the capabilities, and `HELP` last.
    fn capability_reply(&self) -> (r: Reply)
        ensures
            r.code == 250,
            r.lines@.len() == self.capabilities@.len() + 2,
            r.lines@[0]@ == self.hostname@,
            forall|i: int|
                0 <= i < self.capabilities@.len() ==> (#[trigger] r.lines@[i + 1])@
                    == self.capabilities@[i]@,
            r.lines@[r.lines@.len() - 1]@ == "HELP"@,
    {
        let mut lines: Vec<String> = Vec::new();
        lines.push(self.hostname.clone());
        let mut i: usize = 0;
        while i < self.capabilities.len()
            invariant
                i <= self.capabilities@.len(),
                lines@.len() == i + 1,
                lines@[0]@ == self.hostname@,
                forall|j: int| 0 <= j < i ==> (#[trigger] lines@[j + 1])@ == self.capabilities@[j]@,
            decreases self.capabilities@.len() - i,
        {
            lines.push(self.capabilities[i].clone());
            i += 1;
        }
        lines.push(String::from_str("HELP"));
        Reply { code: 250, lines }
    }

    /// The answer to a command that needs no state.
    fn stateless_reply(enabled: bool) -> (r: Reply)
        ensures
            enabled ==> r.is(250, "2.0.0 OK"@),
            !enabled ==> r.is(502, "5.5.1 command disabled"@),
    {
        if enabled {
            Reply::single(250, "2.0.0 OK")
        } else {
            Reply::single(502, "5.5.1 command disabled")
        }
    }

    /// Takes one command line, without its CRLF, and says what is to be done.
    ///
    /// A line that is too long or is no command is answered with 500 and
    /// changes nothing. `EHLO` and `HELO` discard the pending envelope, and
    /// so does `RSET`. `MAIL FROM` is taken up when no envelope is pending,
    /// `RCPT TO` once there is a sender, each subject to its hook; out of
    /// turn they are answered with 503. `DATA` opens the body when there is
    /// a recipient, and is answered with 554 when there is none. `QUIT`
    /// closes the session. The other commands need no state.
    pub fn on_line(&mut self, line: &str) -> (action: Action)
        requires
            old(self).wf(),
            old(self).reads_commands(),
        ensures
            final(self).wf(),
            final(self).same_server(old(self)),
            if line.spec_bytes().len() > MAX_COMMAND_LINE {
                &&& *final(self) == *old(self)
                &&& match action {
                    Action::Reply(r) => r.is(500, "5.5.2 line too long"@),
                    _ => false,
                }
            } else {
                match command_of(line@) {
                    None => {
                        &&& *final(self) == *old(self)
                        &&& match action {
                            Action::Reply(r) => r.is(500, "5.5.2 syntax error"@),
                            _ => false,
                        }
                    },
                    Some(CommandView::Ehlo(d)) => {
                        &&& final(self).state is Greeted
                        &&& final(self).waiting is Nothing
                        &&& final(self).envelope_is_empty()
                        &&& final(self).helo is Some && final(self).helo.unwrap()@ == d
                        &&& match action {
                            Action::Reply(r) => {
                                &&& r.code == 250
                                &&& r.lines@.len() == old(self).capabilities@.len() + 2
                                &&& r.lines@[0]@ == old(self).hostname@
                                &&& forall|i: int|
                                    0 <= i < old(self).capabilities@.len() ==> (
                                    #[trigger] r.lines@[i + 1])@ == old(self).capabilities@[i]@
                                &&& r.lines@[r.lines@.len() - 1]@ == "HELP"@
                            },
                            _ => false,
                        }
                    },
                    Some(CommandView::Helo(d)) => {
                        &&& final(self).state is Greeted
                        &&& final(self).waiting is Nothing
                        &&& final(self).envelope_is_empty()
                        &&& final(self).helo is Some && final(self).helo.unwrap()@ == d
                        &&& match action {
                            Action::Reply(r) => r.is(250, old(self).hostname@),
                            _ => false,
                        }
                    },
                    Some(CommandView::MailFrom { address, parameters }) => if old(self).state
                        is Greeted {
                        &&& action is MailFromHook
                        &&& final(self).state is Greeted
                        &&& final(self).waiting is MailFromHook
                        &&& final(self).envelope_is_empty()
                        &&& final(self).helo == old(self).helo
                        &&& final(self).candidate_sender.unwrap()@ == address
                        &&& params_view(final(self).candidate_parameters@) == parameters
                    } else {
                        &&& *final(self) == *old(self)
                        &&& match action {
                            Action::Reply(r) => r.is(503, "5.5.1 bad sequence of commands"@),
                            _ => false,
                        }
                    },
                    Some(CommandView::RcptTo { address, parameters }) => if old(self).state
                        is Greeted {
                        &&& *final(self) == *old(self)
                        &&& match action {
                            Action::Reply(r) => r.is(503, "5.5.1 bad sequence of commands"@),
                            _ => false,
                        }
                    } else {
                        &&& action is RcptToHook
                        &&& final(self).state == old(self).state
                        &&& final(self).waiting is RcptToHook
                        &&& final(self).helo == old(self).helo
                        &&& final(self).sender == old(self).sender
                        &&& final(self).sender_parameters == old(self).sender_parameters
                        &&& final(self).recipients == old(self).recipients
                        &&& final(self).candidate_recipient.unwrap()@ == address
                        &&& params_view(final(self).candidate_parameters@) == parameters
                    },
                    Some(CommandView::Data) => if old(self).recipients@.len() == 0 {
                        &&& *final(self) == *old(self)
                        &&& match action {
                            Action::Reply(r) => r.is(554, "5.5.1 no valid recipients"@),
                            _ => false,
                        }
                    } else {
                        &&& final(self).state is Data
                        &&& final(self).waiting is Nothing
                        &&& final(self).helo == old(self).helo
                        &&& final(self).sender == old(self).sender
                        &&& final(self).sender_parameters == old(self).sender_parameters
                        &&& final(self).recipients == old(self).recipients
                        &&& final(self).body@.len() == 0
                        &&& match action {
                            Action::Reply(r) => r.is(354, "go ahead"@),
                            _ => false,
                        }
                    },
                    Some(CommandView::Rset) => {
                        &&& final(self).state is Greeted
                        &&& final(self).waiting is Nothing
                        &&& final(self).envelope_is_empty()
                        &&& final(self).helo == old(self).helo
                        &&& match action {
                            Action::Reply(r) => r.is(250, "2.0.0 OK"@),
                            _ => false,
                        }
                    },
                    Some(CommandView::Quit) => {
                        &&& final(self).state is Closed
                        &&& final(self).waiting is Nothing
                        &&& match action {
                            Action::Close(r) => r.is(221, "2.0.0 bye"@),
                            _ => false,
                        }
                    },
                    Some(CommandView::Vrfy(_)) => {
                        &&& *final(self) == *old(self)
                        &&& match action {
                            Action::Reply(r) => if old(self).options.vrfy {
                                r.is(250, "2.0.0 OK"@)
                            } else {
                                r.is(502, "5.5.1 command disabled"@)
                            },
                            _ => false,
                        }
                    },
                    Some(CommandView::Expn(_)) => {
                        &&& *final(self) == *old(self)
                        &&& match action {
                            Action::Reply(r) => if old(self).options.expn {
                                r.is(250, "2.0.0 OK"@)
                            } else {
                                r.is(502, "5.5.1 command disabled"@)
                            },
                            _ => false,
                        }
                    },
                    Some(CommandView::Help(_)) => {
                        &&& *final(self) == *old(self)
                        &&& match action {
                            Action::Reply(r) => if old(self).options.help {
                                r.is(250, "2.0.0 OK"@)
                            } else {
                                r.is(502, "5.5.1 command disabled"@)
                            },
                            _ => false,
                        }
                    },
                    Some(CommandView::Noop(_)) => {
                        &&& *final(self) == *old(self)
                        &&& match action {
                            Action::Reply(r) => if old(self).options.noop {
                                r.is(250, "2.0.0 OK"@)
                            } else {
                                r.is(502, "5.5.1 command disabled"@)
                            },
                            _ => false,
                        }
                    },
                }
            },
    {
        if line.as_bytes().len() > MAX_COMMAND_LINE {
            return Action::Reply(Reply::single(500, "5.5.2 line too long"));
        }
        let command = match Command::parse(line) {
            Ok(c) => c,
            Err(_) => {
                return Action::Reply(Reply::single(500, "5.5.2 syntax error"));
            },
        };
        match command {
            Command::Ehlo(d) => {
                let r = self.capability_reply();
                self.reset();
                self.helo = Some(d);
                Action::Reply(r)
            },
            Command::Helo(d) => {
                let r = Reply::single(250, self.hostname.as_str());
                self.reset();
                self.helo = Some(d);
                Action::Reply(r)
            },
            Command::MailFrom { address, parameters } => {
                match self.state {
                    SessionState::Greeted => {
                        self.candidate_sender = Some(address);
                        self.candidate_parameters = parameters;
                        self.waiting = Waiting::MailFromHook;
                        Action::MailFromHook
                    },
                    _ => Action::Reply(Reply::single(503, "5.5.1 bad sequence of commands")),
                }
            },
            Command::RcptTo { address, parameters } => {
                match self.state {
                    SessionState::Greeted => Action::Reply(
                        Reply::single(503, "5.5.1 bad sequence of commands"),
                    ),
                    _ => {
                        self.candidate_recipient = Some(address);
                        self.candidate_parameters = parameters;
                        self.waiting = Waiting::RcptToHook;
                        Action::RcptToHook
                    },
                }
            },
            Command::Data => {
                if self.recipients.len() == 0 {
                    Action::Reply(Reply::single(554, "5.5.1 no valid recipients"))
                } else {
                    self.state = SessionState::Data;
                    self.body = Vec::new();
                    Action::Reply(Reply::single(354, "go ahead"))
                }
            },
            Command::Rset => {
                self.reset();
                Action::Reply(Reply::single(250, "2.0.0 OK"))
            },
            Command::Quit => {
                self.state = SessionState::Closed;
                self.waiting = Waiting::Nothing;
                Action::Close(Reply::single(221, "2.0.0 bye"))
            },
            Command::Vrfy(_) => Action::Reply(Self::stateless_reply(self.options.vrfy)),
            Command::Expn(_) => Action::Reply(Self::stateless_reply(self.options.expn)),
            Command::Help(_) => Action::Reply(Self::stateless_reply(self.options.help)),
            Command::Noop(_) => Action::Reply(Self::stateless_reply(self.options.noop)),
        }
    }

    /// Takes the verdict of the hook that the last command called for.
    ///
    /// An accepted sender opens the envelope, with `250 2.1.0 OK`; an
    /// accepted recipient joins it, with `250 2.1.5 OK`. A rejection goes
    /// to the client with its code and text, a failure of the hook as a
    /// transient failure, and the session stays where it was before the
    /// command.
    pub fn hook_verdict(&mut self, verdict: HookVerdict) -> (r: Reply)
        requires
            old(self).wf(),
            old(self).waiting is MailFromHook || old(self).waiting is RcptToHook,
        ensures
            final(self).wf(),
            final(self).same_server(old(self)),
            final(self).waiting is Nothing,
            final(self).helo == old(self).helo,
            final(self).body == old(self).body,
            match verdict {
                HookVerdict::Accept => if old(self).waiting is MailFromHook {
                    &&& r.is(250, "2.1.0 OK"@)
                    &&& final(self).state is HaveSender
                    &&& final(self).sender == old(self).candidate_sender
                    &&& final(self).sender_parameters == old(self).candidate_parameters
                    &&& final(self).recipients == old(self).recipients
                } else {
                    &&& r.is(250, "2.1.5 OK"@)
                    &&& final(self).state is HaveRecipient
                    &&& final(self).sender == old(self).sender
                    &&& final(self).recipients@ == old(self).recipients@.push(
                        old(self).candidate_recipient.unwrap(),
                    )
                },
                _ => {
                    &&& refusal_is(r, verdict)
                    &&& final(self).state == old(self).state
                    &&& final(self).sender == old(self).sender
                    &&& final(self).recipients == old(self).recipients
                },
            },
    {
        let for_sender = match self.waiting {
            Waiting::MailFromHook => true,
            _ => false,
        };
        self.waiting = Waiting::Nothing;
        let sender = self.candidate_sender.take();
        let recipient = self.candidate_recipient.take();
        let mut parameters: Vec<EsmtpParameter> = Vec::new();
        core::mem::swap(&mut parameters, &mut self.candidate_parameters);
        match verdict {
            HookVerdict::Accept => {
                if for_sender {
                    self.sender = sender;
                    self.sender_parameters = parameters;
                    self.state = SessionState::HaveSender;
                    Reply::single(250, "2.1.0 OK")
                } else {
                    match recipient {
                        Some(p) => {
                            self.recipients.push(p);
                        },
                        None => {},
                    }
                    self.state = SessionState::HaveRecipient;
                    Reply::single(250, "2.1.5 OK")
                }
            },
            other => refusal(other),
        }
    }

    /// Takes one line of the body, with its CRLF. A dot alone on its line
    /// ends the body; it is no part of it. Any other line joins the body,
    /// without its first character if that is a dot.
    pub fn on_data_line(&mut self, line: &[u8]) -> (step: DataStep)
        requires
            old(self).wf(),
            old(self).reads_body(),
        ensures
            final(self).wf(),
            final(self).same_server(old(self)),
            final(self).state is Data,
            final(self).helo == old(self).helo,
            final(self).sender == old(self).sender,
            final(self).sender_parameters == old(self).sender_parameters,
            final(self).recipients == old(self).recipients,
            if is_terminator(line@) {
                &&& step is End
                &&& final(self).waiting is MessageReceivedHook
                &&& final(self).body@ == old(self).body@
            } else {
                &&& step is More
                &&& final(self).waiting is Nothing
                &&& final(self).body@ == old(self).body@ + unstuffed(line@)
            },
    {
        let n = line.len();
        if n == 3 && line[0] == 46 && line[1] == 13 && line[2] == 10 {
            assert(line@ =~= seq![46u8, 13u8, 10u8]);
            self.waiting = Waiting::MessageReceivedHook;
            return DataStep::End;
        }
        let ghost start = self.body@;
        let from: usize = if n > 0 && line[0] == 46 {
            1
        } else {
            0
        };
        let mut i = from;
        while i < n
            invariant
                from <= i <= n,
                n == line@.len(),
                self.body@ == start + line@.subrange(from as int, i as int),
                self.state == old(self).state,
                self.waiting == old(self).waiting,
                self.hostname == old(self).hostname,
                self.capabilities == old(self).capabilities,
                self.options == old(self).options,
                self.helo == old(self).helo,
                self.sender == old(self).sender,
                self.sender_parameters == old(self).sender_parameters,
                self.recipients == old(self).recipients,
                self.candidate_sender == old(self).candidate_sender,
                self.candidate_recipient == old(self).candidate_recipient,
            decreases n - i,
        {
            self.body.push(line[i]);
            assert(self.body@ =~= start + line@.subrange(from as int, i + 1));
            i += 1;
        }
        assert(line@.subrange(from as int, n as int) =~= unstuffed(line@));
        DataStep::More
    }

    /// The message that the envelope has become: received at `now`, not
    /// yet attempted, due at once, its paths in their wire form.
    pub fn build_message(&self, id: SpoolId, now: u64) -> (m: Message)
        requires
            self.wf(),
            self.state is Data,
        ensures
            m.id == id,
            m.received_at == now,
            m.num_attempts == 0,
            m.next_due == now,
            m.sender@ == reverse_path_wire(self.sender.unwrap()@),
            texts_of(m.recipients@) == recipient_texts(self.recipients@),
            m.meta@.len() == 0,
            m.extra@.len() == 0,
    {
        let sender = match &self.sender {
            Some(p) => p.to_wire(),
            None => String::new(),
        };
        let mut recipients: Vec<String> = Vec::new();
        let mut i: usize = 0;
        while i < self.recipients.len()
            invariant
                i <= self.recipients@.len(),
                recipients@.len() == i,
                forall|j: int|
                    0 <= j < i ==> (#[trigger] recipients@[j])@ == forward_path_wire(
                        self.recipients@[j]@,
                    ),
            decreases self.recipients@.len() - i,
        {
            recipients.push(self.recipients[i].to_wire());
            i += 1;
        }
        assert(texts_of(recipients@) =~= recipient_texts(self.recipients@));
        Message::new(id, now, sender, recipients)
    }

    /// Takes the verdict of the hook on the received message. An accepted
    /// message is to be stored: the session says nothing yet. A rejection
    /// goes to the client with its code and text, and the envelope is
    /// discarded.
    pub fn message_verdict(&mut self, verdict: HookVerdict) -> (r: Option<Reply>)
        requires
            old(self).wf(),
            old(self).waiting is MessageReceivedHook,
        ensures
            final(self).wf(),
            final(self).same_server(old(self)),
            final(self).helo == old(self).helo,
            match verdict {
                HookVerdict::Accept => {
                    &&& r is None
                    &&& final(self).waiting is Spool
                    &&& final(self).state is Data
                    &&& final(self).sender == old(self).sender
                    &&& final(self).recipients == old(self).recipients
                    &&& final(self).body == old(self).body
                },
                _ => {
                    &&& r is Some && refusal_is(r.unwrap(), verdict)
                    &&& final(self).state is Greeted
                    &&& final(self).waiting is Nothing
                    &&& final(self).envelope_is_empty()
                },
            },
    {
        match verdict {
            HookVerdict::Accept => {
                self.waiting = Waiting::Spool;
                None
            },
            other => {
                self.reset();
                Some(refusal(other))
            },
        }
    }

    /// Takes the news of how the message with identifier `id` was stored.
    /// A stored message is accepted, with `250 2.0.0 OK <id>` and a
    /// reception record; the driver then queues it. A message that could
    /// not be stored is refused for now, with `451 4.3.0 spool error`.
    /// Either way the envelope is discarded.
    pub fn spool_result(&mut self, id: SpoolId, stored: bool, now: u64) -> (r: (
        Reply,
        Option<LogDisposition>,
    ))
        requires
            old(self).wf(),
            old(self).waiting is Spool,
        ensures
            final(self).wf(),
            final(self).same_server(old(self)),
            final(self).helo == old(self).helo,
            final(self).state is Greeted,
            final(self).waiting is Nothing,
            final(self).envelope_is_empty(),
            if stored {
                &&& r.0.is(250, "2.0.0 OK "@ + id.text())
                &&& r.1 is Some
                &&& r.1.unwrap().is_local(RecordType::Reception, id, now)
                &&& r.1.unwrap().response.code == 250
                &&& r.1.unwrap().response.enhanced_code == Some(
                    EnhancedStatusCode { class: 2, subject: 0, detail: 0 },
                )
                &&& r.1.unwrap().response.content@ == "OK"@
                &&& r.1.unwrap().response.command is None
            } else {
                &&& r.0.is(451, "4.3.0 spool error"@)
                &&& r.1 is None
            },
    {
        self.reset();
        if stored {
            let text = id.to_text();
            let reply = Reply::joined(250, "2.0.0 OK ", text.as_str());
            let record = local_record(
                RecordType::Reception,
                id,
                Response::new(
                    250,
                    Some(EnhancedStatusCode { class: 2, subject: 0, detail: 0 }),
                    "OK",
                ),
                now,
            );
            (reply, Some(record))
        } else {
            (Reply::single(451, "4.3.0 spool error"), None)
        }
    }

    /// Ends the session because the process shuts down:
    /// `421 4.3.2 shutting down`, whatever the session was doing.
    pub fn on_shutdown(&mut self) -> (r: Reply)
        ensures
            r.is(421, "4.3.2 shutting down"@),
            final(self).state is Closed,
            final(self).waiting is Nothing,
            final(self).envelope_is_empty(),
            final(self).wf(),
            final(self).same_server(old(self)),
    {
        self.reset();
        self.state = SessionState::Closed;
        Reply::single(421, "4.3.2 shutting down")
    }
}

} // verus!
