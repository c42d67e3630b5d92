use mta_core::command::{Domain, ForwardPath, ReversePath};
use mta_core::logging::{EnhancedStatusCode, RecordType};
use mta_core::memory_spool::MemorySpool;
use mta_core::message::{Message, SpoolId};
use mta_core::queue_manager::QueueManager;
use mta_core::reply::Reply;
use mta_core::schedule::QueueConfig;
use mta_core::session::{
    Action, DataStep, HookVerdict, RejectError, Session, SessionOptions, SessionState, Waiting,
};

fn session() -> Session {
    Session::new(
        "mx.example".to_string(),
        vec!["PIPELINING".to_string(), "ENHANCEDSTATUSCODES".to_string()],
        SessionOptions { vrfy: false, expn: false, help: true, noop: true },
    )
}

fn reply(code: u16, text: &str) -> Reply {
    Reply { code, lines: vec![text.to_string()] }
}

fn say(s: &mut Session, line: &str) -> Action {
    assert!(s.expects_command());
    s.on_line(line)
}

/// Sends a command whose hook accepts, and gives the reply.
fn accepted(s: &mut Session, line: &str) -> Reply {
    match say(s, line) {
        Action::MailFromHook | Action::RcptToHook => s.hook_verdict(HookVerdict::Accept),
        other => panic!("{line:?} called no hook: {other:?}"),
    }
}

fn with_recipient() -> Session {
    let mut s = session();
    assert_eq!(accepted(&mut s, "MAIL FROM:<a@x>"), reply(250, "2.1.0 OK"));
    assert_eq!(accepted(&mut s, "RCPT TO:<b@y>"), reply(250, "2.1.5 OK"));
    s
}

#[test]
fn the_server_greets() {
    let s = session();
    assert_eq!(s.greeting(), reply(220, "mx.example ESMTP"));
    assert_eq!(s.greeting().render(), b"220 mx.example ESMTP\r\n");
    assert_eq!(s.state, SessionState::Greeted);
}

#[test]
fn ehlo_lists_the_capabilities_and_help_last() {
    let mut s = session();
    let r = match say(&mut s, "EHLO c.example") {
        Action::Reply(r) => r,
        other => panic!("{other:?}"),
    };
    assert_eq!(r.code, 250);
    assert_eq!(r.lines, vec!["mx.example", "PIPELINING", "ENHANCEDSTATUSCODES", "HELP"]);
    assert_eq!(
        r.render(),
        b"250-mx.example\r\n250-PIPELINING\r\n250-ENHANCEDSTATUSCODES\r\n250 HELP\r\n"
    );
    assert_eq!(s.helo, Some(Domain::Name("c.example".to_string())));
    assert_eq!(say(&mut s, "HELO c.example"), Action::Reply(reply(250, "mx.example")));
}

#[test]
fn happy_path() {
    let mut s = session();
    let mut data = MemorySpool::new();
    let mut meta = MemorySpool::new();
    let mut queues = QueueManager::new();
    let id = SpoolId { value: 0x1234 };
    let now = 1_700_000_000;

    assert!(matches!(say(&mut s, "EHLO c.example"), Action::Reply(r) if r.code == 250));
    assert_eq!(accepted(&mut s, "MAIL FROM:<a@x>"), reply(250, "2.1.0 OK"));
    assert_eq!(s.state, SessionState::HaveSender);
    assert_eq!(accepted(&mut s, "RCPT TO:<b@y>"), reply(250, "2.1.5 OK"));
    assert_eq!(s.state, SessionState::HaveRecipient);
    assert_eq!(say(&mut s, "DATA"), Action::Reply(reply(354, "go ahead")));
    assert_eq!(s.state, SessionState::Data);
    assert!(s.expects_body());
    assert_eq!(s.on_data_line(b"hello\r\n"), DataStep::More);
    assert_eq!(s.on_data_line(b".\r\n"), DataStep::End);
    assert_eq!(s.body, b"hello\r\n");

    let msg = s.build_message(id, now);
    let queue_name = match &s.recipients[0] {
        ForwardPath::Path(p) => p.routing_key(),
        ForwardPath::Postmaster => "postmaster".to_string(),
    };
    assert_eq!(queue_name, "y");
    assert_eq!(s.message_verdict(HookVerdict::Accept), None);
    assert_eq!(s.waiting, Waiting::Spool);
    meta.put(id, msg.to_blob().unwrap());
    data.put(id, s.body.clone());
    let (r, record) = s.spool_result(id, true, now);
    assert_eq!(r, reply(250, "2.0.0 OK 00000000000000000000000000001234"));
    let record = record.unwrap();
    assert_eq!(record.kind, RecordType::Reception);
    assert_eq!(record.msg_id, id);
    assert_eq!(record.timestamp, now);
    assert_eq!(record.site, "localhost");
    assert_eq!(record.response.code, 250);
    assert_eq!(
        record.response.enhanced_code,
        Some(EnhancedStatusCode { class: 2, subject: 0, detail: 0 })
    );
    assert_eq!(record.response.content, "OK");
    assert!(record.kind.is_synchronous());
    let config = QueueConfig::new(3600, 60, None).unwrap();
    let y = queues.resolve(&queue_name, Some(config), 4, now).unwrap();
    queues.insert(y, msg).unwrap();

    assert_eq!(say(&mut s, "QUIT"), Action::Close(reply(221, "2.0.0 bye")));
    assert_eq!(s.state, SessionState::Closed);
    assert!(!s.expects_command());

    // the spool holds one message, and the queue one entry that was never attempted
    assert_eq!(meta.entries.len(), 1);
    assert_eq!(data.get(id), Some(b"hello\r\n".to_vec()));
    let stored = Message::new_from_spool(id, &meta.get(id).unwrap()).unwrap();
    assert_eq!(stored.sender, "<a@x>");
    assert_eq!(stored.recipients, vec!["<b@y>".to_string()]);
    assert_eq!(stored.received_at, now);
    assert_eq!(queues.queues.len(), 1);
    assert_eq!(queues.queues[y].name, "y");
    assert_eq!(queues.queues[y].due.len(), 1);
    assert_eq!(queues.queues[y].due[0].num_attempts, 0);
    assert_eq!(queues.queues[y].due[0].id, id);
}

#[test]
fn data_without_a_recipient_is_refused() {
    let mut s = session();
    let refusal = Action::Reply(reply(554, "5.5.1 no valid recipients"));
    assert_eq!(say(&mut s, "DATA"), refusal);
    assert_eq!(s.state, SessionState::Greeted);
    accepted(&mut s, "MAIL FROM:<a@x>");
    assert_eq!(say(&mut s, "DATA"), refusal);
    assert_eq!(s.state, SessionState::HaveSender);
    // a recipient that its hook rejects is no recipient
    assert_eq!(say(&mut s, "RCPT TO:<b@y>"), Action::RcptToHook);
    let no = RejectError { code: 550, enhanced_code: None, message: "5.1.1 no such user".to_string() };
    assert_eq!(s.hook_verdict(HookVerdict::Reject(no)), reply(550, "5.1.1 no such user"));
    assert_eq!(say(&mut s, "DATA"), refusal);
    assert!(s.recipients.is_empty());
}

#[test]
fn the_body_ends_at_a_dot_alone_and_loses_the_dots_that_were_stuffed() {
    let mut s = with_recipient();
    say(&mut s, "DATA");
    assert_eq!(s.on_data_line(b"..\r\n"), DataStep::More);
    assert_eq!(s.body, b".\r\n");
    assert_eq!(s.on_data_line(b"..a\r\n"), DataStep::More);
    assert_eq!(s.on_data_line(b"a.\r\n"), DataStep::More);
    assert_eq!(s.on_data_line(b".a\r\n"), DataStep::More);
    assert_eq!(s.on_data_line(b"\r\n"), DataStep::More);
    assert_eq!(s.on_data_line(b""), DataStep::More);
    assert_eq!(s.on_data_line(b"."), DataStep::More);
    assert_eq!(s.on_data_line(b".\n"), DataStep::More);
    assert_eq!(s.on_data_line(b" .\r\n"), DataStep::More);
    assert_eq!(s.on_data_line(b"QUIT\r\n"), DataStep::More);
    assert_eq!(s.waiting, Waiting::Nothing);
    assert_eq!(s.on_data_line(b".\r\n"), DataStep::End);
    assert_eq!(s.body, b".\r\n.a\r\na.\r\na\r\n\r\n\n .\r\nQUIT\r\n");
    assert_eq!(s.waiting, Waiting::MessageReceivedHook);
    assert!(!s.expects_body());
}

#[test]
fn the_null_sender_is_accepted_and_a_second_sender_is_out_of_turn() {
    let mut s = session();
    assert_eq!(say(&mut s, "MAIL FROM:<>"), Action::MailFromHook);
    assert_eq!(s.candidate_sender, Some(ReversePath::NullSender));
    assert_eq!(s.hook_verdict(HookVerdict::Accept), reply(250, "2.1.0 OK"));
    assert_eq!(s.sender, Some(ReversePath::NullSender));
    let out_of_turn = Action::Reply(reply(503, "5.5.1 bad sequence of commands"));
    assert_eq!(say(&mut s, "MAIL FROM:<a@x>"), out_of_turn);
    assert_eq!(s.sender, Some(ReversePath::NullSender));
    accepted(&mut s, "RCPT TO:<b@y>");
    assert_eq!(say(&mut s, "MAIL FROM:<a@x>"), out_of_turn);
    assert_eq!(say(&mut s, "RSET"), Action::Reply(reply(250, "2.0.0 OK")));
    assert_eq!(s.state, SessionState::Greeted);
    assert_eq!(accepted(&mut s, "MAIL FROM:<a@x>"), reply(250, "2.1.0 OK"));
}

#[test]
fn a_recipient_needs_a_sender() {
    let mut s = session();
    assert_eq!(
        say(&mut s, "RCPT TO:<b@y>"),
        Action::Reply(reply(503, "5.5.1 bad sequence of commands"))
    );
    accepted(&mut s, "MAIL FROM:<a@x>");
    accepted(&mut s, "RCPT TO:<b@y>");
    accepted(&mut s, "RCPT TO:<Postmaster>");
    assert_eq!(s.recipients.len(), 2);
    assert_eq!(s.recipients[1], ForwardPath::Postmaster);
}

#[test]
fn a_rejected_sender_leaves_the_session_where_it_was() {
    let mut s = session();
    assert_eq!(say(&mut s, "MAIL FROM:<a@x> SIZE=10"), Action::MailFromHook);
    assert_eq!(s.candidate_parameters.len(), 1);
    assert_eq!(s.waiting, Waiting::MailFromHook);
    let no = RejectError {
        code: 451,
        enhanced_code: Some(EnhancedStatusCode { class: 4, subject: 7, detail: 1 }),
        message: "try later".to_string(),
    };
    assert_eq!(s.hook_verdict(HookVerdict::Reject(no)), reply(451, "4.7.1 try later"));
    assert_eq!(s.state, SessionState::Greeted);
    assert_eq!(s.sender, None);
    assert_eq!(s.waiting, Waiting::Nothing);
}

#[test]
fn greeting_again_and_reset_discard_the_envelope() {
    for line in ["EHLO again.example", "HELO again.example", "RSET"] {
        let mut s = with_recipient();
        assert!(matches!(say(&mut s, line), Action::Reply(r) if r.code == 250));
        assert_eq!(s.state, SessionState::Greeted);
        assert_eq!(s.sender, None);
        assert!(s.recipients.is_empty());
    }
}

#[test]
fn a_rejected_message_is_discarded() {
    let mut s = with_recipient();
    say(&mut s, "DATA");
    s.on_data_line(b"spam\r\n");
    s.on_data_line(b".\r\n");
    let no = RejectError {
        code: 550,
        enhanced_code: Some(EnhancedStatusCode { class: 5, subject: 7, detail: 100 }),
        message: "not here".to_string(),
    };
    assert_eq!(s.message_verdict(HookVerdict::Reject(no)), Some(reply(550, "5.7.100 not here")));
    assert_eq!(s.state, SessionState::Greeted);
    assert!(s.body.is_empty());
    assert!(s.recipients.is_empty());
    assert!(s.expects_command());
}

#[test]
fn a_spool_failure_is_transient_and_discards_the_envelope() {
    let mut s = with_recipient();
    say(&mut s, "DATA");
    s.on_data_line(b".\r\n");
    assert_eq!(s.message_verdict(HookVerdict::Accept), None);
    let (r, record) = s.spool_result(SpoolId { value: 1 }, false, 10);
    assert_eq!(r, reply(451, "4.3.0 spool error"));
    assert_eq!(record, None);
    assert_eq!(s.state, SessionState::Greeted);
    assert_eq!(s.sender, None);
}

#[test]
fn a_hook_that_fails_is_a_transient_failure() {
    let mut s = session();
    assert_eq!(say(&mut s, "MAIL FROM:<a@x>"), Action::MailFromHook);
    assert_eq!(s.hook_verdict(HookVerdict::Failed), reply(451, "4.3.0 temporary failure"));
    assert_eq!(s.state, SessionState::Greeted);
    let mut s = with_recipient();
    say(&mut s, "DATA");
    s.on_data_line(b".\r\n");
    assert_eq!(
        s.message_verdict(HookVerdict::Failed),
        Some(reply(451, "4.3.0 temporary failure"))
    );
    assert_eq!(s.state, SessionState::Greeted);
    assert_eq!(EnhancedStatusCode { class: 2, subject: 0, detail: 0 }.to_text(), "2.0.0");
    assert_eq!(EnhancedStatusCode { class: 255, subject: 65535, detail: 10 }.to_text(), "255.65535.10");
}

#[test]
fn shutdown_closes_the_session() {
    let mut s = with_recipient();
    let r = s.on_shutdown();
    assert_eq!(r, reply(421, "4.3.2 shutting down"));
    assert_eq!(r.render(), b"421 4.3.2 shutting down\r\n");
    assert_eq!(s.state, SessionState::Closed);
    assert!(!s.expects_command());
    assert!(!s.expects_body());
}

#[test]
fn commands_without_state_answer_or_are_disabled() {
    let mut s = with_recipient();
    let disabled = Action::Reply(reply(502, "5.5.1 command disabled"));
    let ok = Action::Reply(reply(250, "2.0.0 OK"));
    assert_eq!(say(&mut s, "VRFY someone"), disabled);
    assert_eq!(say(&mut s, "EXPN list"), disabled);
    assert_eq!(say(&mut s, "HELP"), ok);
    assert_eq!(say(&mut s, "NOOP x"), ok);
    assert_eq!(s.state, SessionState::HaveRecipient);
    assert_eq!(s.recipients.len(), 1);
}

#[test]
fn what_is_no_command_is_answered_and_changes_nothing() {
    let mut s = with_recipient();
    let syntax = Action::Reply(reply(500, "5.5.2 syntax error"));
    assert_eq!(say(&mut s, "BOGUS"), syntax);
    assert_eq!(say(&mut s, "MAIL FROM:<a@x"), syntax);
    let long = format!("NOOP {}", "x".repeat(994));
    assert_eq!(long.len(), 999);
    assert_eq!(say(&mut s, &long), Action::Reply(reply(500, "5.5.2 line too long")));
    let longest = format!("NOOP {}", "x".repeat(993));
    assert_eq!(say(&mut s, &longest), Action::Reply(reply(250, "2.0.0 OK")));
    assert_eq!(s.state, SessionState::HaveRecipient);
}

#[test]
fn replies_are_framed() {
    assert_eq!(reply(250, "2.1.0 OK").render(), b"250 2.1.0 OK\r\n");
    assert_eq!(reply(7, "x").render(), b"007 x\r\n");
    assert_eq!(reply(1234, "x").render(), b"1234 x\r\n");
    assert_eq!(reply(65535, "").render(), b"65535 \r\n");
    assert_eq!(Reply { code: 250, lines: vec![] }.render(), b"");
    // a text cannot end its line
    assert_eq!(reply(550, "no\r\n250 yes").render(), b"550 no  250 yes\r\n");
    // and a line is never longer than a thousand octets
    let long = reply(550, &"x".repeat(2000)).render();
    assert_eq!(long.len(), 1000);
    assert!(long.starts_with(b"550 xxx"));
    assert!(long.ends_with(b"x\r\n"));
    let two = Reply { code: 250, lines: vec!["a".to_string(), "b".to_string()] };
    assert_eq!(two.render(), b"250-a\r\n250 b\r\n");
}
