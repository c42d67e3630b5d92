use mta_core::mod_kumo::{
    decorated_name, AlreadyRegistered, HookKind, HookRegistry, SourceLocation,
};

fn at(source: &str, line: i32) -> Option<SourceLocation> {
    Some(SourceLocation { source: source.to_string(), line })
}

#[test]
fn an_event_keeps_its_first_handler() {
    let mut r = HookRegistry::new();
    assert_eq!(r.on("smtp_server_mail_from", at("init.lua", 10)), Ok(0));
    assert_eq!(r.on("get_queue_name", None), Ok(1));
    assert_eq!(
        r.on("smtp_server_mail_from", at("other.lua", 99)),
        Err(AlreadyRegistered {
            name: "smtp_server_mail_from".to_string(),
            location: at("init.lua", 10),
        })
    );
    assert_eq!(
        r.on("get_queue_name", at("other.lua", 1)),
        Err(AlreadyRegistered { name: "get_queue_name".to_string(), location: None })
    );
    assert_eq!(r.registered.len(), 2);
    assert_eq!(r.registered[0].location, at("init.lua", 10));
    assert_eq!(r.lookup("get_queue_name"), Some(1));
    assert_eq!(r.lookup("spool_message_enumerated"), None);
}

#[test]
fn the_core_knows_its_events_by_name() {
    assert_eq!(HookKind::from_name("smtp_server_mail_from"), Some(HookKind::SmtpServerMailFrom));
    assert_eq!(HookKind::from_name("smtp_server_rcpt_to"), Some(HookKind::SmtpServerRcptTo));
    assert_eq!(
        HookKind::from_name("smtp_server_message_received"),
        Some(HookKind::SmtpServerMessageReceived)
    );
    assert_eq!(
        HookKind::from_name("spool_message_enumerated"),
        Some(HookKind::SpoolMessageEnumerated)
    );
    assert_eq!(HookKind::from_name("get_queue_name"), Some(HookKind::GetQueueName));
    assert_eq!(
        HookKind::from_name("should_enqueue_log_record"),
        Some(HookKind::ShouldEnqueueLogRecord)
    );
    assert_eq!(HookKind::from_name("Get_Queue_Name"), None);
    assert_eq!(HookKind::from_name(""), None);
    assert_eq!(decorated_name("init"), "kumomta-on-init");
}
