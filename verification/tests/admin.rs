use mta_core::admin::{cancel_report, AdminBounces, BounceCriteria};
use mta_core::http::{multipart_request, next_header, MultipartError};

fn every_queue() -> BounceCriteria {
    BounceCriteria { queue_name: None }
}

fn queue(name: &str) -> BounceCriteria {
    BounceCriteria { queue_name: Some(name.to_string()) }
}

#[test]
fn a_bounce_matches_its_queue_until_it_expires() {
    let mut b = AdminBounces::new();
    assert!(b.set_bounce(1, queue("y"), "maintenance".to_string(), 300, 1000));
    assert_eq!(b.entries[0].expires, 1300);
    assert_eq!(b.matching("y", 1000), Some(0));
    assert_eq!(b.matching("y", 1299), Some(0));
    assert_eq!(b.matching("y", 1300), None);
    assert_eq!(b.matching("z", 1000), None);
    assert!(b.set_bounce(2, every_queue(), "all".to_string(), u64::MAX, 1000));
    assert_eq!(b.entries[1].expires, u64::MAX);
    assert_eq!(b.matching("z", 1000), Some(1));
    assert_eq!(b.matching("y", 1000), Some(0));
    assert_eq!(b.matching("y", 5000), Some(1));
    // an identifier is entered once
    assert!(!b.set_bounce(1, every_queue(), "again".to_string(), 1, 1));
    assert_eq!(b.entries.len(), 2);
    assert_eq!(b.entries[0].reason, "maintenance");
}

#[test]
fn a_cancelled_bounce_matches_nothing_more() {
    let mut b = AdminBounces::new();
    b.set_bounce(1, queue("y"), "first".to_string(), 300, 1000);
    b.set_bounce(2, queue("z"), "second".to_string(), 300, 1000);
    b.set_bounce(3, queue("y"), "third".to_string(), 300, 1000);
    assert!(b.cancel(1));
    assert_eq!(b.entries.iter().map(|e| e.id).collect::<Vec<_>>(), vec![2, 3]);
    assert_eq!(b.matching("y", 1000), Some(1));
    assert_eq!(b.entries[1].reason, "third");
    // to cancel again changes nothing
    assert!(!b.cancel(1));
    assert_eq!(b.entries.len(), 2);
    assert!(b.cancel(3));
    assert_eq!(b.matching("y", 1000), None);
    assert_eq!(b.matching("z", 1000), Some(0));
}

#[test]
fn a_cancellation_reports_what_the_server_said() {
    assert_eq!(cancel_report(true, String::new()), Ok("OK".to_string()));
    assert_eq!(cancel_report(true, "removed".to_string()), Ok("removed".to_string()));
    assert_eq!(cancel_report(false, "no such entry".to_string()), Err("no such entry".to_string()));
    assert_eq!(cancel_report(false, String::new()), Err(String::new()));
}

#[test]
fn headers_are_walked_by_the_name_seen_last() {
    let names: Vec<String> =
        ["content-type", "date", "server"].iter().map(|s| s.to_string()).collect();
    assert_eq!(next_header(&names, None), Some(0));
    assert_eq!(next_header(&names, Some("content-type")), Some(1));
    assert_eq!(next_header(&names, Some("date")), Some(2));
    assert_eq!(next_header(&names, Some("server")), None);
    assert_eq!(next_header(&names, Some("missing")), None);
    assert_eq!(next_header(&names, Some("Date")), None);
    assert_eq!(next_header(&[].to_vec(), None), None);
    assert_eq!(next_header(&[].to_vec(), Some("date")), None);
    // what follows the first header of a name that occurs twice
    let twice: Vec<String> = ["a", "b", "a", "c"].iter().map(|s| s.to_string()).collect();
    assert_eq!(next_header(&twice, Some("a")), Some(1));
}

#[test]
fn a_built_message_gives_the_body_of_a_request() {
    let message = b"Content-Type: multipart/form-data; boundary=x\r\n\r\n--x\r\n".to_vec();
    let content_type = Some("multipart/form-data; boundary=x".to_string());
    assert_eq!(
        multipart_request(&message, 49, content_type.clone()),
        Ok(("multipart/form-data; boundary=x".to_string(), b"--x\r\n".to_vec()))
    );
    assert_eq!(
        multipart_request(&message, message.len(), content_type.clone()),
        Ok(("multipart/form-data; boundary=x".to_string(), vec![]))
    );
    assert_eq!(
        multipart_request(&message, message.len() + 1, content_type),
        Err(MultipartError::BodyOutOfRange)
    );
    assert_eq!(multipart_request(&message, 0, None), Err(MultipartError::MissingContentType));
    assert_eq!(
        multipart_request(&message, message.len() + 1, None),
        Err(MultipartError::MissingContentType)
    );
}
