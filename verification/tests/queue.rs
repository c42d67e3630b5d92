use mta_core::logging::{AttemptContext, EnhancedStatusCode, RecordType, Response};
use mta_core::message::{Message, SpoolId};
use mta_core::queue::{Queue, QueueError};
use mta_core::queue_manager::{AttemptOutcome, QueueManager};
use mta_core::schedule::QueueConfig;

fn config() -> QueueConfig {
    QueueConfig::new(3600, 60, None).unwrap()
}

fn message(id: u128, received_at: u64, next_due: u64) -> Message {
    let mut m = Message::new(
        SpoolId { value: id },
        received_at,
        "<a@x>".to_string(),
        vec!["<b@y>".to_string()],
    );
    m.next_due = next_due;
    m
}

fn ids(v: &[Message]) -> Vec<u128> {
    v.iter().map(|m| m.id.value).collect()
}

fn context() -> AttemptContext {
    AttemptContext {
        site: "mx.y".to_string(),
        peer_address: Some("192.0.2.1:25".to_string()),
        egress_pool: Some("pool".to_string()),
        egress_source: Some("source".to_string()),
        delivery_protocol: Some("ESMTP".to_string()),
    }
}

fn response(code: u16, text: &str) -> Response {
    Response::new(code, None, text)
}

#[test]
fn insert_keeps_waiting_messages_in_order() {
    let mut q = Queue::new("y".to_string(), config(), 10, 100);
    assert_eq!(q.insert(message(1, 0, 300)), Ok(()));
    assert_eq!(q.insert(message(2, 0, 200)), Ok(()));
    assert_eq!(q.insert(message(3, 0, 400)), Ok(()));
    assert_eq!(q.insert(message(4, 0, 250)), Ok(()));
    assert_eq!(ids(&q.scheduled), vec![2, 4, 1, 3]);
    assert!(q.due.is_empty());
}

#[test]
fn ties_go_to_the_earlier_reception_and_then_the_smaller_identifier() {
    let mut q = Queue::new("y".to_string(), config(), 10, 100);
    q.insert(message(9, 50, 200)).unwrap();
    q.insert(message(7, 40, 200)).unwrap();
    q.insert(message(8, 50, 200)).unwrap();
    q.insert(message(1, 60, 200)).unwrap();
    q.insert(message(2, 99, 150)).unwrap();
    assert_eq!(ids(&q.scheduled), vec![2, 7, 8, 9, 1]);
}

#[test]
fn a_message_that_is_due_joins_the_due_messages() {
    let mut q = Queue::new("y".to_string(), config(), 10, 100);
    q.insert(message(1, 0, 100)).unwrap();
    q.insert(message(2, 0, 50)).unwrap();
    q.insert(message(3, 0, 101)).unwrap();
    assert_eq!(ids(&q.due), vec![1, 2]);
    assert_eq!(ids(&q.scheduled), vec![3]);
}

#[test]
fn an_identifier_is_queued_once() {
    let mut q = Queue::new("y".to_string(), config(), 10, 100);
    q.insert(message(1, 0, 300)).unwrap();
    q.insert(message(2, 0, 50)).unwrap();
    assert_eq!(q.insert(message(1, 5, 500)), Err(QueueError::Duplicate));
    assert_eq!(q.insert(message(2, 5, 500)), Err(QueueError::Duplicate));
    assert_eq!(ids(&q.scheduled), vec![1]);
    assert_eq!(ids(&q.due), vec![2]);
    assert!(q.contains(SpoolId { value: 1 }));
    assert!(q.contains(SpoolId { value: 2 }));
    assert!(!q.contains(SpoolId { value: 3 }));
}

#[test]
fn promotion_moves_what_is_due_and_nothing_else() {
    let mut q = Queue::new("y".to_string(), config(), 10, 100);
    for (id, due) in [(1, 300), (2, 200), (3, 400), (4, 250), (5, 90)] {
        q.insert(message(id, 0, due)).unwrap();
    }
    assert_eq!(ids(&q.due), vec![5]);
    assert_eq!(q.next_wakeup(), Some(200));
    q.promote(199);
    assert_eq!(ids(&q.due), vec![5]);
    assert_eq!(ids(&q.scheduled), vec![2, 4, 1, 3]);
    assert_eq!(q.now, 199);
    q.promote(250);
    assert_eq!(ids(&q.due), vec![5, 2, 4]);
    assert_eq!(ids(&q.scheduled), vec![1, 3]);
    // every due message is due by now, every waiting one after now
    assert!(q.due.iter().all(|m| m.next_due <= q.now));
    assert!(q.scheduled.iter().all(|m| m.next_due > q.now));
    // a clock that runs backwards changes nothing
    q.promote(10);
    assert_eq!(q.now, 250);
    assert_eq!(ids(&q.due), vec![5, 2, 4]);
    assert_eq!(q.next_wakeup(), Some(300));
    q.promote(u64::MAX);
    assert_eq!(ids(&q.due), vec![5, 2, 4, 1, 3]);
    assert!(q.scheduled.is_empty());
    assert_eq!(q.next_wakeup(), None);
}

#[test]
fn due_messages_leave_first_come_first_served_within_the_limit() {
    let mut q = Queue::new("y".to_string(), config(), 2, 100);
    for id in [3, 1, 2] {
        q.insert(message(id, 0, 10)).unwrap();
    }
    assert_eq!(q.pop_due().unwrap().id.value, 3);
    assert_eq!(q.pop_due().unwrap().id.value, 1);
    assert_eq!(q.in_flight, 2);
    assert!(q.pop_due().is_none());
    q.attempt_done();
    assert_eq!(q.pop_due().unwrap().id.value, 2);
    assert!(q.pop_due().is_none());
    q.attempt_done();
    q.attempt_done();
    q.attempt_done();
    assert_eq!(q.in_flight, 0);
}

#[test]
fn queues_are_resolved_by_name() {
    let mut m = QueueManager::new();
    assert_eq!(m.resolve("y", None, 1, 0), None);
    assert_eq!(m.resolve("y", Some(config()), 1, 0), Some(0));
    assert_eq!(m.resolve("z", Some(config()), 1, 0), Some(1));
    assert_eq!(m.resolve("y", None, 1, 0), Some(0));
    assert_eq!(m.find("z"), Some(1));
    assert_eq!(m.find("w"), None);
    let invalid = QueueConfig { max_age: 10, retry_interval: 0, max_retry_interval: None };
    assert_eq!(m.resolve("w", Some(invalid), 1, 0), None);
    assert_eq!(m.queues.len(), 2);
    assert_eq!(m.queues[1].name, "z");
    assert_eq!(m.queues[1].get_config(), config());
}

#[test]
fn an_identifier_is_in_one_queue_at_most() {
    let mut m = QueueManager::new();
    let y = m.resolve("y", Some(config()), 1, 0).unwrap();
    let z = m.resolve("z", Some(config()), 1, 0).unwrap();
    assert_eq!(m.insert(y, message(1, 0, 10)), Ok(()));
    assert_eq!(m.insert(z, message(1, 0, 10)), Err(QueueError::Duplicate));
    assert_eq!(m.insert(y, message(1, 0, 10)), Err(QueueError::Duplicate));
    assert_eq!(m.insert(7, message(2, 0, 10)), Err(QueueError::NoSuchQueue));
    assert_eq!(m.insert(z, message(2, 0, 10)), Ok(()));
    assert!(m.contains(SpoolId { value: 1 }));
    assert!(m.contains(SpoolId { value: 2 }));
    assert!(!m.contains(SpoolId { value: 3 }));
    assert_eq!(m.queues[y].scheduled.len(), 1);
    assert_eq!(m.queues[z].scheduled.len(), 1);
}

#[test]
fn time_passes_in_every_queue() {
    let mut m = QueueManager::new();
    let y = m.resolve("y", Some(config()), 1, 0).unwrap();
    let z = m.resolve("z", Some(config()), 1, 0).unwrap();
    m.insert(y, message(1, 0, 10)).unwrap();
    m.insert(z, message(2, 0, 20)).unwrap();
    m.promote(15);
    assert_eq!(ids(&m.queues[y].due), vec![1]);
    assert_eq!(ids(&m.queues[z].scheduled), vec![2]);
    assert_eq!(m.pop_due(z), None);
    assert_eq!(m.pop_due(9), None);
    let popped = m.pop_due(y).unwrap();
    assert_eq!(popped.id.value, 1);
    assert!(!m.contains(SpoolId { value: 1 }));
    assert_eq!(m.pop_due(y), None);
}

#[test]
fn a_delivered_message_leaves_with_a_delivery_record() {
    let mut m = QueueManager::new();
    let y = m.resolve("y", Some(config()), 1, 0).unwrap();
    m.insert(y, message(1, 0, 0)).unwrap();
    let msg = m.pop_due(y).unwrap();
    let d = m.complete_attempt(y, msg, AttemptOutcome::Delivered(response(250, "ok")), context(), 5);
    assert!(d.remove_from_spool);
    assert_eq!(d.records.len(), 1);
    assert_eq!(d.records[0].kind, RecordType::Delivery);
    assert_eq!(d.records[0].msg_id, SpoolId { value: 1 });
    assert_eq!(d.records[0].response, response(250, "ok"));
    assert_eq!(d.records[0].timestamp, 5);
    assert_eq!(d.records[0].site, "mx.y");
    assert_eq!(d.records[0].peer_address, Some("192.0.2.1:25".to_string()));
    assert_eq!(d.records[0].egress_pool, Some("pool".to_string()));
    assert_eq!(d.records[0].egress_source, Some("source".to_string()));
    assert_eq!(d.records[0].delivery_protocol, Some("ESMTP".to_string()));
    assert!(!m.contains(SpoolId { value: 1 }));
    assert_eq!(m.queues[y].in_flight, 0);
}

#[test]
fn a_permanent_failure_bounces() {
    let mut m = QueueManager::new();
    let y = m.resolve("y", Some(config()), 1, 0).unwrap();
    m.insert(y, message(1, 0, 0)).unwrap();
    let msg = m.pop_due(y).unwrap();
    let d = m.complete_attempt(y, msg, AttemptOutcome::PermanentFailure(response(550, "no")), context(), 5);
    assert!(d.remove_from_spool);
    assert_eq!(d.records.len(), 1);
    assert_eq!(d.records[0].kind, RecordType::Bounce);
    assert_eq!(d.records[0].response.code, 550);
    assert!(!m.contains(SpoolId { value: 1 }));
}

#[test]
fn a_transient_failure_counts_an_attempt_and_waits() {
    let mut m = QueueManager::new();
    let y = m.resolve("y", Some(config()), 1, 1000).unwrap();
    m.insert(y, message(1, 1000, 1000)).unwrap();
    let msg = m.pop_due(y).unwrap();
    assert_eq!(msg.num_attempts, 0);
    let d = m.complete_attempt(y, msg, AttemptOutcome::TransientFailure(response(451, "later")), context(), 1010);
    assert!(!d.remove_from_spool);
    assert_eq!(d.records.len(), 1);
    assert_eq!(d.records[0].kind, RecordType::TransientFailure);
    assert!(m.contains(SpoolId { value: 1 }));
    let queued = &m.queues[y].scheduled[0];
    assert_eq!(queued.num_attempts, 1);
    // one attempt stands for sixty seconds, ten of which have passed
    assert_eq!(queued.next_due, 1010 + 50);
    // the number of attempts never decreases
    m.promote(2000);
    let again = m.pop_due(y).unwrap();
    let d = m.complete_attempt(y, again, AttemptOutcome::TransientFailure(response(451, "later")), context(), 2000);
    assert!(!d.remove_from_spool);
    let queued = &m.queues[y].due[0];
    assert_eq!(queued.num_attempts, 2);
    assert_eq!(queued.next_due, 2000);
}

#[test]
fn a_transient_failure_at_the_maximum_age_expires() {
    let mut m = QueueManager::new();
    let y = m.resolve("y", Some(config()), 1, 0).unwrap();
    m.insert(y, message(1, 0, 0)).unwrap();
    let msg = m.pop_due(y).unwrap();
    let d = m.complete_attempt(y, msg, AttemptOutcome::TransientFailure(response(451, "later")), context(), 3600);
    assert!(d.remove_from_spool);
    assert_eq!(d.records.len(), 2);
    assert_eq!(d.records[0].kind, RecordType::TransientFailure);
    assert_eq!(d.records[1].kind, RecordType::Expiration);
    assert_eq!(d.records[1].site, "localhost");
    assert_eq!(d.records[1].response.code, 551);
    assert_eq!(
        d.records[1].response.enhanced_code,
        Some(EnhancedStatusCode { class: 5, subject: 4, detail: 7 })
    );
    assert_eq!(d.records.iter().filter(|r| r.kind == RecordType::Expiration).count(), 1);
    assert!(!m.contains(SpoolId { value: 1 }));
}

#[test]
fn message_counts_and_delays() {
    let mut m = message(1, 100, 100);
    assert_eq!(m.age(100), 0);
    assert_eq!(m.age(160), 60);
    assert_eq!(m.age(50), 0);
    m.set_num_attempts(3);
    assert_eq!(m.num_attempts, 3);
    m.set_num_attempts(2);
    assert_eq!(m.num_attempts, 3);
    m.increment_num_attempts();
    assert_eq!(m.num_attempts, 4);
    m.num_attempts = u64::MAX;
    m.increment_num_attempts();
    assert_eq!(m.num_attempts, u64::MAX);
    m.delay_by(60, 1000);
    assert_eq!(m.next_due, 1060);
    m.delay_by(u64::MAX, 1000);
    assert_eq!(m.next_due, u64::MAX);
}
