use mta_core::logging::{EnhancedStatusCode, RecordType};
use mta_core::memory_spool::MemorySpool;
use mta_core::message::{Message, SpoolId};
use mta_core::mod_kumo::{DefineSpoolParams, SpoolKind};
use mta_core::queue_manager::QueueManager;
use mta_core::recovery::{admit_recovered, recover_entry, Recovery};
use mta_core::schedule::QueueConfig;
use mta_core::spool::{
    SpoolEntry, SpoolError, SpoolHandle, SpoolManager, SpoolRole, CLEANUP_INTERVAL_SECONDS,
    ENUMERATION_CHANNEL_CAPACITY,
};
use mta_core::spool_path::spool_path;

fn define(name: &str, path: &str, kind: SpoolKind) -> DefineSpoolParams {
    DefineSpoolParams {
        name: name.to_string(),
        path: path.to_string(),
        kind,
        flush: false,
        rocks_params: None,
    }
}

fn manager() -> SpoolManager {
    let mut m = SpoolManager::new();
    m.new_local_disk(define("data", "/var/spool/data", SpoolKind::LocalDisk));
    m.new_local_disk(define("meta", "/var/spool/meta", SpoolKind::RocksDB));
    m
}

/// Does what a driver does with a message that is to leave the spools.
fn remove(mgr: &SpoolManager, stores: &mut [MemorySpool], id: SpoolId) {
    for removal in mgr.remove_from_spool_impl(id).unwrap() {
        stores[removal.handle.slot].remove(removal.id);
    }
}

fn seeded(id: SpoolId, received_at: u64) -> (SpoolManager, Vec<MemorySpool>) {
    let mgr = manager();
    let mut stores = vec![MemorySpool::new(), MemorySpool::new()];
    let msg = Message::new(id, received_at, "<a@x>".to_string(), vec!["<b@y>".to_string()]);
    stores[0].put(id, b"hello\r\n".to_vec());
    stores[1].put(id, msg.to_blob().unwrap());
    (mgr, stores)
}

#[test]
fn the_default_kind_is_the_local_disk() {
    assert_eq!(SpoolKind::default(), SpoolKind::LocalDisk);
    assert_eq!(ENUMERATION_CHANNEL_CAPACITY, 32);
    assert_eq!(CLEANUP_INTERVAL_SECONDS, 600);
}

#[test]
fn spools_are_found_by_name() {
    let m = manager();
    assert_eq!(m.get_named_impl("data"), Ok(SpoolHandle { slot: 0 }));
    assert_eq!(m.get_named_impl("meta"), Ok(SpoolHandle { slot: 1 }));
    assert_eq!(
        m.get_named_impl("other"),
        Err(SpoolError::NotDefined("other".to_string()))
    );
    let meta = m.definition(SpoolHandle { slot: 1 }).unwrap();
    assert_eq!(meta.name, "meta");
    assert_eq!(meta.path, "/var/spool/meta");
    assert_eq!(meta.kind, SpoolKind::RocksDB);
    assert!(m.definition(SpoolHandle { slot: 2 }).is_none());
    assert!(!m.spool_started());
}

#[test]
fn a_spool_defined_again_takes_the_place_of_the_first() {
    let mut m = manager();
    let h = m.new_local_disk(define("data", "/elsewhere", SpoolKind::RocksDB));
    assert_eq!(h, SpoolHandle { slot: 0 });
    assert_eq!(m.named.len(), 2);
    assert_eq!(m.named[0].path, "/elsewhere");
    assert_eq!(m.named[1].name, "meta");
    let h = m.new_local_disk(define("extra", "/x", SpoolKind::LocalDisk));
    assert_eq!(h, SpoolHandle { slot: 2 });
}

#[test]
fn nothing_starts_without_the_spools() {
    let mut m = SpoolManager::new();
    assert_eq!(m.start_spool(), Err(SpoolError::NoSpoolsDefined));
    m.new_local_disk(define("meta", "/m", SpoolKind::LocalDisk));
    assert_eq!(m.start_spool(), Err(SpoolError::NotDefined("data".to_string())));
    assert_eq!(
        m.remove_from_spool_impl(SpoolId { value: 1 }),
        Err(SpoolError::NotDefined("data".to_string()))
    );
    let mut m = SpoolManager::new();
    m.new_local_disk(define("data", "/d", SpoolKind::LocalDisk));
    assert_eq!(m.start_spool(), Err(SpoolError::NotDefined("meta".to_string())));
    assert_eq!(
        m.remove_from_spool_impl(SpoolId { value: 1 }),
        Err(SpoolError::NotDefined("meta".to_string()))
    );
}

#[test]
fn only_the_meta_spool_is_enumerated() {
    let mut m = manager();
    m.new_local_disk(define("extra", "/x", SpoolKind::LocalDisk));
    let plans = m.start_spool().unwrap();
    assert_eq!(plans.len(), 3);
    assert_eq!(plans[0].role, SpoolRole::Data);
    assert_eq!(plans[1].role, SpoolRole::Meta);
    assert_eq!(plans[2].role, SpoolRole::Other);
    assert_eq!(plans.iter().map(|p| p.enumerate).collect::<Vec<_>>(), vec![false, true, false]);
    assert_eq!(plans.iter().map(|p| p.handle.slot).collect::<Vec<_>>(), vec![0, 1, 2]);
    m.finish_start();
    assert!(m.spool_started());
}

#[test]
fn removal_takes_the_body_and_then_the_metadata() {
    let m = manager();
    let id = SpoolId { value: 42 };
    let removals = m.remove_from_spool_impl(id).unwrap();
    assert_eq!(removals.len(), 2);
    assert_eq!(removals[0].handle, SpoolHandle { slot: 0 });
    assert_eq!(removals[1].handle, SpoolHandle { slot: 1 });
    assert!(removals.iter().all(|r| r.id == id));
}

#[test]
fn a_store_gives_back_what_was_put_until_it_is_removed() {
    let mut s = MemorySpool::new();
    let a = SpoolId { value: 1 };
    let b = SpoolId { value: 2 };
    assert_eq!(s.get(a), None);
    s.put(a, vec![1, 2, 3]);
    s.put(b, vec![4]);
    assert_eq!(s.get(a), Some(vec![1, 2, 3]));
    assert_eq!(s.get(b), Some(vec![4]));
    s.put(a, vec![9]);
    assert_eq!(s.get(a), Some(vec![9]));
    assert_eq!(s.entries.len(), 2);
    assert!(s.remove(a));
    assert_eq!(s.get(a), None);
    assert_eq!(s.get(b), Some(vec![4]));
    assert!(!s.remove(a));
    assert_eq!(
        s.enumerate(),
        vec![SpoolEntry::Item { id: b, data: vec![4] }]
    );
}

#[test]
fn recovery_after_a_crash_schedules_a_delayed_attempt() {
    let id = SpoolId { value: 0xabc };
    let now = 1_700_000_000;
    let (mgr, mut stores) = seeded(id, now - 1800);
    let mut queues = QueueManager::new();
    let config = QueueConfig::new(3600, 60, None).unwrap();
    let entries = stores[1].enumerate();
    assert_eq!(entries.len(), 1);
    for entry in entries {
        match recover_entry(entry) {
            Recovery::Recovered(msg) => {
                assert_eq!(msg.id, id);
                assert_eq!(msg.recipients, vec!["<b@y>".to_string()]);
                let d = admit_recovered(&mut queues, msg, Ok("y".to_string()), Some(config), 4, now);
                assert!(d.records.is_empty());
                assert!(!d.remove_from_spool);
            }
            Recovery::Discard(_) => panic!("the blob holds a message"),
        }
    }
    let y = queues.find("y").unwrap();
    assert!(queues.queues[y].due.is_empty());
    assert_eq!(queues.queues[y].scheduled.len(), 1);
    let queued = &queues.queues[y].scheduled[0];
    // half an hour is five attempts of this schedule, the fifth due a minute from now
    assert_eq!(queued.num_attempts, 5);
    assert_eq!(queued.next_due, now + 60);
    assert!(stores[0].get(id).is_some());
    assert!(stores[1].get(id).is_some());
    let _ = mgr;
}

#[test]
fn recovery_expires_what_is_too_old() {
    let id = SpoolId { value: 0xabc };
    let now = 1_700_000_000;
    let (mgr, mut stores) = seeded(id, now - 7200);
    let mut queues = QueueManager::new();
    let config = QueueConfig::new(3600, 60, None).unwrap();
    let mut expirations = 0;
    for entry in stores[1].enumerate() {
        match recover_entry(entry) {
            Recovery::Recovered(msg) => {
                let d = admit_recovered(&mut queues, msg, Ok("y".to_string()), Some(config), 4, now);
                assert!(d.remove_from_spool);
                assert_eq!(d.records.len(), 1);
                let r = &d.records[0];
                assert_eq!(r.kind, RecordType::Expiration);
                assert_eq!(r.msg_id, id);
                assert_eq!(r.response.code, 551);
                assert_eq!(
                    r.response.enhanced_code,
                    Some(EnhancedStatusCode { class: 5, subject: 4, detail: 7 })
                );
                expirations += 1;
                remove(&mgr, &mut stores, id);
            }
            Recovery::Discard(_) => panic!("the blob holds a message"),
        }
    }
    assert_eq!(expirations, 1);
    assert_eq!(stores[0].get(id), None);
    assert_eq!(stores[1].get(id), None);
    assert!(!queues.contains(id));
    let y = queues.find("y").unwrap();
    assert!(queues.queues[y].scheduled.is_empty() && queues.queues[y].due.is_empty());
}

#[test]
fn recovery_discards_a_corrupt_record() {
    let id = SpoolId { value: 5 };
    let mgr = manager();
    let mut stores = vec![MemorySpool::new(), MemorySpool::new()];
    stores[0].put(id, b"body".to_vec());
    stores[1].put(id, b"not a blob".to_vec());
    let queues = QueueManager::new();
    let mut discarded = 0;
    for entry in stores[1].enumerate() {
        match recover_entry(entry) {
            Recovery::Discard(gone) => {
                assert_eq!(gone, id);
                discarded += 1;
                remove(&mgr, &mut stores, gone);
            }
            Recovery::Recovered(_) => panic!("the blob holds no message"),
        }
    }
    assert_eq!(discarded, 1);
    assert_eq!(stores[0].get(id), None);
    assert_eq!(stores[1].get(id), None);
    assert!(queues.queues.is_empty());
    // a record that the spool could not read goes the same way
    let unread = SpoolEntry::Corrupt { id, error: "short read".to_string() };
    assert_eq!(recover_entry(unread), Recovery::Discard(id));
}

#[test]
fn recovery_without_a_queue_name_expires_the_message() {
    let id = SpoolId { value: 1 };
    let mut queues = QueueManager::new();
    let msg = Message::new(id, 0, "<a@x>".to_string(), vec![]);
    let d = admit_recovered(&mut queues, msg, Err("no recipient".to_string()), None, 4, 10);
    assert!(d.remove_from_spool);
    assert_eq!(d.records.len(), 1);
    assert_eq!(d.records[0].kind, RecordType::Expiration);
    assert_eq!(d.records[0].response.code, 551);
    assert_eq!(
        d.records[0].response.enhanced_code,
        Some(EnhancedStatusCode { class: 5, subject: 1, detail: 3 })
    );
    assert!(queues.queues.is_empty());
}

#[test]
fn recovery_without_a_queue_removes_the_message() {
    let id = SpoolId { value: 1 };
    let mut queues = QueueManager::new();
    let msg = Message::new(id, 0, "<a@x>".to_string(), vec![]);
    let d = admit_recovered(&mut queues, msg, Ok("y".to_string()), None, 4, 10);
    assert!(d.remove_from_spool);
    assert!(d.records.is_empty());
    assert!(queues.queues.is_empty());
}

#[test]
fn recovery_removes_a_message_that_is_queued_already() {
    let id = SpoolId { value: 1 };
    let config = QueueConfig::new(3600, 60, None).unwrap();
    let mut queues = QueueManager::new();
    let first = Message::new(id, 0, "<a@x>".to_string(), vec![]);
    let d = admit_recovered(&mut queues, first, Ok("y".to_string()), Some(config), 4, 10);
    assert!(!d.remove_from_spool);
    let second = Message::new(id, 0, "<a@x>".to_string(), vec![]);
    let d = admit_recovered(&mut queues, second, Ok("z".to_string()), Some(config), 4, 10);
    assert!(d.remove_from_spool);
    assert!(d.records.is_empty());
    assert_eq!(queues.queues.len(), 2);
    assert!(queues.queues[1].scheduled.is_empty());
}

#[test]
fn recovery_never_lowers_the_number_of_attempts() {
    let id = SpoolId { value: 1 };
    let config = QueueConfig::new(3600, 60, None).unwrap();
    let mut queues = QueueManager::new();
    let mut msg = Message::new(id, 1000, "<a@x>".to_string(), vec![]);
    msg.num_attempts = 4;
    let d = admit_recovered(&mut queues, msg, Ok("y".to_string()), Some(config), 4, 1100);
    assert!(!d.remove_from_spool);
    let queued = &queues.queues[0].scheduled[0];
    // a hundred seconds stand for two attempts; the message had counted four
    assert_eq!(queued.num_attempts, 4);
    assert_eq!(queued.next_due, 1100 + (900 - 100));
}

#[test]
fn a_local_disk_spool_keeps_an_entry_under_two_levels() {
    let id = SpoolId { value: 0x0123_4567_89ab_cdef_0011_2233_4455_6677 };
    assert_eq!(id.to_text(), "0123456789abcdef0011223344556677");
    assert_eq!(
        spool_path("/var/spool/data", id),
        "/var/spool/data/01/23/0123456789abcdef0011223344556677"
    );
    assert_eq!(SpoolId { value: 0 }.to_text(), "0".repeat(32));
    assert_eq!(SpoolId { value: u128::MAX }.to_text(), "f".repeat(32));
    // the order of the texts is the order of the values
    let small = SpoolId { value: 0x9ff };
    let large = SpoolId { value: 0xa00 };
    assert!(small.to_text() < large.to_text());
}

#[test]
fn an_identifier_is_read_back_from_its_text() {
    for value in [0u128, 1, 0xabc, 0x0123_4567_89ab_cdef_0011_2233_4455_6677, u128::MAX] {
        let id = SpoolId { value };
        assert_eq!(SpoolId::from_text(&id.to_text()), Some(id));
    }
    assert_eq!(
        SpoolId::from_text("000000000000000000000000000000ff"),
        Some(SpoolId { value: 255 })
    );
    for text in [
        "",
        "ff",
        "000000000000000000000000000000f",
        "000000000000000000000000000000fff",
        "000000000000000000000000000000FF",
        "000000000000000000000000000000g0",
        "0000000000000000-000000000000000",
        " 0000000000000000000000000000000",
        "\u{e9}000000000000000000000000000000",
    ] {
        assert_eq!(SpoolId::from_text(text), None, "{text:?}");
    }
}
