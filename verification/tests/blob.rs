use mta_core::blob::BlobError;
use mta_core::message::{Message, SpoolId};

fn sample() -> Message {
    let mut m = Message::new(
        SpoolId { value: 7 },
        1_700_000_000,
        "<a@x>".to_string(),
        vec!["<b@y>".to_string(), "<Postmaster>".to_string()],
    );
    m.num_attempts = 3;
    m.next_due = 1_700_000_600;
    m.meta.push(("queue".to_string(), "y".to_string()));
    m.meta.push(("caf\u{e9}".to_string(), "\u{1f600}".to_string()));
    m
}

#[test]
fn a_message_comes_back_from_its_blob() {
    let m = sample();
    let blob = m.to_blob().unwrap();
    assert_eq!(Message::new_from_spool(m.id, &blob), Ok(m));
}

#[test]
fn an_empty_message_comes_back_from_its_blob() {
    let m = Message::new(SpoolId { value: u128::MAX }, 0, String::new(), vec![]);
    let blob = m.to_blob().unwrap();
    assert_eq!(Message::new_from_spool(m.id, &blob), Ok(m));
}

#[test]
fn the_blob_is_a_header_and_fields() {
    let m = Message::new(SpoolId { value: 1 }, 258, "<>".to_string(), vec!["<b@y>".to_string()]);
    let blob = m.to_blob().unwrap();
    let mut expected: Vec<u8> = vec![0x4D, 0x45, 0x54, 0x41, 1];
    expected.extend([1, 8, 0, 0, 0, 2, 1, 0, 0, 0, 0, 0, 0]);
    expected.extend([2, 8, 0, 0, 0, 0, 0, 0, 0, 0, 0, 0, 0]);
    expected.extend([3, 8, 0, 0, 0, 2, 1, 0, 0, 0, 0, 0, 0]);
    expected.extend([4, 2, 0, 0, 0, b'<', b'>']);
    expected.extend([5, 5, 0, 0, 0, b'<', b'b', b'@', b'y', b'>']);
    assert_eq!(blob, expected);
}

#[test]
fn a_note_is_a_name_with_its_length_and_a_value() {
    let mut m = Message::new(SpoolId { value: 1 }, 0, String::new(), vec![]);
    m.meta.push(("ab".to_string(), "xyz".to_string()));
    let blob = m.to_blob().unwrap();
    let tail = &blob[blob.len() - 14..];
    assert_eq!(tail, [6, 9, 0, 0, 0, 2, 0, 0, 0, b'a', b'b', b'x', b'y', b'z']);
}

#[test]
fn fields_of_a_later_version_pass_through() {
    let mut blob = sample().to_blob().unwrap();
    blob.extend([200, 3, 0, 0, 0, 9, 8, 7]);
    blob.extend([0, 0, 0, 0, 0]);
    let m = Message::new_from_spool(SpoolId { value: 7 }, &blob).unwrap();
    assert_eq!(m.extra, vec![(200u8, vec![9u8, 8, 7]), (0u8, vec![])]);
    assert_eq!(m.num_attempts, 3);
    assert_eq!(m.to_blob().unwrap(), blob);
}

#[test]
fn a_blob_without_the_header_is_refused() {
    let id = SpoolId { value: 1 };
    assert_eq!(Message::new_from_spool(id, &[]), Err(BlobError::BadHeader));
    assert_eq!(Message::new_from_spool(id, b"META"), Err(BlobError::BadHeader));
    assert_eq!(Message::new_from_spool(id, b"META\x02"), Err(BlobError::BadHeader));
    assert_eq!(Message::new_from_spool(id, b"meta\x01"), Err(BlobError::BadHeader));
    assert_eq!(Message::new_from_spool(id, b"{\"sender\":\"a\"}"), Err(BlobError::BadHeader));
    let blank = Message::new_from_spool(id, b"META\x01").unwrap();
    assert_eq!(blank.id, id);
    assert_eq!(blank.sender, "");
    assert_eq!(blank.received_at, 0);
}

#[test]
fn a_blob_with_broken_fields_is_refused() {
    let id = SpoolId { value: 1 };
    let with = |tail: &[u8]| {
        let mut v = b"META\x01".to_vec();
        v.extend_from_slice(tail);
        Message::new_from_spool(id, &v)
    };
    // a field cut short
    assert_eq!(with(&[1]), Err(BlobError::Malformed));
    assert_eq!(with(&[1, 8, 0, 0]), Err(BlobError::Malformed));
    assert_eq!(with(&[1, 8, 0, 0, 0, 1, 2, 3]), Err(BlobError::Malformed));
    assert_eq!(with(&[9, 255, 255, 255, 255]), Err(BlobError::Malformed));
    // a number that is not eight bytes
    assert_eq!(with(&[1, 2, 0, 0, 0, 1, 2]), Err(BlobError::Malformed));
    assert_eq!(with(&[2, 0, 0, 0, 0]), Err(BlobError::Malformed));
    assert_eq!(with(&[3, 9, 0, 0, 0, 1, 2, 3, 4, 5, 6, 7, 8, 9]), Err(BlobError::Malformed));
    // a text that is not UTF-8
    assert_eq!(with(&[4, 1, 0, 0, 0, 0xff]), Err(BlobError::Malformed));
    assert_eq!(with(&[5, 2, 0, 0, 0, 0xc3, 0x28]), Err(BlobError::Malformed));
    // a note without room for its name
    assert_eq!(with(&[6, 3, 0, 0, 0, 1, 0, 0]), Err(BlobError::Malformed));
    assert_eq!(with(&[6, 5, 0, 0, 0, 2, 0, 0, 0, b'a']), Err(BlobError::Malformed));
    assert_eq!(with(&[6, 5, 0, 0, 0, 1, 0, 0, 0, 0xff]), Err(BlobError::Malformed));
    // texts come back as what their bytes encode
    let ok = with(&[4, 3, 0, 0, 0, 0xe2, 0x82, 0xac, 5, 1, 0, 0, 0, b'r']).unwrap();
    assert_eq!(ok.sender, "\u{20ac}");
    assert_eq!(ok.recipients, vec!["r".to_string()]);
    // the last of a repeated field holds
    let twice = with(&[2, 8, 0, 0, 0, 1, 0, 0, 0, 0, 0, 0, 0, 2, 8, 0, 0, 0, 2, 0, 0, 0, 0, 0, 0, 0]);
    assert_eq!(twice.unwrap().num_attempts, 2);
}

#[test]
fn a_kept_field_with_a_known_tag_cannot_be_written() {
    let mut m = sample();
    m.extra.push((4, vec![1, 2, 3]));
    assert_eq!(m.to_blob(), Err(BlobError::NotEncodable));
    let mut m = sample();
    m.extra.push((7, vec![1, 2, 3]));
    assert!(m.to_blob().is_ok());
}
