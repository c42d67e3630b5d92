//! The metadata blob: what the meta spool holds for a message.
//!
//! A blob is a header, which names the format and its version, and then
//! fields. A field is a tag of one byte, the length of its payload in four
//! bytes, least significant first, and the payload. A reader takes the
//! fields in order; a field whose tag it does not know is kept as it is and
//! written back, so that a blob of a later version passes through unharmed.

use vstd::prelude::*;
use vstd::bytes::{
    lemma_auto_spec_u32_to_from_le_bytes, lemma_auto_spec_u64_to_from_le_bytes,
    spec_u32_from_le_bytes, spec_u32_to_le_bytes, spec_u64_from_le_bytes, spec_u64_to_le_bytes,
    u32_from_le_bytes, u32_to_le_bytes, u64_from_le_bytes, u64_to_le_bytes,
};
use vstd::slice::{slice_subrange, slice_to_vec};
use vstd::utf8::{
    decode_utf8, encode_utf8, valid_utf8, encode_utf8_valid_utf8, encode_utf8_decode_utf8,
};
use crate::message::{Message, MessageView, SpoolId};

verus! {

/// The tags of the fields that this version gives a meaning.
pub const TAG_RECEIVED_AT: u8 = 1;

pub const TAG_NUM_ATTEMPTS: u8 = 2;

pub const TAG_NEXT_DUE: u8 = 3;

pub const TAG_SENDER: u8 = 4;

pub const TAG_RECIPIENT: u8 = 5;

pub const TAG_META: u8 = 6;

/// The format's name, `META`, and its version.
pub open spec fn header() -> Seq<u8> {
    seq![0x4Du8, 0x45u8, 0x54u8, 0x41u8, 1u8]
}

/// Whether a tag is one that this version gives a meaning.
pub open spec fn is_known_tag(tag: u8) -> bool {
    1 <= tag <= 6
}

/// One field on the medium.
pub open spec fn frame_field(f: (u8, Seq<u8>)) -> Seq<u8> {
    seq![f.0] + spec_u32_to_le_bytes(f.1.len() as u32) + f.1
}

/// Fields on the medium, one after the other.
pub open spec fn frame(fs: Seq<(u8, Seq<u8>)>) -> Seq<u8>
    decreases fs.len(),
{
    if fs.len() == 0 {
        Seq::empty()
    } else {
        frame_field(fs[0]) + frame(fs.drop_first())
    }
}

/// The fields that `bytes` are made of, if they are fields to the last byte.
pub open spec fn fields_of(bytes: Seq<u8>) -> Option<Seq<(u8, Seq<u8>)>>
    decreases bytes.len(),
{
    if bytes.len() == 0 {
        Some(Seq::empty())
    } else if bytes.len() < 5 {
        None
    } else {
        let n = spec_u32_from_le_bytes(bytes.subrange(1, 5)) as int;
        if 5 + n > bytes.len() {
            None
        } else {
            match fields_of(bytes.skip(5 + n)) {
                Some(fs) => Some(seq![(bytes[0], bytes.subrange(5, 5 + n))] + fs),
                None => None,
            }
        }
    }
}

/// The text that `b` encodes in UTF-8.
pub open spec fn text_of_bytes(b: Seq<u8>) -> Option<Seq<char>> {
    if valid_utf8(b) {
        Some(decode_utf8(b))
    } else {
        None
    }
}

/// The payload of a note: the length of the name's encoding, the name, the value.
pub open spec fn pair_payload(p: (Seq<char>, Seq<char>)) -> Seq<u8> {
    spec_u32_to_le_bytes(encode_utf8(p.0).len() as u32) + encode_utf8(p.0) + encode_utf8(p.1)
}

/// The note that a payload holds.
pub open spec fn pair_of_payload(p: Seq<u8>) -> Option<(Seq<char>, Seq<char>)> {
    if p.len() < 4 {
        None
    } else {
        let n = spec_u32_from_le_bytes(p.subrange(0, 4)) as int;
        if 4 + n > p.len() {
            None
        } else {
            match (text_of_bytes(p.subrange(4, 4 + n)), text_of_bytes(p.skip(4 + n))) {
                (Some(k), Some(v)) => Some((k, v)),
                _ => None,
            }
        }
    }
}

/// A message about which nothing is known but its identifier.
pub open spec fn blank(id: SpoolId) -> MessageView {
    MessageView {
        id,
        received_at: 0,
        num_attempts: 0,
        next_due: 0,
        sender: Seq::empty(),
        recipients: Seq::empty(),
        meta: Seq::empty(),
        extra: Seq::empty(),
    }
}

/// What a message becomes when one more field is read.
pub open spec fn apply_field(m: MessageView, f: (u8, Seq<u8>)) -> Option<MessageView> {
    if f.0 == TAG_RECEIVED_AT {
        if f.1.len() == 8 {
            Some(MessageView { received_at: spec_u64_from_le_bytes(f.1), ..m })
        } else {
            None
        }
    } else if f.0 == TAG_NUM_ATTEMPTS {
        if f.1.len() == 8 {
            Some(MessageView { num_attempts: spec_u64_from_le_bytes(f.1), ..m })
        } else {
            None
        }
    } else if f.0 == TAG_NEXT_DUE {
        if f.1.len() == 8 {
            Some(MessageView { next_due: spec_u64_from_le_bytes(f.1), ..m })
        } else {
            None
        }
    } else if f.0 == TAG_SENDER {
        match text_of_bytes(f.1) {
            Some(t) => Some(MessageView { sender: t, ..m }),
            None => None,
        }
    } else if f.0 == TAG_RECIPIENT {
        match text_of_bytes(f.1) {
            Some(t) => Some(MessageView { recipients: m.recipients.push(t), ..m }),
            None => None,
        }
    } else if f.0 == TAG_META {
        match pair_of_payload(f.1) {
            Some(p) => Some(MessageView { meta: m.meta.push(p), ..m }),
            None => None,
        }
    } else {
        Some(MessageView { extra: m.extra.push(f), ..m })
    }
}

/// What a message becomes when fields are read in order.
pub open spec fn apply_fields(m: MessageView, fs: Seq<(u8, Seq<u8>)>) -> Option<MessageView>
    decreases fs.len(),
{
    if fs.len() == 0 {
        Some(m)
    } else {
        match apply_field(m, fs[0]) {
            Some(m2) => apply_fields(m2, fs.drop_first()),
            None => None,
        }
    }
}

/// Whether `blob` begins with the header of this format and version.
pub open spec fn has_header(blob: Seq<u8>) -> bool {
    blob.len() >= 5 && blob.subrange(0, 5) == header()
}

/// The message with identifier `id` that a blob holds.
pub open spec fn message_of(id: SpoolId, blob: Seq<u8>) -> Option<MessageView> {
    if has_header(blob) {
        match fields_of(blob.skip(5)) {
            Some(fs) => apply_fields(blank(id), fs),
            None => None,
        }
    } else {
        None
    }
}

/// The fields of the recipients, in order.
pub open spec fn recipient_fields(rs: Seq<Seq<char>>) -> Seq<(u8, Seq<u8>)> {
    rs.map_values(|r: Seq<char>| (TAG_RECIPIENT, encode_utf8(r)))
}

/// The fields of the notes, in order.
pub open spec fn meta_fields(ps: Seq<(Seq<char>, Seq<char>)>) -> Seq<(u8, Seq<u8>)> {
    ps.map_values(|p: (Seq<char>, Seq<char>)| (TAG_META, pair_payload(p)))
}

/// The fields of a message, in the order in which they are written.
pub open spec fn fields_for(m: MessageView) -> Seq<(u8, Seq<u8>)> {
    seq![
        (TAG_RECEIVED_AT, spec_u64_to_le_bytes(m.received_at)),
        (TAG_NUM_ATTEMPTS, spec_u64_to_le_bytes(m.num_attempts)),
        (TAG_NEXT_DUE, spec_u64_to_le_bytes(m.next_due)),
        (TAG_SENDER, encode_utf8(m.sender)),
    ] + recipient_fields(m.recipients) + meta_fields(m.meta) + m.extra
}

/// The blob of a message.
pub open spec fn blob_of(m: MessageView) -> Seq<u8> {
    header() + frame(fields_for(m))
}

/// Every payload is short enough for its length to be written.
pub open spec fn payloads_fit(fs: Seq<(u8, Seq<u8>)>) -> bool {
    forall|i: int| 0 <= i < fs.len() ==> (#[trigger] fs[i]).1.len() <= u32::MAX
}

/// The messages that have a blob: every field is short enough for its
/// length to be written, and the fields that were kept unread have tags
/// without a meaning.
pub open spec fn encodable(m: MessageView) -> bool {
    &&& payloads_fit(fields_for(m))
    &&& forall|i: int| 0 <= i < m.meta.len() ==> encode_utf8((#[trigger] m.meta[i]).0).len() <= u32::MAX
    &&& forall|i: int| 0 <= i < m.extra.len() ==> !is_known_tag((#[trigger] m.extra[i]).0)
}

/// Fields that were written are read back.
pub proof fn lemma_fields_of_frame(fs: Seq<(u8, Seq<u8>)>)
    requires
        payloads_fit(fs),
    ensures
        fields_of(frame(fs)) == Some(fs),
    decreases fs.len(),
{
    lemma_auto_spec_u32_to_from_le_bytes();
    if fs.len() == 0 {
        assert(fs =~= Seq::empty());
    } else {
        let f = fs[0];
        let rest = fs.drop_first();
        let n = f.1.len() as int;
        let bytes = frame(fs);
        let len = spec_u32_to_le_bytes(n as u32);
        assert(bytes =~= seq![f.0] + len + f.1 + frame(rest));
        assert(bytes.subrange(1, 5) =~= len);
        assert(bytes.subrange(5, 5 + n) =~= f.1);
        assert(bytes.skip(5 + n) =~= frame(rest));
        assert forall|i: int| 0 <= i < rest.len() implies (#[trigger] rest[i]).1.len()
            <= u32::MAX by {
            assert(rest[i] == fs[i + 1]);
        }
        lemma_fields_of_frame(rest);
        assert(seq![(bytes[0], f.1)] + rest =~= fs);
    }
}

/// Reading fields one list after another is reading the two lists in a row.
pub proof fn lemma_apply_concat(m: MessageView, a: Seq<(u8, Seq<u8>)>, b: Seq<(u8, Seq<u8>)>)
    ensures
        apply_fields(m, a + b) == match apply_fields(m, a) {
            Some(m2) => apply_fields(m2, b),
            None => None,
        },
    decreases a.len(),
{
    if a.len() == 0 {
        assert(a + b =~= b);
    } else {
        assert((a + b)[0] == a[0]);
        assert((a + b).drop_first() =~= a.drop_first() + b);
        match apply_field(m, a[0]) {
            Some(m2) => lemma_apply_concat(m2, a.drop_first(), b),
            None => {},
        }
    }
}

/// Reading a single field.
pub proof fn lemma_apply_single(m: MessageView, f: (u8, Seq<u8>))
    ensures
        apply_fields(m, seq![f]) == apply_field(m, f),
{
    let fs = seq![f];
    assert(fs[0] == f);
    assert(fs.drop_first() =~= Seq::<(u8, Seq<u8>)>::empty());
    match apply_field(m, f) {
        Some(m2) => {
            assert(apply_fields(m2, fs.drop_first()) == Some(m2));
        },
        None => {},
    }
}

/// A text that was written is read back.
pub proof fn lemma_text_round_trip(t: Seq<char>)
    ensures
        text_of_bytes(encode_utf8(t)) == Some(t),
{
    encode_utf8_valid_utf8(t);
    encode_utf8_decode_utf8(t);
}

/// A note that was written is read back.
pub proof fn lemma_pair_round_trip(p: (Seq<char>, Seq<char>))
    requires
        encode_utf8(p.0).len() <= u32::MAX,
    ensures
        pair_of_payload(pair_payload(p)) == Some(p),
{
    lemma_auto_spec_u32_to_from_le_bytes();
    let k = encode_utf8(p.0);
    let v = encode_utf8(p.1);
    let n = k.len() as int;
    let len = spec_u32_to_le_bytes(n as u32);
    let bytes = pair_payload(p);
    assert(bytes.subrange(0, 4) =~= len);
    assert(bytes.subrange(4, 4 + n) =~= k);
    assert(bytes.skip(4 + n) =~= v);
    lemma_text_round_trip(p.0);
    lemma_text_round_trip(p.1);
}

/// Reading the recipient fields adds the recipients, in order.
pub proof fn lemma_apply_recipients(m: MessageView, rs: Seq<Seq<char>>)
    ensures
        apply_fields(m, recipient_fields(rs)) == Some(
            MessageView { recipients: m.recipients + rs, ..m },
        ),
    decreases rs.len(),
{
    let fs = recipient_fields(rs);
    if rs.len() == 0 {
        assert(m.recipients + rs =~= m.recipients);
    } else {
        lemma_text_round_trip(rs[0]);
        let m2 = MessageView { recipients: m.recipients.push(rs[0]), ..m };
        assert(fs.drop_first() =~= recipient_fields(rs.drop_first()));
        lemma_apply_recipients(m2, rs.drop_first());
        assert(m2.recipients + rs.drop_first() =~= m.recipients + rs);
    }
}

/// Reading the note fields adds the notes, in order.
pub proof fn lemma_apply_meta(m: MessageView, ps: Seq<(Seq<char>, Seq<char>)>)
    requires
        forall|i: int| 0 <= i < ps.len() ==> encode_utf8((#[trigger] ps[i]).0).len() <= u32::MAX,
    ensures
        apply_fields(m, meta_fields(ps)) == Some(MessageView { meta: m.meta + ps, ..m }),
    decreases ps.len(),
{
    let fs = meta_fields(ps);
    if ps.len() == 0 {
        assert(m.meta + ps =~= m.meta);
    } else {
        lemma_pair_round_trip(ps[0]);
        let m2 = MessageView { meta: m.meta.push(ps[0]), ..m };
        let rest = ps.drop_first();
        assert(fs.drop_first() =~= meta_fields(rest));
        assert forall|i: int| 0 <= i < rest.len() implies encode_utf8((#[trigger] rest[i]).0).len()
            <= u32::MAX by {
            assert(rest[i] == ps[i + 1]);
        }
        lemma_apply_meta(m2, rest);
        assert(m2.meta + rest =~= m.meta + ps);
    }
}

/// Reading fields without a meaning keeps them, in order.
pub proof fn lemma_apply_extra(m: MessageView, fs: Seq<(u8, Seq<u8>)>)
    requires
        forall|i: int| 0 <= i < fs.len() ==> !is_known_tag((#[trigger] fs[i]).0),
    ensures
        apply_fields(m, fs) == Some(MessageView { extra: m.extra + fs, ..m }),
    decreases fs.len(),
{
    if fs.len() == 0 {
        assert(m.extra + fs =~= m.extra);
    } else {
        assert(!is_known_tag(fs[0].0));
        let m2 = MessageView { extra: m.extra.push(fs[0]), ..m };
        let rest = fs.drop_first();
        assert forall|i: int| 0 <= i < rest.len() implies !is_known_tag((#[trigger] rest[i]).0) by {
            assert(rest[i] == fs[i + 1]);
        }
        lemma_apply_extra(m2, rest);
        assert(m2.extra + rest =~= m.extra + fs);
    }
}

/// Reading the fields of a message gives the message.
pub proof fn lemma_apply_fields_for(m: MessageView)
    requires
        encodable(m),
    ensures
        apply_fields(blank(m.id), fields_for(m)) == Some(m),
{
    lemma_auto_spec_u64_to_from_le_bytes();
    let f1 = (TAG_RECEIVED_AT, spec_u64_to_le_bytes(m.received_at));
    let f2 = (TAG_NUM_ATTEMPTS, spec_u64_to_le_bytes(m.num_attempts));
    let f3 = (TAG_NEXT_DUE, spec_u64_to_le_bytes(m.next_due));
    let f4 = (TAG_SENDER, encode_utf8(m.sender));
    let head = seq![f1, f2, f3, f4];
    let b0 = blank(m.id);
    let b1 = MessageView { received_at: m.received_at, ..b0 };
    let b2 = MessageView { num_attempts: m.num_attempts, ..b1 };
    let b3 = MessageView { next_due: m.next_due, ..b2 };
    let b4 = MessageView { sender: m.sender, ..b3 };
    lemma_text_round_trip(m.sender);
    assert(apply_field(b0, f1) == Some(b1));
    assert(apply_field(b1, f2) == Some(b2));
    assert(apply_field(b2, f3) == Some(b3));
    assert(apply_field(b3, f4) == Some(b4));
    assert(head =~= seq![f1] + seq![f2, f3, f4]);
    assert(seq![f2, f3, f4] =~= seq![f2] + seq![f3, f4]);
    assert(seq![f3, f4] =~= seq![f3] + seq![f4]);
    lemma_apply_concat(b0, seq![f1], seq![f2, f3, f4]);
    lemma_apply_concat(b1, seq![f2], seq![f3, f4]);
    lemma_apply_concat(b2, seq![f3], seq![f4]);
    lemma_apply_single(b0, f1);
    lemma_apply_single(b1, f2);
    lemma_apply_single(b2, f3);
    lemma_apply_single(b3, f4);
    assert(apply_fields(b0, head) == Some(b4));
    let rf = recipient_fields(m.recipients);
    let mf = meta_fields(m.meta);
    lemma_apply_recipients(b4, m.recipients);
    let b5 = MessageView { recipients: b4.recipients + m.recipients, ..b4 };
    lemma_apply_meta(b5, m.meta);
    let b6 = MessageView { meta: b5.meta + m.meta, ..b5 };
    lemma_apply_extra(b6, m.extra);
    let b7 = MessageView { extra: b6.extra + m.extra, ..b6 };
    lemma_apply_concat(b0, head, rf);
    lemma_apply_concat(b0, head + rf, mf);
    lemma_apply_concat(b0, head + rf + mf, m.extra);
    assert(b7.recipients =~= m.recipients);
    assert(b7.meta =~= m.meta);
    assert(b7.extra =~= m.extra);
    assert(b7 == m);
}

/// The metadata blob of a message is read back as the message: nothing of
/// it is lost on the way through the spool, the fields of later versions
/// included.
pub proof fn blob_round_trip(m: MessageView)
    requires
        encodable(m),
    ensures
        message_of(m.id, blob_of(m)) == Some(m),
{
    let blob = blob_of(m);
    assert(blob.subrange(0, 5) =~= header());
    assert(blob.skip(5) =~= frame(fields_for(m)));
    lemma_fields_of_frame(fields_for(m));
    lemma_apply_fields_for(m);
}

/// Why a blob could not be read or written.
#[derive(Debug, Clone, Copy, PartialEq, Eq, Structural)]
pub enum BlobError {
    /// The blob does not begin with the header of this format and version.
    BadHeader,
    /// The blob has the header, but what follows is not fields to the last
    /// byte, or a field does not hold what its tag stands for.
    Malformed,
    /// The message has a field too long for its length to be written, or
    /// keeps a field under a tag that has a meaning.
    NotEncodable,
}

/// `String::from_utf8` of the standard library: the string that `bytes`
/// encode in UTF-8, and `None` exactly when they encode none.
#[verifier::external_body]
fn string_from_utf8(bytes: Vec<u8>) -> (r: Option<String>)
    ensures
        r is Some <==> valid_utf8(bytes@),
        r is Some ==> r.unwrap()@ == decode_utf8(bytes@),
{
    String::from_utf8(bytes).ok()
}

/// The text that `bytes` encode in UTF-8.
pub fn text_from_bytes(bytes: &[u8]) -> (r: Option<String>)
    ensures
        match r {
            Some(s) => text_of_bytes(bytes@) == Some(s@),
            None => text_of_bytes(bytes@) is None,
        },
{
    string_from_utf8(slice_to_vec(bytes))
}

/// Appends `src` to `out`.
pub fn append_bytes(out: &mut Vec<u8>, src: &[u8])
    ensures
        final(out)@ == old(out)@ + src@,
{
    let ghost start = out@;
    let mut i: usize = 0;
    while i < src.len()
        invariant
            i <= src@.len(),
            out@ == start + src@.subrange(0, i as int),
        decreases src@.len() - i,
    {
        out.push(src[i]);
        assert(out@ =~= start + src@.subrange(0, i + 1));
        i += 1;
    }
    assert(src@.subrange(0, src@.len() as int) =~= src@);
}

/// Appends one field to `out`, unless its payload is too long for its
/// length to be written.
pub fn append_field(out: &mut Vec<u8>, tag: u8, payload: &[u8]) -> (ok: bool)
    ensures
        ok == (payload@.len() <= u32::MAX),
        ok ==> final(out)@ == old(out)@ + frame_field((tag, payload@)),
        !ok ==> final(out)@ == old(out)@,
{
    if payload.len() > u32::MAX as usize {
        return false;
    }
    let ghost start = out@;
    let len = u32_to_le_bytes(payload.len() as u32);
    out.push(tag);
    append_bytes(out, len.as_slice());
    append_bytes(out, payload);
    assert(out@ =~= start + frame_field((tag, payload@)));
    true
}

/// Writing one more field.
pub proof fn lemma_frame_push(fs: Seq<(u8, Seq<u8>)>, f: (u8, Seq<u8>))
    ensures
        frame(fs.push(f)) == frame(fs) + frame_field(f),
    decreases fs.len(),
{
    let all = fs.push(f);
    if fs.len() == 0 {
        let none = Seq::<(u8, Seq<u8>)>::empty();
        assert(all[0] == f);
        assert(all.drop_first() =~= none);
        assert(frame(none) =~= Seq::<u8>::empty());
        assert(frame(fs) =~= Seq::<u8>::empty());
        assert(frame(all) =~= frame(fs) + frame_field(f));
    } else {
        assert(all[0] == fs[0]);
        assert(all.drop_first() =~= fs.drop_first().push(f));
        lemma_frame_push(fs.drop_first(), f);
        assert(frame(all) =~= frame(fs) + frame_field(f));
    }
}

/// The payload of a note, unless the name is too long for its length to be
/// written.
pub fn note_payload(name: &String, value: &String) -> (r: Option<Vec<u8>>)
    ensures
        r is Some <==> encode_utf8(name@).len() <= u32::MAX,
        r is Some ==> r.unwrap()@ == pair_payload((name@, value@)),
{
    let k = name.as_str().as_bytes();
    let v = value.as_str().as_bytes();
    if k.len() > u32::MAX as usize {
        return None;
    }
    let mut out = u32_to_le_bytes(k.len() as u32);
    append_bytes(&mut out, k);
    append_bytes(&mut out, v);
    assert(out@ =~= pair_payload((name@, value@)));
    Some(out)
}

/// The note that a payload holds.
pub fn note_from_payload(p: &[u8]) -> (r: Option<(String, String)>)
    ensures
        match r {
            Some(n) => pair_of_payload(p@) == Some((n.0@, n.1@)),
            None => pair_of_payload(p@) is None,
        },
{
    if p.len() < 4 {
        return None;
    }
    let n = u32_from_le_bytes(slice_subrange(p, 0, 4)) as usize;
    if n > p.len() - 4 {
        return None;
    }
    assert(p@.skip(4 + n) =~= p@.subrange(4 + n, p@.len() as int));
    let name = text_from_bytes(slice_subrange(p, 4, 4 + n));
    let value = text_from_bytes(slice_subrange(p, 4 + n, p.len()));
    match (name, value) {
        (Some(k), Some(v)) => Some((k, v)),
        _ => None,
    }
}

impl Message {
    /// The metadata blob of the message, if it has one.
    pub fn to_blob(&self) -> (r: Result<Vec<u8>, BlobError>)
        ensures
            match r {
                Ok(v) => encodable(self@) && v@ == blob_of(self@),
                Err(e) => e == BlobError::NotEncodable && !encodable(self@),
            },
    {
        let ghost m = self@;
        let ghost fs = fields_for(m);
        let ghost nr = m.recipients.len() as int;
        let ghost nm = m.meta.len() as int;
        let ghost nx = m.extra.len() as int;
        proof {
            lemma_auto_spec_u32_to_from_le_bytes();
            lemma_auto_spec_u64_to_from_le_bytes();
            assert(fs.len() == 4 + nr + nm + nx);
        }
        let mut out: Vec<u8> = Vec::new();
        out.push(0x4D);
        out.push(0x45);
        out.push(0x54);
        out.push(0x41);
        out.push(1);
        assert(out@ =~= header() + frame(fs.take(0))) by {
            assert(fs.take(0) =~= Seq::<(u8, Seq<u8>)>::empty());
        }
        let received = u64_to_le_bytes(self.received_at);
        let attempts = u64_to_le_bytes(self.num_attempts);
        let due = u64_to_le_bytes(self.next_due);
        let sender = self.sender.as_str().as_bytes();
        append_field(&mut out, TAG_RECEIVED_AT, received.as_slice());
        proof {
            assert(fs.take(1) =~= fs.take(0).push(fs[0]));
            lemma_frame_push(fs.take(0), fs[0]);
        }
        append_field(&mut out, TAG_NUM_ATTEMPTS, attempts.as_slice());
        proof {
            assert(fs.take(2) =~= fs.take(1).push(fs[1]));
            lemma_frame_push(fs.take(1), fs[1]);
        }
        append_field(&mut out, TAG_NEXT_DUE, due.as_slice());
        proof {
            assert(fs.take(3) =~= fs.take(2).push(fs[2]));
            lemma_frame_push(fs.take(2), fs[2]);
        }
        assert(out@ =~= header() + frame(fs.take(3)));
        if !append_field(&mut out, TAG_SENDER, sender) {
            assert(fs[3].1.len() > u32::MAX);
            return Err(BlobError::NotEncodable);
        }
        proof {
            assert(fs.take(4) =~= fs.take(3).push(fs[3]));
            lemma_frame_push(fs.take(3), fs[3]);
        }
        assert(out@ =~= header() + frame(fs.take(4)));
        let mut i: usize = 0;
        while i < self.recipients.len()
            invariant
                m == self@,
                fs == fields_for(m),
                nr == m.recipients.len(),
                nr == self.recipients@.len(),
                fs.len() == 4 + nr + nm + nx,
                0 <= i <= nr,
                out@ == header() + frame(fs.take(4 + i)),
                forall|t: int| 0 <= t < 4 + i ==> (#[trigger] fs[t]).1.len() <= u32::MAX,
            decreases nr - i,
        {
            let r = self.recipients[i].as_str().as_bytes();
            proof {
                assert(m.recipients[i as int] == self.recipients@[i as int]@);
                assert(fs[4 + i] == (TAG_RECIPIENT, encode_utf8(m.recipients[i as int])));
                assert(fs.take(4 + i + 1) =~= fs.take(4 + i).push(fs[4 + i]));
                lemma_frame_push(fs.take(4 + i), fs[4 + i]);
            }
            if !append_field(&mut out, TAG_RECIPIENT, r) {
                assert(fs[4 + i].1.len() > u32::MAX);
                return Err(BlobError::NotEncodable);
            }
            i += 1;
        }
        let mut j: usize = 0;
        while j < self.meta.len()
            invariant
                m == self@,
                fs == fields_for(m),
                nr == m.recipients.len(),
                nm == m.meta.len(),
                nm == self.meta@.len(),
                fs.len() == 4 + nr + nm + nx,
                0 <= j <= nm,
                out@ == header() + frame(fs.take(4 + nr + j)),
                forall|t: int| 0 <= t < 4 + nr + j ==> (#[trigger] fs[t]).1.len() <= u32::MAX,
                forall|t: int| 0 <= t < j ==> encode_utf8((#[trigger] m.meta[t]).0).len() <= u32::MAX,
            decreases nm - j,
        {
            let ghost at = 4 + nr + j;
            proof {
                assert(m.meta[j as int] == (self.meta@[j as int].0@, self.meta@[j as int].1@));
                assert(fs[at] == (TAG_META, pair_payload(m.meta[j as int])));
                assert(fs.take(at + 1) =~= fs.take(at).push(fs[at]));
                lemma_frame_push(fs.take(at), fs[at]);
            }
            match note_payload(&self.meta[j].0, &self.meta[j].1) {
                Some(p) => {
                    if !append_field(&mut out, TAG_META, p.as_slice()) {
                        assert(fs[at].1.len() > u32::MAX);
                        return Err(BlobError::NotEncodable);
                    }
                },
                None => {
                    return Err(BlobError::NotEncodable);
                },
            }
            j += 1;
        }
        let mut k: usize = 0;
        while k < self.extra.len()
            invariant
                m == self@,
                fs == fields_for(m),
                nr == m.recipients.len(),
                nm == m.meta.len(),
                nx == m.extra.len(),
                nx == self.extra@.len(),
                fs.len() == 4 + nr + nm + nx,
                0 <= k <= nx,
                out@ == header() + frame(fs.take(4 + nr + nm + k)),
                forall|t: int|
                    0 <= t < 4 + nr + nm + k ==> (#[trigger] fs[t]).1.len() <= u32::MAX,
                forall|t: int| 0 <= t < nm ==> encode_utf8((#[trigger] m.meta[t]).0).len() <= u32::MAX,
                forall|t: int| 0 <= t < k ==> !is_known_tag((#[trigger] m.extra[t]).0),
            decreases nx - k,
        {
            let ghost at = 4 + nr + nm + k;
            let tag = self.extra[k].0;
            proof {
                assert(m.extra[k as int] == (self.extra@[k as int].0, self.extra@[k as int].1@));
                assert(fs[at] == m.extra[k as int]);
                assert(fs.take(at + 1) =~= fs.take(at).push(fs[at]));
                lemma_frame_push(fs.take(at), fs[at]);
            }
            if tag >= 1 && tag <= 6 {
                return Err(BlobError::NotEncodable);
            }
            if !append_field(&mut out, tag, self.extra[k].1.as_slice()) {
                assert(fs[at].1.len() > u32::MAX);
                return Err(BlobError::NotEncodable);
            }
            k += 1;
        }
        assert(fs.take(fs.len() as int) =~= fs);
        Ok(out)
    }

    /// The message with identifier `id` that the metadata blob `data` holds.
    pub fn new_from_spool(id: SpoolId, data: &[u8]) -> (r: Result<Message, BlobError>)
        ensures
            match r {
                Ok(m) => message_of(id, data@) == Some(m@),
                Err(BlobError::BadHeader) => !has_header(data@),
                Err(_) => has_header(data@) && message_of(id, data@) is None,
            },
            r != Err::<Message, BlobError>(BlobError::NotEncodable),
    {
        let n = data.len();
        if n < 5 {
            return Err(BlobError::BadHeader);
        }
        if data[0] != 0x4D || data[1] != 0x45 || data[2] != 0x54 || data[3] != 0x41 || data[4]
            != 1 {
            assert(data@.subrange(0, 5)[0] == data@[0]);
            assert(data@.subrange(0, 5)[1] == data@[1]);
            assert(data@.subrange(0, 5)[2] == data@[2]);
            assert(data@.subrange(0, 5)[3] == data@[3]);
            assert(data@.subrange(0, 5)[4] == data@[4]);
            return Err(BlobError::BadHeader);
        }
        assert(data@.subrange(0, 5) =~= header());
        let mut m = Message {
            id,
            received_at: 0,
            num_attempts: 0,
            next_due: 0,
            sender: String::new(),
            recipients: Vec::new(),
            meta: Vec::new(),
            extra: Vec::new(),
        };
        assert(m@ == blank(id)) by {
            assert(m@.sender =~= Seq::<char>::empty());
            assert(m@.recipients =~= Seq::<Seq<char>>::empty());
            assert(m@.meta =~= Seq::<(Seq<char>, Seq<char>)>::empty());
            assert(m@.extra =~= Seq::<(u8, Seq<u8>)>::empty());
        }
        let mut i: usize = 5;
        loop
            invariant
                5 <= i <= n,
                n == data@.len(),
                has_header(data@),
                m.id == id,
                message_of(id, data@) == match fields_of(data@.skip(i as int)) {
                    Some(fs) => apply_fields(m@, fs),
                    None => None,
                },
            decreases n - i,
        {
            let ghost rest = data@.skip(i as int);
            let ghost before = m@;
            if i == n {
                return Ok(m);
            }
            if n - i < 5 {
                return Err(BlobError::Malformed);
            }
            let tag = data[i];
            assert(rest[0] == tag);
            assert(rest.subrange(1, 5) =~= data@.subrange(i + 1, i + 5));
            let len = u32_from_le_bytes(slice_subrange(data, i + 1, i + 5)) as usize;
            if len > n - i - 5 {
                return Err(BlobError::Malformed);
            }
            let payload = slice_subrange(data, i + 5, i + 5 + len);
            assert(rest.subrange(5, 5 + len) =~= payload@);
            assert(rest.skip(5 + len) =~= data@.skip(i + 5 + len));
            let ghost f = (tag, payload@);
            proof {
                match fields_of(data@.skip(i + 5 + len)) {
                    Some(more) => {
                        let fs = seq![f] + more;
                        assert(fs[0] == f);
                        assert(fs.drop_first() =~= more);
                    },
                    None => {},
                }
            }
            if tag == TAG_RECEIVED_AT {
                if len != 8 {
                    return Err(BlobError::Malformed);
                }
                m.received_at = u64_from_le_bytes(payload);
            } else if tag == TAG_NUM_ATTEMPTS {
                if len != 8 {
                    return Err(BlobError::Malformed);
                }
                m.num_attempts = u64_from_le_bytes(payload);
            } else if tag == TAG_NEXT_DUE {
                if len != 8 {
                    return Err(BlobError::Malformed);
                }
                m.next_due = u64_from_le_bytes(payload);
            } else if tag == TAG_SENDER {
                match text_from_bytes(payload) {
                    Some(t) => {
                        m.sender = t;
                    },
                    None => {
                        return Err(BlobError::Malformed);
                    },
                }
            } else if tag == TAG_RECIPIENT {
                match text_from_bytes(payload) {
                    Some(t) => {
                        m.recipients.push(t);
                        assert(m@.recipients =~= before.recipients.push(t@));
                    },
                    None => {
                        return Err(BlobError::Malformed);
                    },
                }
            } else if tag == TAG_META {
                match note_from_payload(payload) {
                    Some(p) => {
                        let ghost pv = (p.0@, p.1@);
                        m.meta.push(p);
                        assert(m@.meta =~= before.meta.push(pv));
                    },
                    None => {
                        return Err(BlobError::Malformed);
                    },
                }
            } else {
                m.extra.push((tag, slice_to_vec(payload)));
                assert(m@.extra =~= before.extra.push(f));
            }
            assert(apply_field(before, f) == Some(m@));
            i = i + 5 + len;
        }
    }
}

} // verus!
