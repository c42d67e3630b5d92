//! What the HTTP client of the scripts computes by itself: where a walk
//! over the headers of a response goes on, and what of a built MIME message
//! becomes the body of a request.

use vstd::prelude::*;
use crate::command::texts_of;

verus! {

/// Whether `at` is where the header that follows `key` stands: right after
/// the first header named `key`.
pub open spec fn follows(names: Seq<Seq<char>>, key: Seq<char>, at: int) -> bool {
    &&& 0 < at < names.len()
    &&& names[at - 1] == key
    &&& forall|j: int| 0 <= j < at - 1 ==> #[trigger] names[j] != key
}

/// The index of the header to hand out next: the first one if the caller
/// has seen none, else the one after the first header named like the one
/// it saw last; none when that was the last header or is not there.
pub fn next_header(names: &Vec<String>, key: Option<&str>) -> (r: Option<usize>)
    ensures
        match key {
            None => r == if names@.len() > 0 {
                Some(0usize)
            } else {
                None
            },
            Some(k) => match r {
                Some(i) => follows(texts_of(names@), k@, i as int),
                None => forall|at: int| !follows(texts_of(names@), k@, at),
            },
        },
{
    let k = match key {
        None => {
            return if names.len() > 0 {
                Some(0)
            } else {
                None
            };
        },
        Some(k) => String::from_str(k),
    };
    let ghost all = texts_of(names@);
    let mut i: usize = 0;
    while i < names.len()
        invariant
            i <= names@.len(),
            all == texts_of(names@),
            key is Some && key.unwrap()@ == k@,
            forall|j: int| 0 <= j < i ==> #[trigger] all[j] != k@,
        decreases names@.len() - i,
    {
        assert(all[i as int] == names@[i as int]@);
        if names[i] == k {
            if i + 1 < names.len() {
                return Some(i + 1);
            } else {
                assert forall|at: int| !follows(all, k@, at) by {
                    if follows(all, k@, at) {
                        assert(all[at - 1] == k@);
                    }
                }
                return None;
            }
        }
        i += 1;
    }
    assert forall|at: int| !follows(all, k@, at) by {
        if follows(all, k@, at) {
            assert(all[at - 1] == k@);
        }
    }
    None
}

/// Why a built MIME message gives no request.
#[derive(Debug, Clone, Copy, PartialEq, Eq, Structural)]
pub enum MultipartError {
    /// The message has no `Content-Type` header.
    MissingContentType,
    /// The body is said to begin behind the end of the message.
    BodyOutOfRange,
}

/// What of a built MIME message goes into a request: its content type,
/// which names the boundary between the parts, and what stands behind the
/// headers, from `body_offset` on.
pub fn multipart_request(message: &Vec<u8>, body_offset: usize, content_type: Option<String>) -> (r:
    Result<(String, Vec<u8>), MultipartError>)
    ensures
        match r {
            Ok((t, body)) => content_type == Some(t) && body_offset <= message@.len() && body@
                == message@.skip(body_offset as int),
            Err(MultipartError::MissingContentType) => content_type is None,
            Err(MultipartError::BodyOutOfRange) => content_type is Some && body_offset
                > message@.len(),
        },
{
    let content_type = match content_type {
        Some(t) => t,
        None => {
            return Err(MultipartError::MissingContentType);
        },
    };
    if body_offset > message.len() {
        return Err(MultipartError::BodyOutOfRange);
    }
    let mut body: Vec<u8> = Vec::new();
    let mut i = body_offset;
    while i < message.len()
        invariant
            body_offset <= i <= message@.len(),
            body@ == message@.subrange(body_offset as int, i as int),
        decreases message@.len() - i,
    {
        body.push(message[i]);
        assert(body@ =~= message@.subrange(body_offset as int, i + 1));
        i += 1;
    }
    assert(message@.subrange(body_offset as int, message@.len() as int) =~= message@.skip(
        body_offset as int,
    ));
    Ok((content_type, body))
}

} // verus!
