//! Disposition records: one structured record for every terminal or
//! transient outcome of a message.

use vstd::prelude::*;
use crate::message::SpoolId;

verus! {

/// What a disposition record records.
#[derive(Debug, Clone, Copy, PartialEq, Eq, Structural)]
pub enum RecordType {
    Reception,
    Delivery,
    TransientFailure,
    Bounce,
    Expiration,
    AdminBounce,
    AdminRebind,
    Delayed,
}

/// The class, subject and detail of an enhanced status code.
#[derive(Debug, Clone, Copy, PartialEq, Eq, Structural)]
pub struct EnhancedStatusCode {
    pub class: u8,
    pub subject: u16,
    pub detail: u16,
}

/// An SMTP response: what a server said, or what is said of a message.
#[derive(Debug, Clone, PartialEq, Eq)]
pub struct Response {
    pub code: u16,
    pub enhanced_code: Option<EnhancedStatusCode>,
    pub content: String,
    pub command: Option<String>,
}

/// One disposition record.
#[derive(Debug, Clone, PartialEq, Eq)]
pub struct LogDisposition {
    pub kind: RecordType,
    pub msg_id: SpoolId,
    pub site: String,
    pub peer_address: Option<String>,
    pub response: Response,
    pub egress_pool: Option<String>,
    pub egress_source: Option<String>,
    pub delivery_protocol: Option<String>,
    /// Seconds since the epoch, UTC.
    pub timestamp: u64,
}

/// Where and how a delivery attempt was made.
#[derive(Debug, Clone, PartialEq, Eq)]
pub struct AttemptContext {
    /// The destination that the attempt went to.
    pub site: String,
    pub peer_address: Option<String>,
    pub egress_pool: Option<String>,
    pub egress_source: Option<String>,
    pub delivery_protocol: Option<String>,
}

/// The record of what came of a delivery attempt.
pub fn attempt_record(
    kind: RecordType,
    msg_id: SpoolId,
    response: Response,
    context: AttemptContext,
    timestamp: u64,
) -> (r: LogDisposition)
    ensures
        r == (LogDisposition {
            kind,
            msg_id,
            site: context.site,
            peer_address: context.peer_address,
            response,
            egress_pool: context.egress_pool,
            egress_source: context.egress_source,
            delivery_protocol: context.delivery_protocol,
            timestamp,
        }),
{
    LogDisposition {
        kind,
        msg_id,
        site: context.site,
        peer_address: context.peer_address,
        response,
        egress_pool: context.egress_pool,
        egress_source: context.egress_source,
        delivery_protocol: context.delivery_protocol,
        timestamp,
    }
}

impl LogDisposition {
    /// Whether this is a record of kind `kind` about the message `msg_id`
    /// at `timestamp`, made by the core itself: the site is this host,
    /// and no peer, pool, source or protocol took part.
    pub open spec fn is_local(&self, kind: RecordType, msg_id: SpoolId, timestamp: u64) -> bool {
        &&& self.kind == kind
        &&& self.msg_id == msg_id
        &&& self.timestamp == timestamp
        &&& self.site@ == "localhost"@
        &&& self.peer_address is None
        &&& self.egress_pool is None
        &&& self.egress_source is None
        &&& self.delivery_protocol is None
    }

    /// Whether this is the record of an expiration of the message `msg_id`
    /// at `timestamp`: SMTP code 551 with the enhanced code `5.subject.detail`
    /// and the text `content`.
    pub open spec fn is_expiration(
        &self,
        msg_id: SpoolId,
        timestamp: u64,
        subject: u16,
        detail: u16,
        content: Seq<char>,
    ) -> bool {
        &&& self.is_local(RecordType::Expiration, msg_id, timestamp)
        &&& self.response.code == 551
        &&& self.response.enhanced_code == Some(EnhancedStatusCode { class: 5, subject, detail })
        &&& self.response.content@ == content
        &&& self.response.command is None
    }
}

impl RecordType {
    /// Whether a record of this kind must be on the medium before the work
    /// goes on: a crash between an attempt's completion and its record may
    /// lose neither a reception nor a delivery.
    pub fn is_synchronous(&self) -> (r: bool)
        ensures
            r == (*self == RecordType::Reception || *self == RecordType::Delivery),
    {
        match self {
            RecordType::Reception => true,
            RecordType::Delivery => true,
            _ => false,
        }
    }
}

impl Response {
    /// A response of the core itself, which answers no command of its own.
    pub fn new(code: u16, enhanced_code: Option<EnhancedStatusCode>, content: &str) -> (r: Response)
        ensures
            r.code == code,
            r.enhanced_code == enhanced_code,
            r.content@ == content@,
            r.command is None,
    {
        Response { code, enhanced_code, content: String::from_str(content), command: None }
    }
}

/// A record about a message, made by the core itself: the site is this
/// host, and no peer, pool, source or protocol took part.
pub fn local_record(kind: RecordType, msg_id: SpoolId, response: Response, timestamp: u64) -> (r:
    LogDisposition)
    ensures
        r.is_local(kind, msg_id, timestamp),
        r.response == response,
{
    LogDisposition {
        kind,
        msg_id,
        site: String::from_str("localhost"),
        peer_address: None,
        response,
        egress_pool: None,
        egress_source: None,
        delivery_protocol: None,
        timestamp,
    }
}

/// The record of an expiration: SMTP code 551, enhanced code 5.4.7.
pub fn expiration_record(msg_id: SpoolId, timestamp: u64) -> (r: LogDisposition)
    ensures
        r.is_expiration(msg_id, timestamp, 4, 7, "Delivery time exceeded the maximum age"@),
{
    let response = Response::new(
        551,
        Some(EnhancedStatusCode { class: 5, subject: 4, detail: 7 }),
        "Delivery time exceeded the maximum age",
    );
    local_record(RecordType::Expiration, msg_id, response, timestamp)
}

} // verus!
