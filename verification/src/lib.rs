//! The core of a mail transfer agent: the SMTP command grammar and its
//! parser, the state machine of an ingress session, the metadata and the
//! spools of the messages in flight with their recovery at startup, and the
//! queues that schedule delivery attempts per destination.
//!
//! The core decides and computes; it performs no I/O. What it asks of the
//! world around it, it returns as values for a driver to act on.

// The command grammar, its parser, and the wire form of what it reads.
pub mod charset;
pub mod grammar;
pub mod scan;
pub mod command;
pub mod parser;
pub mod wire;
pub mod laws;
pub mod command_laws;

// The ingress session and its replies.
pub mod reply;
pub mod session;

// Messages, their identifiers, their metadata on the medium, their spools.
pub mod message;
pub mod spool_path;
pub mod blob;
pub mod spool;
pub mod memory_spool;
pub mod recovery;

// Queues, retry schedules, and the records of what became of a message.
pub mod schedule;
pub mod queue;
pub mod queue_manager;
pub mod logging;

// Administration, configuration, and the scripts' HTTP client.
pub mod admin;
pub mod mod_kumo;
pub mod http;
