//! Decoding and session logic for a cable modem's HNAP control protocol.
//!
//! - [`client`] signs requests and walks through the two steps of the login;
//!   it hands out what is to be posted and takes in what came back.
//! - [`payloads`] holds the typed replies and decodes them from JSON.
//! - [`codec`] reads the delimited fields inside the replies: the up time,
//!   the clock, the event log and the channel tables.
//! - [`dedup`] is the bounded set that remembers which log records were
//!   passed on already.
//! - [`loki`] and [`points`] shape log records and channel readings for the
//!   services that collect them.
//! - [`pattern`], [`text`], [`json`] and [`signature`] are what the others
//!   are built from.

pub mod client;
pub mod codec;
pub mod dedup;
pub mod error;
pub mod json;
pub mod loki;
pub mod pattern;
pub mod payloads;
pub mod points;
pub mod signature;
pub mod text;

pub use client::SOAPClient;
pub use dedup::FixedSizeSortedHashSet;
pub use error::Error;
pub use loki::{construct_loki_streams, LokiStreams};
pub use signature::hex_hmac_md5;
