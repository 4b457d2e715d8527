//! Signed requests to a REST API for cleaning up a timeline.
//!
//! The core is OAuth 1.0a request signing ([`oauth`]): percent-encoding, the
//! normalized parameter string, the signature base string, the HMAC-SHA1
//! signature and the `Authorization` header, and the reading of the response
//! that hands out a request token. Around it stand the configuration that
//! carries the credentials ([`config`]), what is sent to and comes back from
//! the API ([`api`]) and the record of ids that the cleaning works from
//! ([`ids`]).
//!
//! Nothing here reads a file, the environment or the network: the callers
//! hand in text and bytes and get text back. The one thing read from
//! outside is the clock, for the timestamp of a header.

pub mod api;
pub mod chars;
pub mod config;
pub mod error;
pub mod ids;
pub mod oauth;
pub mod text;
