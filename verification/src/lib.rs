//! SDK for describing video-project storyboards, validating them, and
//! preparing requests for a remote IP-registration service.
//!
//! The storyboard file format is JSON; the [`json`] module holds a
//! self-contained JSON document model with a verified serializer and parser.
//! The [`schema`] module defines the storyboard document and its validation
//! rules, and the [`client`] module the request/response contract with the
//! registration service. Network and file I/O live outside this library:
//! callers hand text in and get text or values back.

pub mod json;
pub mod error;
pub mod schema;
pub mod client;
