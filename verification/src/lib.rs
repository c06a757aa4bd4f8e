//! A typed HTTP JSON fetch client for the Hacker News API.
//!
//! The crate is split in two layers. A `Transport` performs a single GET
//! request and yields the raw response body; the typed client builds the
//! request URLs, hands them to the transport, and decodes the body into a
//! typed value. URL construction and the whole decode path are verified;
//! the network itself lives behind the `Transport` trait, outside the
//! verified library.

pub mod client;
pub mod decode;
pub mod errors;
pub mod json;
pub mod traitsamples;
pub mod word_count;
