//! Fan-out latency measurement engine.
//!
//! Drives repeated timing probes against a set of remote measurement agents
//! for one or two target URLs, collects the returned samples into ordered
//! series, and aggregates each series into a null-propagating average sample.
//! The network transport itself (issuing one probe request) is an external
//! collaborator; this crate holds the dispatch, collection, aggregation and
//! output-document logic.

pub mod aggregate;
pub mod codec;
pub mod driver;
pub mod run;
pub mod sample;
