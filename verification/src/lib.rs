//! In-memory write buffering for one partition of a time-series table, and
//! the framing of buffered data for the query wire protocol.

pub mod batch;
pub mod buffer;
pub mod dedup;
pub mod deferred;
pub mod error;
pub mod flight;
pub mod metadata;
pub mod partition;
pub mod query_view;
pub mod service;
pub mod ticket;
pub mod wire;
