//! A local-first capture store: an append-only, monotonically ordered frame
//! log, a content-addressed blob cache, a fan-out broadcaster that tails the
//! log for live subscribers, a provisional-then-committed streaming ingestion
//! packet, and a view projection that derives items and stacks from frames.

pub mod frame;
pub mod ids;
pub mod log;
pub mod cache;
pub mod view;
pub mod fanout;
pub mod ingest;
pub mod state;
pub mod command;
