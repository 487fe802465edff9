//! Decision core of a block ingestion pipeline: in-order delivery of blocks
//! that are fetched concurrently, bounded admission of fetches, chain-head
//! tracking and checkpointed resumption.
//!
//! Nothing here performs I/O. Each component is a state machine whose
//! transitions are plain functions; the surrounding program performs the
//! requested actions (RPC calls, sleeps, database writes) and reports the
//! outcomes back as events.

pub mod admission;
pub mod block_fetcher;
pub mod checkpoint;
pub mod error;
pub mod head;
pub mod indexer;
pub mod sequencer;
pub mod settings;
pub mod stats;
pub mod task;

pub use crate::error::Error;
pub use crate::settings::Settings;
