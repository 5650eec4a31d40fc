//! Decision core of a Starknet event indexer: the bounded block-range
//! traversal, the pending-block tail with its rollover protocol, and the
//! per-event pipeline, each a state machine that a driver runs by performing
//! the action it asks for and handing back what came of it.

use vstd::prelude::*;

pub mod felt;
pub mod pending;
pub mod pipeline;
pub mod range;
pub mod status;
pub mod tail;

verus! {

/// Errors surfaced by the two indexing operations.
#[derive(Debug, Clone, PartialEq, Eq)]
pub enum IndexerError {
    /// The status store or another storage backend failed.
    StorageError(String),
    /// Any other failure (chain client, transaction that cannot be read).
    Anyhow(String),
}

/// The engine's configuration: the indexer's version and identifier, which
/// tag every block-status write and decide whether a block indexed by an
/// older version is indexed again.
#[derive(Debug, Clone)]
pub struct PontosConfig {
    pub indexer_version: String,
    pub indexer_identifier: String,
}

} // verus!
