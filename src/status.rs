//! Block indexing statuses and the skip rule.

use vstd::prelude::*;

verus! {

/// Lifecycle of a block's indexing record.
#[derive(PartialEq, Eq, Structural, Clone, Copy, Debug)]
pub enum BlockIndexingStatus {
    NotIndexed,
    Processing,
    Terminated,
}

/// A block's record in the status store: its status, and the version and
/// identifier of the indexer that wrote it.
pub type BlockRecord = (BlockIndexingStatus, Seq<char>, Seq<char>);

/// The status store, by block number.
pub type StatusStore = Map<u64, BlockRecord>;

/// Block `n` was indexed to the end by an indexer of version `version`.
pub open spec fn terminated_under(store: StatusStore, n: u64, version: Seq<char>) -> bool {
    &&& store.contains_key(n)
    &&& store[n].0 == BlockIndexingStatus::Terminated
    &&& store[n].1 == version
}

/// The skip rule: a block already indexed to the end under the same version
/// is left alone, unless the caller forces it.
pub open spec fn skip_spec(store: StatusStore, n: u64, version: Seq<char>, force: bool) -> bool {
    !force && terminated_under(store, n, version)
}

/// The skip rule on one block's record: `status` and whether the record's
/// version is the engine's own.
pub fn should_skip_indexing(status: BlockIndexingStatus, same_version: bool, force: bool) -> (r: bool)
    ensures
        r == (!force && status == BlockIndexingStatus::Terminated && same_version),
{
    !force && same_version && match status {
        BlockIndexingStatus::Terminated => true,
        _ => false,
    }
}

} // verus!
