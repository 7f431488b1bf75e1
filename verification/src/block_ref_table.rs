//! The block reference table: one row per `(block_hash, version_uuid)`,
//! asserting that the version holds the block. Reference counting of blocks
//! is derived from the live rows by an edge detector on updates.

use vstd::prelude::*;

use crate::schema::{DeletedFilter, Entry, TableSchema};

verus! {

/// A row asserting that `version` holds the block addressed by `block`.
#[derive(Clone, Copy, Debug)]
pub struct BlockRef {
    /// Primary key: the content address of the block.
    pub block: crate::data::Hash,
    /// Sort key: the version holding the block.
    pub version: crate::data::Uuid,
    /// Tombstone: once true, stays true.
    pub deleted: bool,
}

impl BlockRef {
    /// Merge the row recorded by another replica: the tombstone is OR-ed.
    pub fn merge_from(&mut self, other: &BlockRef)
        ensures
            final(self).block == old(self).block,
            final(self).version == old(self).version,
            final(self).deleted == (old(self).deleted || other.deleted),
    {
        if other.deleted {
            self.deleted = true;
        }
    }
}

impl Entry<crate::data::FixedBytes32, crate::data::FixedBytes32> for BlockRef {
    fn partition_key(&self) -> &crate::data::FixedBytes32 {
        &self.block
    }

    fn sort_key(&self) -> &crate::data::FixedBytes32 {
        &self.version
    }

    fn merge(&mut self, other: &Self) {
        self.merge_from(other);
    }
}

/// Law: the tombstone of a block reference wins regardless of the order in
/// which the live row and the tombstone merge, and merging the same flag
/// twice changes nothing.
pub proof fn lemma_block_ref_tombstone(a: bool, b: bool)
    ensures
        (a || b) == (b || a),
        ((a || b) || b) == (a || b),
        b ==> (a || b),
{
}

/// The side effect a block reference update asks of the engine: adjust the
/// reference count of a stored block.
#[derive(Clone, Copy, Debug)]
pub enum RefcountOp {
    /// The block gained its first live reference from this row.
    Incref(crate::data::Hash),
    /// This row's reference to the block died.
    Decref(crate::data::Hash),
}

/// Whether a row state holds a live (non-tombstoned) reference.
pub open spec fn spec_live(e: Option<BlockRef>) -> bool {
    e is Some && !e->Some_0.deleted
}

/// The schema of the block reference table. Its update hook is the edge
/// detector driving block reference counts.
pub struct BlockRefTable {}

impl TableSchema for BlockRefTable {
    type P = crate::data::FixedBytes32;

    type S = crate::data::FixedBytes32;

    type E = BlockRef;

    type Filter = DeletedFilter;

    type Action = RefcountOp;

    /// The monotone edge detector: a transition from dead-or-absent to live
    /// increments the block's reference count, a transition from live to
    /// dead decrements it. Replays (no transition) ask nothing, which keeps
    /// the derived counts stable under gossip replay.
    fn updated(&self, old: Option<&BlockRef>, new: Option<&BlockRef>) -> (r: Option<RefcountOp>)
        ensures
            ({
                let was = spec_live(match old {
                    Some(e) => Some(*e),
                    None => None,
                });
                let is_now = spec_live(match new {
                    Some(e) => Some(*e),
                    None => None,
                });
                let h = match old {
                    Some(e) => e.block,
                    None => new->Some_0.block,
                };
                r == if is_now && !was {
                    Some(RefcountOp::Incref(h))
                } else if was && !is_now {
                    Some(RefcountOp::Decref(h))
                } else {
                    None::<RefcountOp>
                }
            }),
    {
        let block = match old {
            Some(e) => e.block,
            None => match new {
                Some(e) => e.block,
                None => crate::data::FixedBytes32::zero(),
            },
        };
        let was_before = match old {
            Some(e) => !e.deleted,
            None => false,
        };
        let is_after = match new {
            Some(e) => !e.deleted,
            None => false,
        };
        if is_after && !was_before {
            Some(RefcountOp::Incref(block))
        } else if was_before && !is_after {
            Some(RefcountOp::Decref(block))
        } else {
            None
        }
    }

    /// Sweeps select block references by their tombstone flag.
    fn matches_filter(entry: &BlockRef, filter: &DeletedFilter) -> (r: bool)
        ensures
            r == filter.apply_spec(entry.deleted),
    {
        filter.apply(entry.deleted)
    }
}

} // verus!
