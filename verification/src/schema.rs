//! What a metadata table is, to the storage engine that hosts it: keyed
//! entries that merge, a hook fired on updates, and a filter for sweeps.

use vstd::prelude::*;
use vstd::string::StringSliceAdditionalSpecFns;

verus! {

/// A partition key: hashed to place the row on the cluster.
pub trait PartitionKey {
    /// The 256-bit partition hash of this key.
    fn hash(&self) -> crate::data::Hash;
}

impl PartitionKey for String {
    /// String keys partition by their SHA-256.
    fn hash(&self) -> (r: crate::data::Hash)
        ensures
            r@ == crate::hashes::sha256_of(vstd::utf8::encode_utf8(self@)),
    {
        crate::hashes::sha256sum(self.as_str().as_bytes())
    }
}

impl PartitionKey for crate::data::FixedBytes32 {
    /// Identifier keys are already uniformly distributed and partition by
    /// their own bytes.
    fn hash(&self) -> (r: crate::data::Hash)
        ensures
            r@ == self@,
    {
        *self
    }
}

/// A sort key: ordered within a partition by its byte rendering.
pub trait SortKey {
    /// The bytes this key sorts by.
    fn sort_key(&self) -> &[u8];
}

impl SortKey for String {
    fn sort_key(&self) -> (r: &[u8])
        ensures
            r@ == vstd::utf8::encode_utf8(self@),
    {
        self.as_str().as_bytes()
    }
}

impl SortKey for crate::data::FixedBytes32 {
    fn sort_key(&self) -> (r: &[u8])
        ensures
            r@ == self@,
    {
        self.b.as_slice()
    }
}

/// A table row: addressed by partition and sort key, combined by merge —
/// an insert is a merge, never an overwrite.
pub trait Entry<P: PartitionKey, S: SortKey>: Sized {
    /// The partition key of this row.
    fn partition_key(&self) -> &P;

    /// The sort key of this row.
    fn sort_key(&self) -> &S;

    /// Merge the row recorded by another replica into this one.
    fn merge(&mut self, other: &Self);
}

/// Filter used by table sweeps to select entries by tombstone status.
#[derive(Clone, Copy, PartialEq, Eq, Structural, Debug)]
pub enum DeletedFilter {
    Any,
    NotDeleted,
    Deleted,
}

impl DeletedFilter {
    /// What `apply` decides.
    pub open spec fn apply_spec(&self, deleted: bool) -> bool {
        *self == DeletedFilter::Any || (*self == DeletedFilter::NotDeleted && !deleted) || (*self
            == DeletedFilter::Deleted && deleted)
    }

    /// Whether an entry with the given tombstone flag passes this filter.
    pub fn apply(&self, deleted: bool) -> (r: bool)
        ensures
            r == self.apply_spec(deleted),
    {
        match self {
            DeletedFilter::Any => true,
            DeletedFilter::NotDeleted => !deleted,
            DeletedFilter::Deleted => deleted,
        }
    }
}

/// A table schema: the key and entry types of one metadata table, the hook
/// the engine fires after an entry changed, and the sweep filter. The hook
/// returns the side effect the engine must carry out, if any — the schema
/// itself only decides.
pub trait TableSchema: Sized {
    type P: PartitionKey;

    type S: SortKey;

    type E: Entry<Self::P, Self::S>;

    type Filter;

    /// The side effect the schema can ask of the engine.
    type Action;

    /// What to do with a stored row that no longer decodes as `E`: try
    /// loading it from an older layout. By default there is none.
    fn try_migrate(_bytes: &[u8]) -> (r: Option<Self::E>) {
        None
    }

    /// What the engine must do after it replaced `old` by `new`. Not
    /// supposed to block or fail: the update is an unchangeable fact under
    /// merge, so failures of the effect are only logged and later repaired
    /// by a scrub.
    fn updated(&self, old: Option<&Self::E>, new: Option<&Self::E>) -> Option<Self::Action>;

    /// Whether a sweep looking with `filter` selects `entry`.
    fn matches_filter(entry: &Self::E, filter: &Self::Filter) -> bool;
}

} // verus!
