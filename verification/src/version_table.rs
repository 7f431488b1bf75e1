//! The version metadata table: one row per version uuid, holding the
//! tombstone flag and the grow-only map of written blocks keyed by
//! `(part_number, offset)`. A block entry is never updated once written —
//! offsets are unique by construction, being cumulative plaintext counts.

use vstd::prelude::*;

use crate::crdt::{assoc_map, distinct_keys, has_key, map_join};

verus! {

/// Model of one block entry: its content address and plaintext size.
pub struct BlockV {
    pub hash: Seq<u8>,
    pub size: u64,
}

/// Model of a version row.
pub struct VersionVw {
    pub uuid: Seq<u8>,
    pub bucket_id: Seq<u8>,
    pub key: Seq<char>,
    pub deleted: bool,
    pub blocks: Map<(u64, u64), BlockV>,
}

/// Coordinates of a block within a version: the part it belongs to and the
/// cumulative plaintext offset at which it starts.
#[derive(Clone, Copy, PartialEq, Eq, Structural, Debug)]
pub struct VersionBlockKey {
    pub part_number: u64,
    pub offset: u64,
}

/// One stored block of a version.
#[derive(Clone, Copy, Debug)]
pub struct VersionBlock {
    pub hash: crate::data::Hash,
    pub size: u64,
}

impl View for VersionBlock {
    type V = BlockV;

    open spec fn view(&self) -> BlockV {
        BlockV { hash: self.hash@, size: self.size }
    }
}

/// The object an uploaded version belongs to.
#[derive(Debug)]
pub struct VersionBacklink {
    pub bucket_id: crate::data::Uuid,
    pub key: String,
}

impl Clone for VersionBacklink {
    fn clone(&self) -> (r: Self)
        ensures
            r.bucket_id@ == self.bucket_id@,
            r.key@ == self.key@,
    {
        VersionBacklink { bucket_id: self.bucket_id, key: self.key.clone() }
    }
}

/// The merge entries denoted by a block list.
pub open spec fn block_entries(s: Seq<(VersionBlockKey, VersionBlock)>) -> Seq<
    ((u64, u64), BlockV),
> {
    s.map(|i: int, p: (VersionBlockKey, VersionBlock)| ((p.0.part_number, p.0.offset), p.1@))
}

/// The join of two block entries recorded for one `(part, offset)`: entries
/// are never updated, so both sides hold the same block and either is kept.
pub open spec fn block_join_fn() -> spec_fn(BlockV, BlockV) -> BlockV {
    |a: BlockV, b: BlockV| a
}

/// A version row: the tombstone flag and the blocks written so far.
#[derive(Debug)]
pub struct Version {
    pub uuid: crate::data::Uuid,
    pub backlink: VersionBacklink,
    pub deleted: bool,
    pub blocks: Vec<(VersionBlockKey, VersionBlock)>,
}

impl View for Version {
    type V = VersionVw;

    open spec fn view(&self) -> VersionVw {
        VersionVw {
            uuid: self.uuid@,
            bucket_id: self.backlink.bucket_id@,
            key: self.backlink.key@,
            deleted: self.deleted,
            blocks: assoc_map(block_entries(self.blocks@)),
        }
    }
}

impl Clone for Version {
    fn clone(&self) -> (r: Self)
        ensures
            r@ == self@,
            r.blocks@ == self.blocks@,
            r.uuid == self.uuid,
            r.deleted == self.deleted,
    {
        let mut blocks: Vec<(VersionBlockKey, VersionBlock)> = Vec::new();
        let mut i: usize = 0;
        while i < self.blocks.len()
            invariant
                i <= self.blocks@.len(),
                blocks@ == self.blocks@.take(i as int),
            decreases self.blocks@.len() - i,
        {
            let p = &self.blocks[i];
            blocks.push((p.0, p.1));
            assert(blocks@ =~= self.blocks@.take(i + 1));
            i = i + 1;
        }
        assert(blocks@ =~= self.blocks@);
        Version {
            uuid: self.uuid,
            backlink: self.backlink.clone(),
            deleted: self.deleted,
            blocks,
        }
    }
}

impl Version {
    /// Well-formed: no two block entries share a `(part, offset)` key.
    pub open spec fn wf(&self) -> bool {
        distinct_keys(block_entries(self.blocks@))
    }

    /// A fresh version row with no blocks. It is inserted before any block
    /// write, so that the sweeper — which reaps block references whose
    /// version row is missing — never reaps the blocks of a live upload.
    pub fn new(uuid: crate::data::Uuid, backlink: VersionBacklink, deleted: bool) -> (r: Version)
        ensures
            r.wf(),
            r.uuid == uuid,
            r@.uuid == uuid@,
            r@.bucket_id == backlink.bucket_id@,
            r@.key == backlink.key@,
            r@.deleted == deleted,
            r@.blocks =~= Map::<(u64, u64), BlockV>::empty(),
            r.blocks@.len() == 0,
    {
        Version { uuid, backlink, deleted, blocks: Vec::new() }
    }

    /// Record one written block under its `(part, offset)` key. Where the
    /// key already exists the recorded block is kept — entries are never
    /// updated.
    pub fn insert_block(&mut self, key: VersionBlockKey, block: VersionBlock)
        requires
            old(self).wf(),
        ensures
            final(self).wf(),
            final(self).uuid == old(self).uuid,
            final(self).backlink == old(self).backlink,
            final(self).deleted == old(self).deleted,
            final(self)@.blocks == old(self)@.blocks.insert(
                (key.part_number, key.offset),
                if old(self)@.blocks.dom().contains((key.part_number, key.offset)) {
                    old(self)@.blocks[(key.part_number, key.offset)]
                } else {
                    block@
                },
            ),
            !old(self)@.blocks.dom().contains((key.part_number, key.offset))
                ==> final(self).blocks@ == old(self).blocks@.push((key, block)),
            old(self)@.blocks.dom().contains((key.part_number, key.offset)) ==> final(self).blocks@
                == old(self).blocks@,
    {
        let ghost entries0 = block_entries(old(self).blocks@);
        let ghost k = (key.part_number, key.offset);
        let mut i: usize = 0;
        while i < self.blocks.len()
            invariant
                *self == *old(self),
                entries0 == block_entries(self.blocks@),
                distinct_keys(entries0),
                entries0.len() == self.blocks@.len(),
                i <= self.blocks@.len(),
                k == (key.part_number, key.offset),
                forall|j: int| 0 <= j < i ==> entries0[j].0 != k,
            decreases self.blocks@.len() - i,
        {
            proof {
                assert(entries0[i as int] == (
                    (self.blocks@[i as int].0.part_number, self.blocks@[i as int].0.offset),
                    self.blocks@[i as int].1@,
                ));
            }
            let cur = &self.blocks[i];
            if cur.0.part_number == key.part_number && cur.0.offset == key.offset {
                proof {
                    crate::crdt::lemma_assoc_map_index(entries0, i as int);
                    assert(old(self)@.blocks.insert(k, old(self)@.blocks[k]) =~= old(
                        self,
                    )@.blocks);
                }
                return ;
            }
            i = i + 1;
        }
        proof {
            crate::crdt::lemma_assoc_map_dom(entries0);
            assert(!has_key(entries0, k));
            crate::crdt::lemma_assoc_map_push(entries0, (k, block@));
        }
        self.blocks.push((key, block));
        proof {
            assert(block_entries(self.blocks@) =~= entries0.push((k, block@)));
        }
    }

    /// Merge the row recorded by another replica: the tombstone flags are
    /// OR-ed, the block maps united.
    pub fn merge(&mut self, other: &Version)
        requires
            old(self).wf(),
            other.wf(),
        ensures
            final(self).wf(),
            final(self).uuid == old(self).uuid,
            final(self).backlink == old(self).backlink,
            final(self).deleted == (old(self).deleted || other.deleted),
            final(self)@.blocks == map_join(old(self)@.blocks, other@.blocks, block_join_fn()),
    {
        if other.deleted && !self.deleted {
            self.deleted = true;
        }
        let ghost m0 = old(self)@.blocks;
        let ghost oent = block_entries(other.blocks@);
        let mut j: usize = 0;
        proof {
            assert(oent.take(0) =~= Seq::empty());
            assert(map_join(m0, assoc_map(oent.take(0)), block_join_fn()) =~= m0);
        }
        while j < other.blocks.len()
            invariant
                self.wf(),
                other.wf(),
                self.uuid == old(self).uuid,
                self.backlink == old(self).backlink,
                self.deleted == (old(self).deleted || other.deleted),
                j <= other.blocks@.len(),
                oent == block_entries(other.blocks@),
                m0 == old(self)@.blocks,
                self@.blocks == map_join(m0, assoc_map(oent.take(j as int)), block_join_fn()),
            decreases other.blocks@.len() - j,
        {
            let p = &other.blocks[j];
            let ghost k = (p.0.part_number, p.0.offset);
            proof {
                assert(oent[j as int] == (k, p.1@));
                assert forall|x: int| 0 <= x < j implies oent.take(j as int)[x].0 != k by {
                    assert(oent.take(j as int)[x] == oent[x]);
                }
                crate::crdt::lemma_assoc_map_dom(oent.take(j as int));
                assert(!has_key(oent.take(j as int), k));
                crate::crdt::lemma_map_join_insert(
                    m0,
                    assoc_map(oent.take(j as int)),
                    block_join_fn(),
                    k,
                    p.1@,
                );
            }
            self.insert_block(p.0, p.1);
            proof {
                assert(oent.take(j as int) =~= oent.take(j + 1).drop_last());
                assert(assoc_map(oent.take(j + 1)) =~= assoc_map(oent.take(j as int)).insert(
                    k,
                    p.1@,
                ));
                assert(self@.blocks =~= map_join(
                    m0,
                    assoc_map(oent.take(j + 1)),
                    block_join_fn(),
                ));
            }
            j = j + 1;
        }
        proof {
            assert(oent.take(other.blocks@.len() as int) =~= oent);
        }
    }
}

/// Two block entries recorded for one `(part, offset)` agree by
/// construction: offsets are cumulative plaintext counts, so a key is
/// written once, with one block.
pub open spec fn compatible_blocks(a: BlockV, b: BlockV) -> bool {
    a == b
}

/// Law: merging version rows is commutative wherever shared keys carry the
/// same block, which they do by construction.
pub proof fn lemma_version_merge_commutes(m1: Map<(u64, u64), BlockV>, m2: Map<(u64, u64), BlockV>)
    requires
        forall|k: (u64, u64)|
            m1.dom().contains(k) && m2.dom().contains(k) ==> compatible_blocks(m1[k], m2[k]),
    ensures
        map_join(m1, m2, block_join_fn()) =~= map_join(m2, m1, block_join_fn()),
{
    crate::crdt::lemma_map_join_commutes(m1, m2, block_join_fn());
}

/// Law: merging version rows is associative.
pub proof fn lemma_version_merge_assoc(
    m1: Map<(u64, u64), BlockV>,
    m2: Map<(u64, u64), BlockV>,
    m3: Map<(u64, u64), BlockV>,
)
    ensures
        map_join(map_join(m1, m2, block_join_fn()), m3, block_join_fn()) =~= map_join(
            m1,
            map_join(m2, m3, block_join_fn()),
            block_join_fn(),
        ),
{
    crate::crdt::lemma_map_join_assoc(m1, m2, m3, block_join_fn());
}

/// Law: re-inserting a version row with the same blocks is a no-op after
/// merge, and the tombstone flag — an OR — is likewise idempotent.
pub proof fn lemma_version_merge_idempotent(m: Map<(u64, u64), BlockV>)
    ensures
        map_join(m, m, block_join_fn()) =~= m,
{
    crate::crdt::lemma_map_join_idempotent(m, block_join_fn());
}

} // verus!
