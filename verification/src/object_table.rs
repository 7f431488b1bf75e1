//! The object metadata table: an object row holds, per `(bucket, key)`, the
//! set of versions written by uploads and deletes, each in a lifecycle state
//! that merges over a lattice — `Uploading` loses to `Aborted` and to
//! `Complete`, `Aborted` overrides any state that has not completed, and
//! `Complete` is terminal.

use vstd::prelude::*;

use crate::crdt::{assoc_map, distinct_keys, has_key, map_join};
use crate::data::copy_bytes;

verus! {

/// Model of the headers kept with a version: the content type and the
/// preserved header pairs.
pub struct HeadersV {
    pub content_type: Seq<char>,
    pub other: Seq<(Seq<char>, Seq<char>)>,
}

/// Model of how a version's payload and headers are protected at rest.
pub enum EncryptionV {
    Plain { headers: HeadersV },
    SseC { sealed: Seq<u8> },
}

/// Model of the metadata of a completed version.
pub struct MetaV {
    pub encryption: EncryptionV,
    pub size: u64,
    pub etag: Seq<char>,
}

/// Model of the payload of a completed version.
pub enum DataV {
    DeleteMarker,
    Inline(MetaV, Seq<u8>),
    FirstBlock(MetaV, Seq<u8>),
}

/// Model of a version's lifecycle state.
pub enum StateV {
    Uploading { encryption: EncryptionV, multipart: bool },
    Complete(DataV),
    Aborted,
}

/// Model of one version: identity, timestamp, state.
pub struct VersionV {
    pub uuid: Seq<u8>,
    pub timestamp: u64,
    pub state: StateV,
}

/// Model of an object row: versions keyed by `(timestamp, uuid)`.
pub struct ObjectV {
    pub bucket_id: Seq<u8>,
    pub key: Seq<char>,
    pub versions: Map<(u64, Seq<u8>), StateV>,
}

/// Headers preserved with an object version: the content type, and the
/// standard plus `x-amz-meta-` pairs taken from the request.
#[derive(Debug)]
pub struct ObjectVersionHeaders {
    pub content_type: String,
    pub other: Vec<(String, String)>,
}

impl View for ObjectVersionHeaders {
    type V = HeadersV;

    open spec fn view(&self) -> HeadersV {
        HeadersV {
            content_type: self.content_type@,
            other: Seq::new(self.other@.len(), |i: int| (self.other@[i].0@, self.other@[i].1@)),
        }
    }
}

/// How a version's payload and headers are protected at rest: kept plain, or
/// sealed under a client-supplied key (the sealed header blob is produced by
/// the encryption layer and carried opaquely here).
#[derive(Debug)]
pub enum ObjectVersionEncryption {
    Plain { headers: ObjectVersionHeaders },
    SseC { sealed_headers: Vec<u8> },
}

impl View for ObjectVersionEncryption {
    type V = EncryptionV;

    open spec fn view(&self) -> EncryptionV {
        match self {
            ObjectVersionEncryption::Plain { headers } => EncryptionV::Plain { headers: headers@ },
            ObjectVersionEncryption::SseC { sealed_headers } => EncryptionV::SseC {
                sealed: sealed_headers@,
            },
        }
    }
}

/// Metadata of a completed version: its headers, plaintext size and etag.
#[derive(Debug)]
pub struct ObjectVersionMeta {
    pub encryption: ObjectVersionEncryption,
    pub size: u64,
    pub etag: String,
}

impl View for ObjectVersionMeta {
    type V = MetaV;

    open spec fn view(&self) -> MetaV {
        MetaV { encryption: self.encryption@, size: self.size, etag: self.etag@ }
    }
}

/// Payload of a completed version: a delete marker, bytes stored inline in
/// the row, or the address of the first stored block.
#[derive(Debug)]
pub enum ObjectVersionData {
    DeleteMarker,
    Inline(ObjectVersionMeta, Vec<u8>),
    FirstBlock(ObjectVersionMeta, crate::data::Hash),
}

impl View for ObjectVersionData {
    type V = DataV;

    open spec fn view(&self) -> DataV {
        match self {
            ObjectVersionData::DeleteMarker => DataV::DeleteMarker,
            ObjectVersionData::Inline(meta, bytes) => DataV::Inline(meta@, bytes@),
            ObjectVersionData::FirstBlock(meta, hash) => DataV::FirstBlock(meta@, hash@),
        }
    }
}

/// Lifecycle state of a version.
#[derive(Debug)]
pub enum ObjectVersionState {
    Uploading { encryption: ObjectVersionEncryption, multipart: bool },
    Complete(ObjectVersionData),
    Aborted,
}

impl View for ObjectVersionState {
    type V = StateV;

    open spec fn view(&self) -> StateV {
        match self {
            ObjectVersionState::Uploading { encryption, multipart } => StateV::Uploading {
                encryption: encryption@,
                multipart: *multipart,
            },
            ObjectVersionState::Complete(data) => StateV::Complete(data@),
            ObjectVersionState::Aborted => StateV::Aborted,
        }
    }
}

/// One version of an object.
#[derive(Debug)]
pub struct ObjectVersion {
    pub uuid: crate::data::Uuid,
    pub timestamp: u64,
    pub state: ObjectVersionState,
}

impl View for ObjectVersion {
    type V = VersionV;

    open spec fn view(&self) -> VersionV {
        VersionV { uuid: self.uuid@, timestamp: self.timestamp, state: self.state@ }
    }
}

impl ObjectVersion {
    /// The merge key of this version.
    pub open spec fn spec_key(&self) -> (u64, Seq<u8>) {
        (self.timestamp, self.uuid@)
    }
}

fn clone_pairs(v: &Vec<(String, String)>) -> (r: Vec<(String, String)>)
    ensures
        r@.len() == v@.len(),
        forall|i: int| 0 <= i < v@.len() ==> r@[i].0@ == v@[i].0@ && r@[i].1@ == v@[i].1@,
{
    let mut r: Vec<(String, String)> = Vec::new();
    let mut i: usize = 0;
    while i < v.len()
        invariant
            i <= v@.len(),
            r@.len() == i,
            forall|j: int| 0 <= j < i ==> r@[j].0@ == v@[j].0@ && r@[j].1@ == v@[j].1@,
        decreases v@.len() - i,
    {
        let p = &v[i];
        r.push((p.0.clone(), p.1.clone()));
        i = i + 1;
    }
    r
}

impl Clone for ObjectVersionHeaders {
    fn clone(&self) -> (r: Self)
        ensures
            r@ == self@,
    {
        let r = ObjectVersionHeaders {
            content_type: self.content_type.clone(),
            other: clone_pairs(&self.other),
        };
        assert(r@.other =~= self@.other);
        r
    }
}

impl Clone for ObjectVersionEncryption {
    fn clone(&self) -> (r: Self)
        ensures
            r@ == self@,
    {
        match self {
            ObjectVersionEncryption::Plain { headers } => ObjectVersionEncryption::Plain {
                headers: headers.clone(),
            },
            ObjectVersionEncryption::SseC { sealed_headers } => ObjectVersionEncryption::SseC {
                sealed_headers: copy_bytes(sealed_headers),
            },
        }
    }
}

impl Clone for ObjectVersionMeta {
    fn clone(&self) -> (r: Self)
        ensures
            r@ == self@,
    {
        ObjectVersionMeta {
            encryption: self.encryption.clone(),
            size: self.size,
            etag: self.etag.clone(),
        }
    }
}

impl Clone for ObjectVersionData {
    fn clone(&self) -> (r: Self)
        ensures
            r@ == self@,
    {
        match self {
            ObjectVersionData::DeleteMarker => ObjectVersionData::DeleteMarker,
            ObjectVersionData::Inline(meta, bytes) => ObjectVersionData::Inline(
                meta.clone(),
                copy_bytes(bytes),
            ),
            ObjectVersionData::FirstBlock(meta, hash) => ObjectVersionData::FirstBlock(
                meta.clone(),
                *hash,
            ),
        }
    }
}

impl Clone for ObjectVersionState {
    fn clone(&self) -> (r: Self)
        ensures
            r@ == self@,
    {
        match self {
            ObjectVersionState::Uploading { encryption, multipart } => ObjectVersionState::Uploading {
                encryption: encryption.clone(),
                multipart: *multipart,
            },
            ObjectVersionState::Complete(data) => ObjectVersionState::Complete(data.clone()),
            ObjectVersionState::Aborted => ObjectVersionState::Aborted,
        }
    }
}

impl Clone for ObjectVersion {
    fn clone(&self) -> (r: Self)
        ensures
            r@ == self@,
    {
        ObjectVersion { uuid: self.uuid, timestamp: self.timestamp, state: self.state.clone() }
    }
}

/// The join of two lifecycle states for one version: `Complete` is terminal,
/// `Aborted` overrides any state that has not completed, `Uploading` loses
/// to both.
pub open spec fn state_join(a: StateV, b: StateV) -> StateV {
    if a is Complete {
        a
    } else if b is Complete {
        b
    } else if a is Aborted || b is Aborted {
        StateV::Aborted
    } else {
        a
    }
}

/// The join as a value, for the map-level merge.
pub open spec fn state_join_fn() -> spec_fn(StateV, StateV) -> StateV {
    |a: StateV, b: StateV| state_join(a, b)
}

/// Two states recorded for the same version uuid agree by construction:
/// a uuid is completed with one payload only, and uploaded with one set of
/// headers only.
pub open spec fn compatible_states(a: StateV, b: StateV) -> bool {
    &&& (a is Complete && b is Complete ==> a == b)
    &&& (a is Uploading && b is Uploading ==> a == b)
}

/// The state join is commutative on states that can coexist for one uuid.
pub proof fn lemma_state_join_commutes(a: StateV, b: StateV)
    requires
        compatible_states(a, b),
    ensures
        state_join(a, b) == state_join(b, a),
{
}

/// The state join is associative.
pub proof fn lemma_state_join_assoc(a: StateV, b: StateV, c: StateV)
    ensures
        state_join(state_join(a, b), c) == state_join(a, state_join(b, c)),
{
}

/// The state join is idempotent.
pub proof fn lemma_state_join_idempotent(a: StateV)
    ensures
        state_join(a, a) == a,
{
}

/// Once a version is `Aborted`, merging any state short of `Complete` leaves
/// it `Aborted`. An aborted upload never writes `Complete` for its uuid —
/// the cleanup tombstone is written only where the final insert did not
/// happen — so the aborted version stays invisible forever.
pub proof fn lemma_aborted_stays_aborted(s: StateV)
    requires
        !(s is Complete),
    ensures
        state_join(StateV::Aborted, s) == StateV::Aborted,
        state_join(s, StateV::Aborted) == StateV::Aborted,
{
}

impl ObjectVersionState {
    /// Merge the state recorded by another replica into this one.
    pub fn merge(&mut self, other: &ObjectVersionState)
        ensures
            final(self)@ == state_join(old(self)@, other@),
    {
        match other {
            ObjectVersionState::Aborted => {
                if !self.is_complete() {
                    *self = ObjectVersionState::Aborted;
                }
            },
            ObjectVersionState::Complete(_) => {
                if !self.is_complete() {
                    *self = other.clone();
                }
            },
            ObjectVersionState::Uploading { .. } => {},
        }
    }

    /// Whether this state is `Complete`.
    pub fn is_complete(&self) -> (r: bool)
        ensures
            r == (self@ is Complete),
    {
        match self {
            ObjectVersionState::Complete(_) => true,
            _ => false,
        }
    }

    /// Whether this state is `Aborted`.
    pub fn is_aborted(&self) -> (r: bool)
        ensures
            r == (self@ is Aborted),
    {
        match self {
            ObjectVersionState::Aborted => true,
            _ => false,
        }
    }
}

/// The merge entries denoted by a version list: each version keyed by
/// `(timestamp, uuid)`.
pub open spec fn version_entries(s: Seq<ObjectVersion>) -> Seq<((u64, Seq<u8>), StateV)> {
    s.map(|i: int, v: ObjectVersion| (v.spec_key(), v.state@))
}

/// An object row: the set of versions recorded for one `(bucket, key)`.
/// Inserts are merges — a row is never overwritten in place.
#[derive(Debug)]
pub struct Object {
    pub bucket_id: crate::data::Uuid,
    pub key: String,
    pub versions: Vec<ObjectVersion>,
}

impl View for Object {
    type V = ObjectV;

    open spec fn view(&self) -> ObjectV {
        ObjectV {
            bucket_id: self.bucket_id@,
            key: self.key@,
            versions: assoc_map(version_entries(self.versions@)),
        }
    }
}

impl Object {
    /// Well-formed: no two recorded versions share a `(timestamp, uuid)`
    /// key.
    pub open spec fn wf(&self) -> bool {
        distinct_keys(version_entries(self.versions@))
    }

    /// A new row holding the given versions.
    pub fn new(bucket_id: crate::data::Uuid, key: String, versions: Vec<ObjectVersion>) -> (r:
        Object)
        requires
            distinct_keys(version_entries(versions@)),
        ensures
            r.wf(),
            r.bucket_id == bucket_id,
            r.key@ == key@,
            r.versions@ == versions@,
    {
        Object { bucket_id, key, versions }
    }

    /// The recorded versions.
    pub fn versions(&self) -> (r: &Vec<ObjectVersion>)
        ensures
            r@ == self.versions@,
    {
        &self.versions
    }

    /// Merge one version into the row: join states where the key exists,
    /// record the version where it does not.
    pub fn insert_version(&mut self, v: ObjectVersion)
        requires
            old(self).wf(),
        ensures
            final(self).wf(),
            final(self).bucket_id == old(self).bucket_id,
            final(self).key == old(self).key,
            final(self)@.versions == old(self)@.versions.insert(
                v.spec_key(),
                if old(self)@.versions.dom().contains(v.spec_key()) {
                    state_join(old(self)@.versions[v.spec_key()], v@.state)
                } else {
                    v@.state
                },
            ),
    {
        let ghost entries0 = version_entries(old(self).versions@);
        proof {
            assert(distinct_keys(entries0));
            assert(entries0.len() == old(self).versions@.len());
        }
        let k_ts = v.timestamp;
        let mut i: usize = 0;
        while i < self.versions.len()
            invariant
                *self == *old(self),
                entries0 == version_entries(self.versions@),
                distinct_keys(entries0),
                entries0.len() == self.versions@.len(),
                k_ts == v.timestamp,
                i <= self.versions@.len(),
                forall|j: int|
                    0 <= j < i ==> version_entries(self.versions@)[j].0 != v.spec_key(),
            decreases self.versions@.len() - i,
        {
            proof {
                assert(entries0[i as int] == (
                    self.versions@[i as int].spec_key(),
                    self.versions@[i as int].state@,
                ));
            }
            let cur = &self.versions[i];
            if cur.timestamp == k_ts && cur.uuid.same(&v.uuid) {
                let mut st = cur.state.clone();
                st.merge(&v.state);
                let nv = ObjectVersion { uuid: v.uuid, timestamp: k_ts, state: st };
                proof {
                    assert(self.versions@[i as int].timestamp == v.timestamp);
                    assert(self.versions@[i as int].uuid@ == v.uuid@);
                    assert(entries0[i as int] == (
                        self.versions@[i as int].spec_key(),
                        self.versions@[i as int].state@,
                    ));
                    assert(entries0[i as int].0 == v.spec_key());
                    crate::crdt::lemma_assoc_map_index(entries0, i as int);
                    crate::crdt::lemma_assoc_map_update(
                        entries0,
                        i as int,
                        (v.spec_key(), nv.state@),
                    );
                }
                self.versions.set(i, nv);
                proof {
                    let e1 = version_entries(self.versions@);
                    let e2 = entries0.update(i as int, (v.spec_key(), nv.state@));
                    assert forall|j: int| 0 <= j < e1.len() implies e1[j] == e2[j] by {
                        assert(e1[j] == (self.versions@[j].spec_key(), self.versions@[j].state@));
                    }
                    assert(e1 =~= e2);
                }
                return ;
            }
            i = i + 1;
        }
        proof {
            crate::crdt::lemma_assoc_map_dom(entries0);
            assert(!has_key(entries0, v.spec_key()));
            crate::crdt::lemma_assoc_map_push(entries0, (v.spec_key(), v.state@));
        }
        self.versions.push(v);
        proof {
            assert(version_entries(self.versions@) =~= entries0.push((v.spec_key(), v.state@)));
        }
    }

    /// Merge the versions recorded by another replica into this row. The
    /// result is the union of both version sets, states joined per key.
    pub fn merge(&mut self, other: &Object)
        requires
            old(self).wf(),
            other.wf(),
        ensures
            final(self).wf(),
            final(self).bucket_id == old(self).bucket_id,
            final(self).key == old(self).key,
            final(self)@.versions == map_join(
                old(self)@.versions,
                other@.versions,
                state_join_fn(),
            ),
    {
        let ghost m0 = old(self)@.versions;
        let ghost oent = version_entries(other.versions@);
        let mut j: usize = 0;
        proof {
            assert(version_entries(other.versions@.take(0)) =~= oent.take(0));
            assert(oent.take(0) =~= Seq::empty());
            assert(map_join(m0, assoc_map(oent.take(0)), state_join_fn()) =~= m0);
        }
        while j < other.versions.len()
            invariant
                self.wf(),
                other.wf(),
                self.bucket_id == old(self).bucket_id,
                self.key == old(self).key,
                j <= other.versions@.len(),
                oent == version_entries(other.versions@),
                m0 == old(self)@.versions,
                self@.versions == map_join(m0, assoc_map(oent.take(j as int)), state_join_fn()),
            decreases other.versions@.len() - j,
        {
            let v = other.versions[j].clone();
            proof {
                assert(oent[j as int] == (v.spec_key(), v.state@));
                assert(oent.take(j as int) =~= oent.take(j + 1).drop_last());
                assert(forall|x: int, y: int|
                    0 <= x < y < oent.len() ==> oent[x].0 != oent[y].0);
                assert forall|x: int| 0 <= x < j implies oent.take(j as int)[x].0
                    != v.spec_key() by {
                    assert(oent.take(j as int)[x] == oent[x]);
                }
                crate::crdt::lemma_assoc_map_dom(oent.take(j as int));
                assert(!has_key(oent.take(j as int), v.spec_key()));
                crate::crdt::lemma_map_join_insert(
                    m0,
                    assoc_map(oent.take(j as int)),
                    state_join_fn(),
                    v.spec_key(),
                    v.state@,
                );
            }
            self.insert_version(v);
            proof {
                assert(assoc_map(oent.take(j + 1)) =~= assoc_map(oent.take(j as int)).insert(
                    v.spec_key(),
                    v.state@,
                ));
                assert(self@.versions =~= map_join(
                    m0,
                    assoc_map(oent.take(j + 1)),
                    state_join_fn(),
                ));
            }
            j = j + 1;
        }
        proof {
            assert(oent.take(other.versions@.len() as int) =~= oent);
        }
    }
}

/// Law: merging object rows is commutative. Two replicas that exchange their
/// version sets converge, provided states recorded for one version uuid can
/// coexist (same payload once `Complete`, same headers while `Uploading`).
pub proof fn lemma_object_merge_commutes(
    m1: Map<(u64, Seq<u8>), StateV>,
    m2: Map<(u64, Seq<u8>), StateV>,
)
    requires
        forall|k: (u64, Seq<u8>)|
            m1.dom().contains(k) && m2.dom().contains(k) ==> compatible_states(m1[k], m2[k]),
    ensures
        map_join(m1, m2, state_join_fn()) =~= map_join(m2, m1, state_join_fn()),
{
    assert forall|k: (u64, Seq<u8>)|
        m1.dom().contains(k) && m2.dom().contains(k) implies (state_join_fn())(m1[k], m2[k])
        == (state_join_fn())(m2[k], m1[k]) by {
        lemma_state_join_commutes(m1[k], m2[k]);
    }
    crate::crdt::lemma_map_join_commutes(m1, m2, state_join_fn());
}

/// Law: merging object rows is associative — gossip may deliver inserts in
/// any grouping.
pub proof fn lemma_object_merge_assoc(
    m1: Map<(u64, Seq<u8>), StateV>,
    m2: Map<(u64, Seq<u8>), StateV>,
    m3: Map<(u64, Seq<u8>), StateV>,
)
    ensures
        map_join(map_join(m1, m2, state_join_fn()), m3, state_join_fn()) =~= map_join(
            m1,
            map_join(m2, m3, state_join_fn()),
            state_join_fn(),
        ),
{
    crate::crdt::lemma_map_join_assoc(m1, m2, m3, state_join_fn());
}

/// Law: re-inserting an object row with the same versions in the same states
/// is a no-op after merge.
pub proof fn lemma_object_merge_idempotent(m: Map<(u64, Seq<u8>), StateV>)
    ensures
        map_join(m, m, state_join_fn()) =~= m,
{
    crate::crdt::lemma_map_join_idempotent(m, state_join_fn());
}

/// Law: a version aborted in one replica stays aborted under merge with any
/// replica that has not completed that version.
pub proof fn lemma_aborted_version_stays_aborted(
    m1: Map<(u64, Seq<u8>), StateV>,
    m2: Map<(u64, Seq<u8>), StateV>,
    k: (u64, Seq<u8>),
)
    requires
        m1.dom().contains(k),
        m1[k] == StateV::Aborted,
        m2.dom().contains(k) ==> !(m2[k] is Complete),
    ensures
        map_join(m1, m2, state_join_fn()).dom().contains(k),
        map_join(m1, m2, state_join_fn())[k] == StateV::Aborted,
{
    if m2.dom().contains(k) {
        lemma_aborted_stays_aborted(m2[k]);
    }
}

} // verus!
