//! The ingestion path: chunking the upload into blocks, hashing and
//! content-addressing them, recording version and block-reference rows, and
//! promoting the object from `Uploading` to `Complete` — or to `Aborted`
//! where anything failed in between.

use vstd::prelude::*;

use crate::crdt::map_join;
use crate::data::{copy_bytes, spec_hex, FixedBytes32};
use crate::error::Error;
use crate::hashes::{base64_std_of, blake2b32_of, md5_of, sha256_of};
use crate::object_table::{
    Object, ObjectVersion, ObjectVersionData, ObjectVersionEncryption, ObjectVersionHeaders,
    ObjectVersionMeta, ObjectVersionState,
};
use crate::version_table::{Version, VersionBacklink, VersionBlock, VersionBlockKey};

verus! {

broadcast use Seq::group_seq_flatten;

/// Payloads shorter than this are stored inline in the object row instead
/// of going through the block layer.
pub const INLINE_THRESHOLD: usize = 3072;

/// How many block writes may be in flight at once for one upload.
pub const PUT_BLOCKS_MAX_PARALLEL: usize = 3;

/// What a completed upload reports to the HTTP layer.
#[derive(Debug)]
pub struct SaveStreamResult {
    pub version_uuid: crate::data::Uuid,
    pub version_timestamp: u64,
    /// Etag WITHOUT THE QUOTES (just the hex value)
    pub etag: String,
}

/// The greatest version timestamp recorded in `s` (zero where `s` is
/// empty).
pub open spec fn max_timestamp(s: Seq<ObjectVersion>) -> u64
    decreases s.len(),
{
    if s.len() == 0 {
        0u64
    } else if s.last().timestamp >= max_timestamp(s.drop_last()) {
        s.last().timestamp
    } else {
        max_timestamp(s.drop_last())
    }
}

/// The timestamp a new version of this object must carry: past every
/// recorded version, and no earlier than the clock.
pub open spec fn spec_next_timestamp(versions: Seq<ObjectVersion>, now_msec: u64) -> int {
    if versions.len() == 0 {
        now_msec as int
    } else if max_timestamp(versions) + 1 >= now_msec {
        max_timestamp(versions) + 1
    } else {
        now_msec as int
    }
}

/// Every recorded timestamp is bounded by the maximum.
pub proof fn lemma_max_timestamp_ge(s: Seq<ObjectVersion>, i: int)
    requires
        0 <= i < s.len(),
    ensures
        s[i].timestamp <= max_timestamp(s),
    decreases s.len(),
{
    if i < s.len() - 1 {
        assert(s.drop_last()[i] == s[i]);
        lemma_max_timestamp_ge(s.drop_last(), i);
    }
}

/// The timestamp of a new version: one past the newest recorded version of
/// the key, or the clock, whichever is later. Law: the new timestamp is
/// strictly greater than every version timestamp known locally.
pub fn next_timestamp(existing_object: Option<&Object>, now_msec: u64) -> (r: u64)
    requires
        existing_object is Some ==> max_timestamp(existing_object->Some_0.versions@)
            < u64::MAX,
    ensures
        r >= now_msec,
        r as int == match existing_object {
            Some(o) => spec_next_timestamp(o.versions@, now_msec),
            None => now_msec as int,
        },
        existing_object is Some ==> forall|i: int|
            0 <= i < existing_object->Some_0.versions@.len() ==> r
                > existing_object->Some_0.versions@[i].timestamp,
{
    match existing_object {
        None => now_msec,
        Some(o) => {
            if o.versions().len() == 0 {
                return now_msec;
            }
            let vs = o.versions();
            let mut mx: u64 = 0;
            let mut i: usize = 0;
            while i < vs.len()
                invariant
                    vs@ == existing_object->Some_0.versions@,
                    i <= vs@.len(),
                    mx == max_timestamp(vs@.take(i as int)),
                decreases vs@.len() - i,
            {
                let cur = &vs[i];
                proof {
                    assert(vs@.take(i + 1).drop_last() =~= vs@.take(i as int));
                    assert(vs@.take(i + 1).last() == vs@[i as int]);
                }
                if cur.timestamp > mx {
                    mx = cur.timestamp;
                }
                i = i + 1;
            }
            proof {
                assert(vs@.take(vs@.len() as int) =~= vs@);
                assert forall|j: int| 0 <= j < vs@.len() implies vs@[j].timestamp <= max_timestamp(
                    vs@,
                ) by {
                    lemma_max_timestamp_ge(vs@, j);
                }
            }
            let t = mx + 1;
            if t >= now_msec {
                t
            } else {
                now_msec
            }
        },
    }
}

/// The plaintext size a version contributes to its bucket's byte count:
/// the recorded size of its completed data, nothing for markers, aborted or
/// still-uploading versions.
pub open spec fn spec_version_size(v: ObjectVersion) -> u64 {
    match v.state {
        ObjectVersionState::Complete(ObjectVersionData::Inline(meta, _)) => meta.size,
        ObjectVersionState::Complete(ObjectVersionData::FirstBlock(meta, _)) => meta.size,
        _ => 0u64,
    }
}

/// Total plaintext bytes recorded by the versions of one object.
pub open spec fn sum_sizes(s: Seq<ObjectVersion>) -> int
    decreases s.len(),
{
    if s.len() == 0 {
        0
    } else {
        sum_sizes(s.drop_last()) + spec_version_size(s.last())
    }
}

proof fn lemma_sum_sizes_take_le(s: Seq<ObjectVersion>, i: int)
    requires
        0 <= i <= s.len(),
    ensures
        0 <= sum_sizes(s.take(i)) <= sum_sizes(s),
    decreases s.len(),
{
    if s.len() == 0 {
        assert(s.take(i) =~= s);
    } else if i == s.len() {
        assert(s.take(i) =~= s);
        lemma_sum_sizes_take_le(s.drop_last(), i - 1);
    } else {
        assert(s.drop_last().take(i) =~= s.take(i));
        lemma_sum_sizes_take_le(s.drop_last(), i);
    }
}

/// Total plaintext bytes of the completed versions of this object.
pub fn object_total_size(o: &Object) -> (r: u64)
    requires
        sum_sizes(o.versions@) <= u64::MAX,
    ensures
        r as int == sum_sizes(o.versions@),
{
    let vs = o.versions();
    let mut acc: u64 = 0;
    let mut i: usize = 0;
    while i < vs.len()
        invariant
            vs@ == o.versions@,
            sum_sizes(o.versions@) <= u64::MAX,
            i <= vs@.len(),
            acc as int == sum_sizes(vs@.take(i as int)),
        decreases vs@.len() - i,
    {
        let cur = &vs[i];
        let sz = match &cur.state {
            ObjectVersionState::Complete(ObjectVersionData::Inline(meta, _)) => meta.size,
            ObjectVersionState::Complete(ObjectVersionData::FirstBlock(meta, _)) => meta.size,
            _ => 0u64,
        };
        proof {
            assert(vs@.take(i + 1).drop_last() =~= vs@.take(i as int));
            assert(vs@.take(i + 1).last() == vs@[i as int]);
            assert(sz == spec_version_size(vs@[i as int]));
            lemma_sum_sizes_take_le(vs@, i + 1);
        }
        acc = acc + sz;
        i = i + 1;
    }
    proof {
        assert(vs@.take(vs@.len() as int) =~= vs@);
    }
    acc
}

/// The quotas configured for a bucket.
#[derive(Clone, Copy, Debug)]
pub struct BucketQuotas {
    pub max_objects: Option<u64>,
    pub max_size: Option<u64>,
}

/// The cluster-wide counters gossiped for a bucket, filtered to the current
/// layout by the caller.
#[derive(Clone, Copy, Debug)]
pub struct BucketCounters {
    pub objects: i64,
    pub bytes: i64,
}

/// Whether inserting `size` bytes would break the object-count quota.
pub open spec fn objects_quota_violated(
    prev_exists: bool,
    quotas: BucketQuotas,
    counters: BucketCounters,
) -> bool {
    let diff: int = if prev_exists {
        0
    } else {
        1
    };
    quotas.max_objects is Some && diff > 0 && counters.objects + diff
        > quotas.max_objects->Some_0 as int
}

/// Whether inserting `size` bytes would break the byte-count quota, given
/// the bytes the previous object already accounts for.
pub open spec fn size_quota_violated(
    size: u64,
    prev_size: int,
    quotas: BucketQuotas,
    counters: BucketCounters,
) -> bool {
    let diff: int = size - prev_size;
    quotas.max_size is Some && diff > 0 && counters.bytes + diff > quotas.max_size->Some_0 as int
}

/// Check that inserting this object with this size keeps the bucket under
/// its quotas. A replacement that shrinks or holds the total is always
/// allowed, even over quota — the `> 0` guards prevent lock-out.
pub fn check_quotas(
    prev_object: Option<&Object>,
    size: u64,
    quotas: &BucketQuotas,
    counters: &BucketCounters,
) -> (r: Result<(), Error>)
    requires
        prev_object is Some ==> 0 <= sum_sizes(prev_object->Some_0.versions@) <= u64::MAX,
    ensures
        ({
            let prev_size: int = match prev_object {
                Some(o) => sum_sizes(o.versions@),
                None => 0,
            };
            let obj_bad = objects_quota_violated(prev_object is Some, *quotas, *counters);
            let size_bad = size_quota_violated(size, prev_size, *quotas, *counters);
            &&& (r is Ok <==> !obj_bad && !size_bad)
            &&& (r is Err ==> r->Err_0 is Forbidden)
            &&& (obj_bad ==> r->Err_0.spec_message() == "Object quota is reached"@)
            &&& (!obj_bad && size_bad ==> r->Err_0.spec_message()
                == "Bucket size quota is reached"@)
        }),
{
    let prev_size: u64 = match prev_object {
        Some(o) => object_total_size(o),
        None => 0,
    };
    let prev_exists = match prev_object {
        Some(_) => true,
        None => false,
    };
    let cnt_obj_diff: i128 = if prev_exists {
        0
    } else {
        1
    };
    let cnt_size_diff: i128 = size as i128 - prev_size as i128;

    if let Some(mo) = quotas.max_objects {
        if cnt_obj_diff > 0 && counters.objects as i128 + cnt_obj_diff > mo as i128 {
            return Err(Error::Forbidden("Object quota is reached".to_owned()));
        }
    }
    if let Some(ms) = quotas.max_size {
        if cnt_size_diff > 0 && counters.bytes as i128 + cnt_size_diff > ms as i128 {
            return Err(Error::Forbidden("Bucket size quota is reached".to_owned()));
        }
    }
    Ok(())
}

/// The byte string with its leading double quotes removed.
pub open spec fn trim_start_quotes(s: Seq<u8>) -> Seq<u8>
    decreases s.len(),
{
    if s.len() > 0 && s[0] == 34u8 {
        trim_start_quotes(s.skip(1))
    } else {
        s
    }
}

/// The byte string with its trailing double quotes removed.
pub open spec fn trim_end_quotes(s: Seq<u8>) -> Seq<u8>
    decreases s.len(),
{
    if s.len() > 0 && s.last() == 34u8 {
        trim_end_quotes(s.drop_last())
    } else {
        s
    }
}

/// The byte string with surrounding double quotes removed, as
/// `Content-MD5` may arrive quoted.
pub open spec fn trim_quotes(s: Seq<u8>) -> Seq<u8> {
    trim_end_quotes(trim_start_quotes(s))
}

/// Whether a `Content-MD5` header (UTF-8 bytes) names this MD5 digest:
/// stripped of surrounding quotes it must equal the digest's standard
/// base64 rendering.
pub open spec fn md5_header_matches(header: Seq<char>, md5: Seq<u8>) -> bool {
    trim_quotes(vstd::utf8::encode_utf8(header)) == vstd::utf8::encode_utf8(base64_std_of(md5))
}

/// Law: a value carried with surrounding quotes is accepted exactly like
/// the bare value, as long as the value itself does not start or end with a
/// quote — which a base64 rendering never does.
pub proof fn lemma_quoted_value_accepted(e: Seq<u8>)
    requires
        e.len() == 0 || (e[0] != 34u8 && e.last() != 34u8),
    ensures
        trim_quotes(e) == e,
        trim_quotes(seq![34u8] + e + seq![34u8]) == e,
{
    let w = seq![34u8] + e + seq![34u8];
    assert(w.len() == e.len() + 2);
    assert(w[0] == 34u8);
    assert(w.skip(1) =~= e + seq![34u8]);
    if e.len() == 0 {
        let t = w.skip(1);
        assert(t.len() == 1 && t[0] == 34u8);
        assert(trim_start_quotes(w) == trim_start_quotes(t));
        assert(t.skip(1) =~= Seq::<u8>::empty());
        assert(trim_start_quotes(t) == trim_start_quotes(Seq::<u8>::empty()));
        assert(trim_start_quotes(Seq::<u8>::empty()) =~= Seq::<u8>::empty());
        assert(trim_end_quotes(Seq::<u8>::empty()) =~= Seq::<u8>::empty());
        assert(trim_quotes(w) =~= e);
        assert(trim_quotes(e) == e);
    } else {
        let t = e + seq![34u8];
        assert(w.skip(1) == t);
        assert(t[0] == e[0]);
        assert(trim_start_quotes(w) == trim_start_quotes(t));
        assert(trim_start_quotes(t) == t);
        assert(t.last() == 34u8);
        assert(t.drop_last() =~= e);
        assert(trim_end_quotes(t) == trim_end_quotes(e));
        assert(trim_end_quotes(e) == e);
        assert(trim_start_quotes(e) == e);
    }
}

fn bytes_match_subrange(s: &[u8], lo: usize, hi: usize, expected: &[u8]) -> (r: bool)
    requires
        lo <= hi <= s@.len(),
    ensures
        r == (s@.subrange(lo as int, hi as int) == expected@),
{
    if hi - lo != expected.len() {
        assert(s@.subrange(lo as int, hi as int).len() != expected@.len());
        return false;
    }
    let n = hi - lo;
    let mut k: usize = 0;
    while k < n
        invariant
            lo <= hi <= s@.len(),
            n == hi - lo,
            n == expected@.len(),
            k <= n,
            forall|j: int| 0 <= j < k ==> s@[lo + j] == expected@[j],
        decreases n - k,
    {
        if s[lo + k] != expected[k] {
            assert(s@.subrange(lo as int, hi as int)[k as int] != expected@[k as int]);
            return false;
        }
        k = k + 1;
    }
    assert(s@.subrange(lo as int, hi as int) =~= expected@);
    true
}

/// Validate the MD5 digest against the `Content-MD5` header and the SHA-256
/// digest against the signed `x-amz-content-sha256`, each where supplied.
/// Succeeds exactly where every supplied expectation matches.
pub fn ensure_checksum_matches(
    data_md5sum: &[u8],
    data_sha256sum: FixedBytes32,
    content_md5: Option<&String>,
    content_sha256: Option<FixedBytes32>,
) -> (r: Result<(), Error>)
    ensures
        ({
            let sha_ok = content_sha256 is Some ==> content_sha256->Some_0@ == data_sha256sum@;
            let md5_ok = content_md5 is Some ==> md5_header_matches(
                content_md5->Some_0@,
                data_md5sum@,
            );
            &&& (r is Ok <==> sha_ok && md5_ok)
            &&& (r is Err ==> r->Err_0 is BadRequest)
            &&& (!sha_ok ==> r->Err_0.spec_message() == "Unable to validate x-amz-content-sha256"@)
            &&& (sha_ok && !md5_ok ==> r->Err_0.spec_message() == "Unable to validate content-md5"@)
        }),
{
    if let Some(expected_sha256) = content_sha256 {
        if !expected_sha256.same(&data_sha256sum) {
            return Err(
                Error::BadRequest("Unable to validate x-amz-content-sha256".to_owned()),
            );
        }
    }
    if let Some(expected_md5) = content_md5 {
        let header = expected_md5.as_str().as_bytes();
        let mut lo: usize = 0;
        let mut hi: usize = header.len();
        proof {
            assert(header@.skip(0) =~= header@);
        }
        while lo < hi && header[lo] == 34u8
            invariant
                lo <= hi <= header@.len(),
                trim_start_quotes(header@) == trim_start_quotes(header@.skip(lo as int)),
                hi == header@.len(),
            decreases hi - lo,
        {
            proof {
                assert(header@.skip(lo as int)[0] == header@[lo as int]);
                assert(header@.skip(lo as int).skip(1) =~= header@.skip(lo + 1));
            }
            lo = lo + 1;
        }
        let ghost t = header@.skip(lo as int);
        proof {
            if lo < hi {
                assert(t[0] == header@[lo as int]);
            }
            assert(trim_start_quotes(t) == t);
            assert(t.take(t.len() as int) =~= t);
        }
        while hi > lo && header[hi - 1] == 34u8
            invariant
                lo <= hi <= header@.len(),
                t == header@.skip(lo as int),
                trim_end_quotes(t) == trim_end_quotes(t.take(hi - lo)),
            decreases hi,
        {
            proof {
                let u = t.take(hi - lo);
                assert(u.last() == header@[hi - 1]);
                assert(u.drop_last() =~= t.take(hi - 1 - lo));
            }
            hi = hi - 1;
        }
        proof {
            let u = t.take(hi - lo);
            if hi > lo {
                assert(u.last() == header@[hi - 1]);
            }
            assert(trim_end_quotes(u) == u);
            assert(u =~= header@.subrange(lo as int, hi as int));
        }
        let expected = crate::hashes::base64_encode(data_md5sum);
        let ok = bytes_match_subrange(header, lo, hi, expected.as_str().as_bytes());
        if !ok {
            return Err(Error::BadRequest("Unable to validate content-md5".to_owned()));
        }
    }
    Ok(())
}

/// The views of a list of byte buffers.
pub open spec fn views_of(s: Seq<Vec<u8>>) -> Seq<Seq<u8>> {
    s.map(|i: int, b: Vec<u8>| b@)
}

/// How a byte stream is cut into blocks: full blocks of `bs` bytes, the
/// final block shorter where the stream ends early.
pub open spec fn chunk_bytes(body: Seq<u8>, bs: int) -> Seq<Seq<u8>>
    decreases body.len(),
    when bs >= 1
{
    if body.len() == 0 {
        Seq::empty()
    } else if body.len() <= bs {
        seq![body]
    } else {
        seq![body.take(bs)] + chunk_bytes(body.skip(bs), bs)
    }
}

/// Law: the concatenation of the blocks a stream is cut into reproduces
/// the stream.
pub proof fn lemma_chunk_bytes_concat(body: Seq<u8>, bs: int)
    requires
        bs >= 1,
    ensures
        chunk_bytes(body, bs).flatten() == body,
    decreases body.len(),
{
    if body.len() == 0 {
        assert(chunk_bytes(body, bs).flatten() =~= body);
    } else if body.len() <= bs {
        assert(chunk_bytes(body, bs) == seq![body]);
        assert(chunk_bytes(body, bs).len() == 1);
        assert(chunk_bytes(body, bs).flatten() == body);
    } else {
        lemma_chunk_bytes_concat(body.skip(bs), bs);
        let c = chunk_bytes(body, bs);
        assert(c == seq![body.take(bs)] + chunk_bytes(body.skip(bs), bs));
        assert(c.first() == body.take(bs));
        assert(c.drop_first() =~= chunk_bytes(body.skip(bs), bs));
        assert(c.flatten() == c.first() + c.drop_first().flatten());
        assert(c.flatten() =~= body);
    }
}

/// Re-chunks an upstream byte stream into blocks of exactly `block_size`
/// bytes, except the final block which may be shorter. The caller feeds
/// upstream bytes in, marks the end of the stream, and pulls blocks out
/// whenever a full block is buffered or the stream has ended.
#[derive(Debug)]
pub struct StreamChunker {
    pub block_size: usize,
    pub read_all: bool,
    pub buf: Vec<u8>,
}

impl StreamChunker {
    /// A chunker with an empty buffer.
    pub fn new(block_size: usize) -> (r: StreamChunker)
        requires
            block_size >= 1,
        ensures
            r.block_size == block_size,
            !r.read_all,
            r.buf@ == Seq::<u8>::empty(),
    {
        StreamChunker { block_size, read_all: false, buf: Vec::new() }
    }

    /// Buffer one upstream chunk.
    pub fn feed(&mut self, bytes: &[u8])
        requires
            !old(self).read_all,
            old(self).buf@.len() + bytes@.len() <= usize::MAX,
        ensures
            final(self).block_size == old(self).block_size,
            !final(self).read_all,
            final(self).buf@ == old(self).buf@ + bytes@,
    {
        let mut k: usize = 0;
        while k < bytes.len()
            invariant
                self.block_size == old(self).block_size,
                self.read_all == old(self).read_all,
                old(self).buf@.len() + bytes@.len() <= usize::MAX,
                k <= bytes@.len(),
                self.buf@ == old(self).buf@ + bytes@.take(k as int),
            decreases bytes@.len() - k,
        {
            self.buf.push(bytes[k]);
            proof {
                assert(old(self).buf@ + bytes@.take(k + 1) =~= (old(self).buf@ + bytes@.take(
                    k as int,
                )).push(bytes@[k as int]));
            }
            k = k + 1;
        }
        proof {
            assert(bytes@.take(bytes@.len() as int) =~= bytes@);
        }
    }

    /// Record that upstream is exhausted.
    pub fn set_eof(&mut self)
        ensures
            final(self).block_size == old(self).block_size,
            final(self).read_all,
            final(self).buf@ == old(self).buf@,
    {
        self.read_all = true;
    }

    /// Whether `next` may be called: a full block is buffered, or upstream
    /// has ended.
    pub fn ready(&self) -> (r: bool)
        ensures
            r == (self.read_all || self.buf@.len() >= self.block_size),
    {
        self.read_all || self.buf.len() >= self.block_size
    }

    /// The next block: `block_size` bytes from the front of the buffer, or
    /// what remains of it at end of stream. `None` once the buffer is empty
    /// and upstream is exhausted.
    pub fn next(&mut self) -> (r: Option<Vec<u8>>)
        requires
            old(self).read_all || old(self).buf@.len() >= old(self).block_size,
            old(self).block_size >= 1,
        ensures
            final(self).block_size == old(self).block_size,
            final(self).read_all == old(self).read_all,
            old(self).buf@.len() == 0 ==> r is None && final(self).buf@ == old(self).buf@,
            old(self).buf@.len() > 0 ==> {
                let n = if old(self).buf@.len() <= old(self).block_size {
                    old(self).buf@.len() as int
                } else {
                    old(self).block_size as int
                };
                &&& r is Some
                &&& r->Some_0@ == old(self).buf@.take(n)
                &&& r->Some_0@.len() > 0
                &&& final(self).buf@ == old(self).buf@.skip(n)
            },
    {
        if self.buf.len() == 0 {
            return None;
        }
        let n: usize = if self.buf.len() <= self.block_size {
            self.buf.len()
        } else {
            self.block_size
        };
        let mut out: Vec<u8> = Vec::new();
        let mut k: usize = 0;
        while k < n
            invariant
                n <= self.buf@.len(),
                *self == *old(self),
                k <= n,
                out@ == self.buf@.take(n as int).take(k as int),
            decreases n - k,
        {
            out.push(self.buf[k]);
            proof {
                assert(self.buf@.take(n as int).take(k + 1) =~= self.buf@.take(n as int).take(
                    k as int,
                ).push(self.buf@[k as int]));
            }
            k = k + 1;
        }
        let mut rest: Vec<u8> = Vec::new();
        let mut k2: usize = n;
        while k2 < self.buf.len()
            invariant
                n <= self.buf@.len(),
                *self == *old(self),
                n <= k2 <= self.buf@.len(),
                rest@ == self.buf@.skip(n as int).take(k2 - n),
            decreases self.buf@.len() - k2,
        {
            rest.push(self.buf[k2]);
            proof {
                assert(self.buf@.skip(n as int).take(k2 - n + 1) =~= self.buf@.skip(
                    n as int,
                ).take(k2 - n).push(self.buf@[k2 as int]));
            }
            k2 = k2 + 1;
        }
        proof {
            assert(out@ =~= old(self).buf@.take(n as int));
            assert(rest@ =~= old(self).buf@.skip(n as int));
        }
        self.buf = rest;
        Some(out)
    }
}

/// Plaintext bytes that precede block `i` in an upload: the cumulative
/// offset at which it starts.
pub open spec fn bytes_before(blocks: Seq<Seq<u8>>, i: int) -> int {
    blocks.take(i).flatten().len() as int
}

/// With every block non-empty, offsets strictly increase.
pub proof fn lemma_bytes_before_increases(blocks: Seq<Seq<u8>>, i: int, j: int)
    requires
        forall|k: int| 0 <= k < blocks.len() ==> blocks[k].len() > 0,
        0 <= i < j <= blocks.len(),
    ensures
        bytes_before(blocks, i) < bytes_before(blocks, j),
    decreases j - i,
{
    assert(blocks.take(i + 1) =~= blocks.take(i).push(blocks[i]));
    assert(blocks.take(i + 1).flatten() == blocks.take(i).flatten() + blocks[i]);
    if i + 1 < j {
        lemma_bytes_before_increases(blocks, i + 1, j);
    }
}

/// The bytes of a prefix never exceed the bytes of the whole.
pub proof fn lemma_flatten_take_le(blocks: Seq<Seq<u8>>, i: int)
    requires
        0 <= i <= blocks.len(),
    ensures
        blocks.take(i).flatten().len() <= blocks.flatten().len(),
    decreases blocks.len() - i,
{
    if i < blocks.len() {
        assert(blocks.take(i + 1) =~= blocks.take(i).push(blocks[i]));
        assert(blocks.take(i + 1).flatten() == blocks.take(i).flatten() + blocks[i]);
        lemma_flatten_take_le(blocks, i + 1);
    } else {
        assert(blocks.take(i) =~= blocks);
    }
}

/// Everything the storage driver must do for one block, concurrently: send
/// the block to the block layer under its order tag, insert the grown
/// version row, and insert the block reference.
#[derive(Debug)]
pub struct BlockWrite {
    /// Content address of the stored bytes.
    pub hash: crate::data::Hash,
    /// The bytes to store (post-encryption where encryption is on).
    pub data: Vec<u8>,
    /// Whether `data` is sealed.
    pub is_encrypted: bool,
    /// Order tag for the block transport: the cumulative plaintext offset,
    /// so that writes of one upload commit in offset order.
    pub order_offset: u64,
    /// Part this block belongs to.
    pub part_number: u64,
    /// Cumulative plaintext offset of this block.
    pub offset: u64,
    /// Plaintext size of this block.
    pub size: u64,
    /// The version row grown by this block's entry.
    pub version_row: Version,
    /// The live block reference row for this block.
    pub block_ref: crate::block_ref_table::BlockRef,
}

/// The block-writing pipeline of one upload: feeds MD5 and SHA-256 over the
/// plaintext in block order, content-addresses each stored block, and grows
/// the version row entry by entry. Each pushed block yields the
/// `BlockWrite` the driver must perform.
pub struct BlockPipeline {
    pub version: Version,
    pub part_number: u64,
    pub written: u64,
    pub md5: crate::hashes::Md5Hasher,
    pub sha256: crate::hashes::Sha256Hasher,
    pub first_block_hash: Option<FixedBytes32>,
    pub is_encrypted: bool,
    pub plain_blocks: Ghost<Seq<Seq<u8>>>,
    pub stored_blocks: Ghost<Seq<Seq<u8>>>,
}

impl BlockPipeline {
    /// The pipeline's running state is sound: hashes cover exactly the
    /// pushed plaintext, and the version row records each pushed block at
    /// its cumulative offset.
    pub open spec fn wf(&self) -> bool {
        let plain = self.plain_blocks@;
        let stored = self.stored_blocks@;
        &&& self.version.wf()
        &&& self.md5@ == plain.flatten()
        &&& self.sha256@ == plain.flatten()
        &&& self.written == plain.flatten().len()
        &&& stored.len() == plain.len()
        &&& self.version.blocks@.len() == plain.len()
        &&& forall|i: int| 0 <= i < plain.len() ==> (#[trigger] plain[i]).len() > 0
        &&& forall|i: int|
            0 <= i < plain.len() ==> (#[trigger] self.version.blocks@[i]).0
                == (VersionBlockKey {
                part_number: self.part_number,
                offset: bytes_before(plain, i) as u64,
            })
        &&& forall|i: int|
            0 <= i < plain.len() ==> (#[trigger] self.version.blocks@[i]).1@
                == (crate::version_table::BlockV {
                hash: blake2b32_of(stored[i]),
                size: plain[i].len() as u64,
            })
        &&& (self.first_block_hash is Some <==> plain.len() > 0)
        &&& (plain.len() > 0 ==> self.first_block_hash->Some_0@ == blake2b32_of(stored[0]))
        &&& (!self.is_encrypted ==> stored == plain)
    }

    /// A pipeline over a fresh (empty) version row.
    pub fn new(version: Version, part_number: u64, is_encrypted: bool) -> (r: BlockPipeline)
        requires
            version.wf(),
            version.blocks@.len() == 0,
        ensures
            r.wf(),
            r.plain_blocks@ == Seq::<Seq<u8>>::empty(),
            r.stored_blocks@ == Seq::<Seq<u8>>::empty(),
            r.version == version,
            r.part_number == part_number,
            r.is_encrypted == is_encrypted,
            r.written == 0,
    {
        let r = BlockPipeline {
            version,
            part_number,
            written: 0,
            md5: crate::hashes::Md5Hasher::new(),
            sha256: crate::hashes::Sha256Hasher::new(),
            first_block_hash: None,
            is_encrypted,
            plain_blocks: Ghost(Seq::empty()),
            stored_blocks: Ghost(Seq::empty()),
        };
        proof {
            assert(r.plain_blocks@.flatten() =~= Seq::<u8>::empty());
        }
        r
    }

    fn push_inner(&mut self, plain: &Vec<u8>, stored: Vec<u8>) -> (w: BlockWrite)
        requires
            old(self).wf(),
            plain@.len() > 0,
            old(self).written + plain@.len() <= u64::MAX,
            !old(self).is_encrypted ==> stored@ == plain@,
        ensures
            final(self).wf(),
            final(self).plain_blocks@ == old(self).plain_blocks@.push(plain@),
            final(self).stored_blocks@ == old(self).stored_blocks@.push(stored@),
            final(self).written == old(self).written + plain@.len(),
            final(self).part_number == old(self).part_number,
            final(self).is_encrypted == old(self).is_encrypted,
            final(self).version.uuid == old(self).version.uuid,
            final(self).version.backlink == old(self).version.backlink,
            final(self).version.deleted == old(self).version.deleted,
            final(self).version.blocks@ == old(self).version.blocks@.push(
                (
                    VersionBlockKey {
                        part_number: old(self).part_number,
                        offset: old(self).written,
                    },
                    VersionBlock {
                        hash: w.hash,
                        size: plain@.len() as u64,
                    },
                ),
            ),
            w.hash@ == blake2b32_of(stored@),
            w.data@ == stored@,
            w.is_encrypted == old(self).is_encrypted,
            w.order_offset == old(self).written,
            w.part_number == old(self).part_number,
            w.offset == old(self).written,
            w.size == plain@.len(),
            w.version_row@ == final(self).version@,
            w.version_row.blocks@ == final(self).version.blocks@,
            w.version_row.uuid == old(self).version.uuid,
            w.block_ref.block == w.hash,
            w.block_ref.version == old(self).version.uuid,
            w.block_ref.deleted == false,
    {
        let ghost plain0 = self.plain_blocks@;
        let ghost stored0 = self.stored_blocks@;
        let hash = crate::hashes::blake2sum(stored.as_slice());
        self.md5.update(plain.as_slice());
        self.sha256.update(plain.as_slice());
        if self.first_block_hash.is_none() {
            self.first_block_hash = Some(hash);
        }
        let key = VersionBlockKey { part_number: self.part_number, offset: self.written };
        let vb = VersionBlock { hash, size: plain.len() as u64 };
        proof {
            crate::crdt::lemma_assoc_map_dom(crate::version_table::block_entries(
                self.version.blocks@,
            ));
            assert forall|i: int| 0 <= i < plain0.len() implies crate::version_table::block_entries(
                self.version.blocks@,
            )[i].0 != (key.part_number, key.offset) by {
                lemma_bytes_before_increases(plain0, i, plain0.len() as int);
                assert(plain0.take(plain0.len() as int) =~= plain0);
                assert(self.version.blocks@[i].0.offset == bytes_before(plain0, i) as u64);
            }
            assert(!crate::crdt::has_key(
                crate::version_table::block_entries(self.version.blocks@),
                (key.part_number, key.offset),
            ));
        }
        self.version.insert_block(key, vb);
        proof {
            self.plain_blocks@ = plain0.push(plain@);
            self.stored_blocks@ = stored0.push(stored@);
        }
        let order_offset = self.written;
        self.written = self.written + plain.len() as u64;
        let version_row = self.version.clone();
        let block_ref = crate::block_ref_table::BlockRef {
            block: hash,
            version: self.version.uuid,
            deleted: false,
        };
        proof {
            let plain1 = self.plain_blocks@;
            assert(plain1.flatten() == plain0.flatten() + plain@);
            assert forall|i: int| 0 <= i < plain1.len() implies (
            #[trigger] self.version.blocks@[i]).0 == (VersionBlockKey {
                part_number: self.part_number,
                offset: bytes_before(plain1, i) as u64,
            }) by {
                if i < plain0.len() {
                    assert(plain1.take(i) =~= plain0.take(i));
                } else {
                    assert(plain1.take(i) =~= plain0);
                }
            }
            assert forall|i: int| 0 <= i < plain1.len() implies (
            #[trigger] self.version.blocks@[i]).1@ == (crate::version_table::BlockV {
                hash: blake2b32_of(self.stored_blocks@[i]),
                size: plain1[i].len() as u64,
            }) by {}
        }
        BlockWrite {
            hash,
            data: stored,
            is_encrypted: self.is_encrypted,
            order_offset,
            part_number: self.part_number,
            offset: order_offset,
            size: plain.len() as u64,
            version_row,
            block_ref,
        }
    }

    /// Push one plaintext block through the pipeline (no encryption): the
    /// stored bytes are the plaintext itself.
    pub fn push_block(&mut self, block: &Vec<u8>) -> (w: BlockWrite)
        requires
            old(self).wf(),
            !old(self).is_encrypted,
            block@.len() > 0,
            old(self).written + block@.len() <= u64::MAX,
        ensures
            final(self).wf(),
            final(self).plain_blocks@ == old(self).plain_blocks@.push(block@),
            final(self).stored_blocks@ == old(self).stored_blocks@.push(block@),
            final(self).written == old(self).written + block@.len(),
            final(self).part_number == old(self).part_number,
            final(self).is_encrypted == old(self).is_encrypted,
            final(self).version.uuid == old(self).version.uuid,
            final(self).version.backlink == old(self).version.backlink,
            final(self).version.deleted == old(self).version.deleted,
            final(self).version.blocks@ == old(self).version.blocks@.push(
                (
                    VersionBlockKey {
                        part_number: old(self).part_number,
                        offset: old(self).written,
                    },
                    VersionBlock {
                        hash: w.hash,
                        size: block@.len() as u64,
                    },
                ),
            ),
            w.hash@ == blake2b32_of(block@),
            w.data@ == block@,
            w.is_encrypted == old(self).is_encrypted,
            w.order_offset == old(self).written,
            w.part_number == old(self).part_number,
            w.offset == old(self).written,
            w.size == block@.len(),
            w.version_row@ == final(self).version@,
            w.version_row.blocks@ == final(self).version.blocks@,
            w.version_row.uuid == old(self).version.uuid,
            w.block_ref.block == w.hash,
            w.block_ref.version == old(self).version.uuid,
            w.block_ref.deleted == false,
    {
        let stored = copy_bytes(block);
        self.push_inner(block, stored)
    }

    /// Push one block whose stored form was sealed by the encryption layer:
    /// the digests cover the plaintext, the content address covers the
    /// sealed bytes.
    pub fn push_block_sealed(&mut self, plaintext: &Vec<u8>, sealed: Vec<u8>) -> (w: BlockWrite)
        requires
            old(self).wf(),
            old(self).is_encrypted,
            plaintext@.len() > 0,
            old(self).written + plaintext@.len() <= u64::MAX,
        ensures
            final(self).wf(),
            final(self).plain_blocks@ == old(self).plain_blocks@.push(plaintext@),
            final(self).stored_blocks@ == old(self).stored_blocks@.push(sealed@),
            final(self).written == old(self).written + plaintext@.len(),
            final(self).part_number == old(self).part_number,
            final(self).is_encrypted == old(self).is_encrypted,
            final(self).version.uuid == old(self).version.uuid,
            final(self).version.backlink == old(self).version.backlink,
            final(self).version.deleted == old(self).version.deleted,
            w.hash@ == blake2b32_of(sealed@),
            w.is_encrypted == old(self).is_encrypted,
            w.part_number == old(self).part_number,
            w.data@ == sealed@,
            w.order_offset == old(self).written,
            w.offset == old(self).written,
            w.size == plaintext@.len(),
            w.version_row@ == final(self).version@,
            w.block_ref.block == w.hash,
            w.block_ref.version == old(self).version.uuid,
            w.block_ref.deleted == false,
    {
        self.push_inner(plaintext, sealed)
    }

    /// Drain the pipeline: the total plaintext size, the stream digests,
    /// the address of the first stored block, and the final version row.
    pub fn finish(self) -> (r: PipelineOutput)
        requires
            self.wf(),
            self.plain_blocks@.len() > 0,
        ensures
            r.total_size == self.plain_blocks@.flatten().len(),
            r.data_md5sum@ == md5_of(self.plain_blocks@.flatten()),
            r.data_md5sum@.len() == 16,
            r.data_sha256sum@ == sha256_of(self.plain_blocks@.flatten()),
            r.first_block_hash@ == blake2b32_of(self.stored_blocks@[0]),
            r.version == self.version,
    {
        let total_size = self.written;
        let data_md5sum = self.md5.finalize();
        let shav = self.sha256.finalize();
        let data_sha256sum = FixedBytes32::from_vec(&shav);
        let first_block_hash = match self.first_block_hash {
            Some(h) => h,
            None => FixedBytes32::zero(),
        };
        PipelineOutput { total_size, data_md5sum, data_sha256sum, first_block_hash, version: self.version }
    }
}

/// What the pipeline reports when it drains.
#[derive(Debug)]
pub struct PipelineOutput {
    pub total_size: u64,
    pub data_md5sum: Vec<u8>,
    pub data_sha256sum: FixedBytes32,
    pub first_block_hash: FixedBytes32,
    pub version: Version,
}

/// Run every block of an upload through the pipeline: digests over the
/// plaintext in order, a content address and a block reference per block,
/// and the version row grown entry by entry at cumulative offsets. The
/// returned writes, performed in order, store bytes whose concatenation is
/// exactly the upload.
pub fn read_and_put_blocks(version: Version, part_number: u64, blocks: &Vec<Vec<u8>>) -> (r: (
    Vec<BlockWrite>,
    PipelineOutput,
))
    requires
        version.wf(),
        version.blocks@.len() == 0,
        blocks@.len() > 0,
        forall|i: int| 0 <= i < blocks@.len() ==> (#[trigger] blocks@[i])@.len() > 0,
        views_of(blocks@).flatten().len() <= u64::MAX,
    ensures
        ({
            let body = views_of(blocks@).flatten();
            let ws = r.0;
            let out = r.1;
            &&& ws@.len() == blocks@.len()
            &&& out.total_size == body.len()
            &&& out.data_md5sum@ == md5_of(body)
            &&& out.data_md5sum@.len() == 16
            &&& out.data_sha256sum@ == sha256_of(body)
            &&& out.first_block_hash@ == blake2b32_of(blocks@[0]@)
            &&& out.version.uuid == version.uuid
            &&& out.version.backlink == version.backlink
            &&& out.version.deleted == version.deleted
            &&& out.version.wf()
            &&& out.version.blocks@.len() == blocks@.len()
            &&& forall|i: int|
                0 <= i < blocks@.len() ==> (#[trigger] out.version.blocks@[i]).0
                    == (VersionBlockKey {
                    part_number,
                    offset: bytes_before(views_of(blocks@), i) as u64,
                })
            &&& forall|i: int|
                0 <= i < blocks@.len() ==> (#[trigger] out.version.blocks@[i]).1@
                    == (crate::version_table::BlockV {
                    hash: blake2b32_of(blocks@[i]@),
                    size: blocks@[i]@.len() as u64,
                })
            &&& forall|i: int|
                0 <= i < ws@.len() ==> {
                    let w = #[trigger] ws@[i];
                    &&& w.data@ == blocks@[i]@
                    &&& w.hash@ == blake2b32_of(blocks@[i]@)
                    &&& w.offset == bytes_before(views_of(blocks@), i)
                    &&& w.order_offset == w.offset
                    &&& w.size == blocks@[i]@.len()
                    &&& w.part_number == part_number
                    &&& w.is_encrypted == false
                    &&& w.block_ref.block == w.hash
                    &&& w.block_ref.version == version.uuid
                    &&& w.block_ref.deleted == false
                    &&& w.version_row.blocks@ == out.version.blocks@.take(i + 1)
                    &&& w.version_row.uuid == version.uuid
                }
        }),
{
    let ghost views = views_of(blocks@);
    let mut pipeline = BlockPipeline::new(version, part_number, false);
    let mut writes: Vec<BlockWrite> = Vec::new();
    let mut i: usize = 0;
    proof {
        assert(views.take(0) =~= Seq::<Seq<u8>>::empty());
    }
    while i < blocks.len()
        invariant
            views == views_of(blocks@),
            views.flatten().len() <= u64::MAX,
            forall|k: int| 0 <= k < blocks@.len() ==> (#[trigger] blocks@[k])@.len() > 0,
            pipeline.wf(),
            !pipeline.is_encrypted,
            pipeline.part_number == part_number,
            pipeline.version.uuid == version.uuid,
            pipeline.version.backlink == version.backlink,
            pipeline.version.deleted == version.deleted,
            i <= blocks@.len(),
            pipeline.plain_blocks@ == views.take(i as int),
            pipeline.stored_blocks@ == views.take(i as int),
            writes@.len() == i,
            forall|j: int|
                0 <= j < i ==> {
                    let w = #[trigger] writes@[j];
                    &&& w.data@ == blocks@[j]@
                    &&& w.hash@ == blake2b32_of(blocks@[j]@)
                    &&& w.offset == bytes_before(views, j)
                    &&& w.order_offset == w.offset
                    &&& w.size == blocks@[j]@.len()
                    &&& w.part_number == part_number
                    &&& w.is_encrypted == false
                    &&& w.block_ref.block == w.hash
                    &&& w.block_ref.version == version.uuid
                    &&& w.block_ref.deleted == false
                    &&& w.version_row.blocks@ == pipeline.version.blocks@.take(j + 1)
                    &&& w.version_row.uuid == version.uuid
                },
        decreases blocks@.len() - i,
    {
        let b = &blocks[i];
        proof {
            assert(views[i as int] == blocks@[i as int]@);
            assert(views.take(i + 1) =~= views.take(i as int).push(views[i as int]));
            assert(views.take(i + 1).flatten() == views.take(i as int).flatten() + views[
                i as int
            ]);
            lemma_flatten_take_le(views, i + 1);
            assert(b@.len() > 0);
        }
        let ghost blocks_before = pipeline.version.blocks@;
        let w = pipeline.push_block(b);
        proof {
            assert(pipeline.version.blocks@.drop_last() =~= blocks_before);
            assert forall|j: int| 0 <= j < i implies #[trigger] pipeline.version.blocks@.take(
                j + 1,
            ) =~= blocks_before.take(j + 1) by {}
            assert(pipeline.version.blocks@.take(i + 1) =~= pipeline.version.blocks@);
            assert(w.version_row.blocks@ == pipeline.version.blocks@.take(i + 1));
        }
        writes.push(w);
        i = i + 1;
    }
    proof {
        assert(views.take(blocks@.len() as int) =~= views);
    }
    let out = pipeline.finish();
    proof {
        assert(views[0] == blocks@[0]@);
    }
    (writes, out)
}

/// Build what one block write must persist beside the block itself: the
/// version row grown by the block's `(part, offset)` entry, and the live
/// block reference that keeps the block refcounted. Sending the bytes is
/// the transport's half of the write; this is the metadata half.
pub fn put_block_and_meta(
    version: &Version,
    part_number: u64,
    offset: u64,
    hash: crate::data::Hash,
    size: u64,
) -> (r: (Version, crate::block_ref_table::BlockRef))
    requires
        version.wf(),
    ensures
        r.0.wf(),
        r.0.uuid == version.uuid,
        r.0.deleted == version.deleted,
        r.0@.blocks == version@.blocks.insert(
            (part_number, offset),
            if version@.blocks.dom().contains((part_number, offset)) {
                version@.blocks[(part_number, offset)]
            } else {
                crate::version_table::BlockV { hash: hash@, size }
            },
        ),
        r.1.block == hash,
        r.1.version == version.uuid,
        r.1.deleted == false,
{
    let mut row = version.clone();
    row.insert_block(VersionBlockKey { part_number, offset }, VersionBlock { hash, size });
    let block_ref = crate::block_ref_table::BlockRef {
        block: hash,
        version: version.uuid,
        deleted: false,
    };
    (row, block_ref)
}

/// The version record an interrupted upload leaves behind: armed when the
/// `Uploading` row is inserted and disarmed only once the `Complete` row
/// is in, it yields the `Aborted` tombstone that the driver must insert —
/// detached from the upload, so that cancelling the upload cannot also
/// cancel the cleanup.
#[derive(Debug)]
pub struct InterruptedCleanup {
    pub armed: bool,
    pub bucket_id: crate::data::Uuid,
    pub key: String,
    pub version_uuid: crate::data::Uuid,
    pub version_timestamp: u64,
}

impl InterruptedCleanup {
    /// Arm the guard for an upload that just became visible as `Uploading`.
    pub fn new(
        bucket_id: crate::data::Uuid,
        key: String,
        version_uuid: crate::data::Uuid,
        version_timestamp: u64,
    ) -> (r: InterruptedCleanup)
        ensures
            r.armed,
            r.bucket_id == bucket_id,
            r.key == key,
            r.version_uuid == version_uuid,
            r.version_timestamp == version_timestamp,
    {
        InterruptedCleanup { armed: true, bucket_id, key, version_uuid, version_timestamp }
    }

    /// Disarm: the upload completed, nothing to clean up.
    pub fn cancel(&mut self)
        ensures
            !final(self).armed,
            final(self).bucket_id == old(self).bucket_id,
            final(self).key == old(self).key,
            final(self).version_uuid == old(self).version_uuid,
            final(self).version_timestamp == old(self).version_timestamp,
    {
        self.armed = false;
    }

    /// What must be inserted when the guard drops: while armed, an object
    /// row carrying the same uuid and timestamp in state `Aborted`, whose
    /// merge makes the interrupted version invisible and reapable.
    pub fn cleanup_object(&self) -> (r: Option<Object>)
        ensures
            self.armed <==> r is Some,
            self.armed ==> {
                let o = r->Some_0;
                &&& o.wf()
                &&& o.bucket_id == self.bucket_id
                &&& o.key@ == self.key@
                &&& o.versions@.len() == 1
                &&& o.versions@[0].uuid == self.version_uuid
                &&& o.versions@[0].timestamp == self.version_timestamp
                &&& o.versions@[0].state@ is Aborted
            },
    {
        if !self.armed {
            return None;
        }
        let mut versions: Vec<ObjectVersion> = Vec::new();
        versions.push(
            ObjectVersion {
                uuid: self.version_uuid,
                timestamp: self.version_timestamp,
                state: ObjectVersionState::Aborted,
            },
        );
        Some(Object::new(self.bucket_id, self.key.clone(), versions))
    }
}

/// Everything a completed `save_stream` hands the storage driver, in the
/// order the driver must apply it: for a streamed upload, the `Uploading`
/// object row, then the empty version row, then the block writes, then the
/// `Complete` object row; for an inline upload, the `Complete` row alone.
#[derive(Debug)]
pub struct SaveStreamOutput {
    pub result: SaveStreamResult,
    pub inline: bool,
    pub uploading_object: Option<Object>,
    pub empty_version: Option<Version>,
    pub writes: Vec<BlockWrite>,
    pub final_object: Object,
}

/// Law: completing an upload leaves exactly one version under its uuid,
/// and that version is `Complete`. The uuid is fresh, so the only earlier
/// state recorded for it is the upload's own `Uploading` row, which the
/// final insert's merge promotes.
pub proof fn lemma_put_version_completes(
    m: Map<(u64, Seq<u8>), crate::object_table::StateV>,
    k: (u64, Seq<u8>),
    d: crate::object_table::DataV,
)
    requires
        forall|k2: (u64, Seq<u8>)|
            m.dom().contains(k2) && k2.1 == k.1 ==> k2 == k && (m[k2] is Uploading),
    ensures
        ({
            let merged = map_join(
                m,
                Map::<(u64, Seq<u8>), crate::object_table::StateV>::empty().insert(
                    k,
                    crate::object_table::StateV::Complete(d),
                ),
                crate::object_table::state_join_fn(),
            );
            &&& merged.dom().contains(k)
            &&& merged[k] == crate::object_table::StateV::Complete(d)
            &&& forall|k2: (u64, Seq<u8>)|
                merged.dom().contains(k2) && k2.1 == k.1 ==> k2 == k
        }),
{
}

/// Turn a client's upload into what must be stored: chunk the body, hash
/// it, address its blocks, verify the supplied digests, check the quotas,
/// and build the rows. Payloads under `INLINE_THRESHOLD` are kept inline in
/// the object row; larger ones go through the block pipeline. This is the
/// unencrypted path; a sealed upload drives `BlockPipeline` with
/// caller-sealed blocks instead.
pub fn save_stream(
    bucket_id: FixedBytes32,
    key: &String,
    headers: ObjectVersionHeaders,
    body_chunks: &Vec<Vec<u8>>,
    block_size: usize,
    existing_object: Option<&Object>,
    quotas: &BucketQuotas,
    counters: &BucketCounters,
    content_md5: Option<&String>,
    content_sha256: Option<FixedBytes32>,
    version_uuid: FixedBytes32,
    now_msec: u64,
) -> (r: Result<SaveStreamOutput, Error>)
    requires
        block_size >= INLINE_THRESHOLD,
        existing_object is Some ==> max_timestamp(existing_object->Some_0.versions@) < u64::MAX,
        existing_object is Some ==> 0 <= sum_sizes(existing_object->Some_0.versions@)
            <= u64::MAX,
        views_of(body_chunks@).flatten().len() <= u64::MAX,
        views_of(body_chunks@).flatten().len() <= usize::MAX,
    ensures
        ({
            let body = views_of(body_chunks@).flatten();
            let ts = match existing_object {
                Some(o) => spec_next_timestamp(o.versions@, now_msec),
                None => now_msec as int,
            };
            let etag_chars = spec_hex(md5_of(body));
            let sha_ok = content_sha256 is Some ==> content_sha256->Some_0@ == sha256_of(body);
            let md5_ok = content_md5 is Some ==> md5_header_matches(
                content_md5->Some_0@,
                md5_of(body),
            );
            let prev_size: int = match existing_object {
                Some(o) => sum_sizes(o.versions@),
                None => 0,
            };
            let obj_bad = objects_quota_violated(existing_object is Some, *quotas, *counters);
            let size_bad = size_quota_violated(
                body.len() as u64,
                prev_size,
                *quotas,
                *counters,
            );
            &&& (r is Ok <==> sha_ok && md5_ok && !obj_bad && !size_bad)
            &&& (!(sha_ok && md5_ok) ==> r is Err && r->Err_0 is BadRequest)
            &&& (sha_ok && md5_ok && (obj_bad || size_bad) ==> r is Err && r->Err_0 is Forbidden)
            &&& (r is Ok ==> {
                let out = r->Ok_0;
                let v = out.final_object.versions@[0];
                &&& out.result.version_uuid == version_uuid
                &&& out.result.version_timestamp as int == ts
                &&& out.result.etag@ == etag_chars
                &&& out.final_object.wf()
                &&& out.final_object.bucket_id == bucket_id
                &&& out.final_object.key@ == key@
                &&& out.final_object.versions@.len() == 1
                &&& v.uuid == version_uuid
                &&& v.timestamp as int == ts
                &&& v.state@ is Complete
                &&& out.inline == (body.len() < INLINE_THRESHOLD)
                &&& (out.inline ==> {
                    &&& v.state@ == crate::object_table::StateV::Complete(
                        crate::object_table::DataV::Inline(
                            crate::object_table::MetaV {
                                encryption: crate::object_table::EncryptionV::Plain {
                                    headers: headers@,
                                },
                                size: body.len() as u64,
                                etag: etag_chars,
                            },
                            body,
                        ),
                    )
                    &&& out.writes@.len() == 0
                    &&& out.uploading_object is None
                    &&& out.empty_version is None
                })
                &&& (!out.inline ==> {
                    let chunks = chunk_bytes(body, block_size as int);
                    let u = out.uploading_object->Some_0;
                    let ev = out.empty_version->Some_0;
                    &&& v.state@ == crate::object_table::StateV::Complete(
                        crate::object_table::DataV::FirstBlock(
                            crate::object_table::MetaV {
                                encryption: crate::object_table::EncryptionV::Plain {
                                    headers: headers@,
                                },
                                size: body.len() as u64,
                                etag: etag_chars,
                            },
                            blake2b32_of(chunks[0]),
                        ),
                    )
                    &&& out.uploading_object is Some
                    &&& u.wf()
                    &&& u.bucket_id == bucket_id
                    &&& u.key@ == key@
                    &&& u.versions@.len() == 1
                    &&& u.versions@[0].uuid == version_uuid
                    &&& u.versions@[0].timestamp as int == ts
                    &&& u.versions@[0].state@ == (crate::object_table::StateV::Uploading {
                        encryption: crate::object_table::EncryptionV::Plain { headers: headers@ },
                        multipart: false,
                    })
                    &&& out.empty_version is Some
                    &&& ev.uuid == version_uuid
                    &&& ev@.bucket_id == bucket_id@
                    &&& ev@.key == key@
                    &&& !ev.deleted
                    &&& ev.blocks@.len() == 0
                    &&& out.writes@.len() == chunks.len()
                    &&& forall|i: int|
                        0 <= i < out.writes@.len() ==> {
                            let w = #[trigger] out.writes@[i];
                            &&& w.data@ == chunks[i]
                            &&& w.hash@ == blake2b32_of(chunks[i])
                            &&& w.offset == bytes_before(chunks, i)
                            &&& w.order_offset == w.offset
                            &&& w.size == chunks[i].len()
                            &&& w.part_number == 1
                            &&& w.block_ref.block == w.hash
                            &&& w.block_ref.version == version_uuid
                            &&& w.block_ref.deleted == false
                            &&& w.version_row.uuid == version_uuid
                        }
                })
            })
        }),
{
    let ghost body = views_of(body_chunks@).flatten();

    // Re-chunk the upstream bytes into storage blocks.
    let mut chunker = StreamChunker::new(block_size);
    let mut ci: usize = 0;
    proof {
        assert(views_of(body_chunks@).take(0) =~= Seq::<Seq<u8>>::empty());
        assert(views_of(body_chunks@).take(0).flatten() =~= Seq::<u8>::empty());
    }
    while ci < body_chunks.len()
        invariant
            body == views_of(body_chunks@).flatten(),
            body.len() <= usize::MAX,
            chunker.block_size == block_size,
            block_size >= 1,
            !chunker.read_all,
            ci <= body_chunks@.len(),
            chunker.buf@ == views_of(body_chunks@).take(ci as int).flatten(),
        decreases body_chunks@.len() - ci,
    {
        let ghost views = views_of(body_chunks@);
        proof {
            assert(views[ci as int] == body_chunks@[ci as int]@);
            assert(views.take(ci + 1) =~= views.take(ci as int).push(views[ci as int]));
            assert(views.take(ci + 1).flatten() == views.take(ci as int).flatten() + views[
                ci as int
            ]);
            lemma_flatten_take_le(views, ci + 1);
        }
        chunker.feed(body_chunks[ci].as_slice());
        ci = ci + 1;
    }
    proof {
        assert(views_of(body_chunks@).take(body_chunks@.len() as int) =~= views_of(body_chunks@));
    }
    chunker.set_eof();
    let mut blocks: Vec<Vec<u8>> = Vec::new();
    let mut done = false;
    proof {
        assert(views_of(blocks@) =~= Seq::<Seq<u8>>::empty());
        assert(Seq::<Seq<u8>>::empty() + chunk_bytes(body, block_size as int) =~= chunk_bytes(
            body,
            block_size as int,
        ));
    }
    while !done
        invariant
            chunker.read_all,
            chunker.block_size == block_size,
            block_size >= 1,
            chunk_bytes(body, block_size as int) == views_of(blocks@) + chunk_bytes(
                chunker.buf@,
                block_size as int,
            ),
            forall|k: int| 0 <= k < blocks@.len() ==> (#[trigger] blocks@[k])@.len() > 0,
            done ==> chunker.buf@.len() == 0,
        decreases chunker.buf@.len() + (if done {
            0int
        } else {
            1
        }),
    {
        let ghost oldbuf = chunker.buf@;
        match chunker.next() {
            None => {
                done = true;
            },
            Some(b) => {
                proof {
                    if oldbuf.len() <= block_size {
                        assert(oldbuf.take(oldbuf.len() as int) =~= oldbuf);
                        assert(b@ == oldbuf);
                        assert(chunker.buf@ =~= Seq::<u8>::empty());
                        assert(chunk_bytes(oldbuf, block_size as int) == seq![oldbuf]);
                        assert(chunk_bytes(chunker.buf@, block_size as int)
                            =~= Seq::<Seq<u8>>::empty());
                        assert(views_of(blocks@.push(b)) =~= views_of(blocks@).push(b@));
                        assert(views_of(blocks@) + chunk_bytes(oldbuf, block_size as int)
                            =~= views_of(blocks@.push(b)) + chunk_bytes(
                            chunker.buf@,
                            block_size as int,
                        ));
                    } else {
                        assert(b@ == oldbuf.take(block_size as int));
                        assert(chunker.buf@ == oldbuf.skip(block_size as int));
                        assert(chunk_bytes(oldbuf, block_size as int) == seq![
                            oldbuf.take(block_size as int),
                        ] + chunk_bytes(oldbuf.skip(block_size as int), block_size as int));
                        assert(views_of(blocks@.push(b)) =~= views_of(blocks@).push(b@));
                        assert(views_of(blocks@) + chunk_bytes(oldbuf, block_size as int)
                            =~= views_of(blocks@.push(b)) + chunk_bytes(
                            chunker.buf@,
                            block_size as int,
                        ));
                    }
                }
                blocks.push(b);
            },
        }
    }
    proof {
        assert(chunk_bytes(chunker.buf@, block_size as int) =~= Seq::<Seq<u8>>::empty());
        assert(views_of(blocks@) + Seq::<Seq<u8>>::empty() =~= views_of(blocks@));
        assert(views_of(blocks@) == chunk_bytes(body, block_size as int));
        lemma_chunk_bytes_concat(body, block_size as int);
        assert(views_of(blocks@).flatten() == body);
    }

    let version_timestamp = next_timestamp(existing_object, now_msec);

    let first_len: usize = if blocks.len() == 0 {
        0
    } else {
        blocks[0].len()
    };
    proof {
        if blocks@.len() == 0 {
            assert(chunk_bytes(body, block_size as int).len() == 0);
            assert(body.len() == 0);
        } else {
            assert(views_of(blocks@)[0] == blocks@[0]@);
            if body.len() > block_size {
                assert(chunk_bytes(body, block_size as int)[0] == body.take(block_size as int));
                assert(first_len == block_size);
            } else {
                assert(chunk_bytes(body, block_size as int) == seq![body]);
                assert(first_len == body.len());
            }
        }
    }

    if first_len < INLINE_THRESHOLD {
        // Inline fast path: the whole payload fits in the object row.
        proof {
            if blocks@.len() > 0 {
                assert(body.len() <= block_size);
                assert(chunk_bytes(body, block_size as int) == seq![body]);
                assert(blocks@.len() == 1);
                assert(blocks@[0]@ == body);
            }
            assert(body.len() < INLINE_THRESHOLD);
        }
        let data: Vec<u8> = match blocks.pop() {
            Some(d) => d,
            None => Vec::new(),
        };
        proof {
            assert(data@ == body);
        }
        let mut md5h = crate::hashes::Md5Hasher::new();
        md5h.update(data.as_slice());
        proof {
            assert(md5h@ =~= body);
        }
        let data_md5sum = md5h.finalize();
        let data_sha256sum = crate::hashes::sha256sum(data.as_slice());
        match ensure_checksum_matches(
            data_md5sum.as_slice(),
            data_sha256sum,
            content_md5,
            content_sha256,
        ) {
            Ok(()) => {},
            Err(e) => {
                return Err(e);
            },
        }
        let size = data.len() as u64;
        match check_quotas(existing_object, size, quotas, counters) {
            Ok(()) => {},
            Err(e) => {
                return Err(e);
            },
        }
        let etag = crate::data::hex_encode(data_md5sum.as_slice());
        let meta = ObjectVersionMeta {
            encryption: ObjectVersionEncryption::Plain { headers },
            size,
            etag: etag.clone(),
        };
        let mut versions: Vec<ObjectVersion> = Vec::new();
        versions.push(
            ObjectVersion {
                uuid: version_uuid,
                timestamp: version_timestamp,
                state: ObjectVersionState::Complete(ObjectVersionData::Inline(meta, data)),
            },
        );
        let final_object = Object::new(bucket_id, key.clone(), versions);
        Ok(
            SaveStreamOutput {
                result: SaveStreamResult { version_uuid, version_timestamp, etag },
                inline: true,
                uploading_object: None,
                empty_version: None,
                writes: Vec::new(),
                final_object,
            },
        )
    } else {
        // Streamed path: record the upload, write the blocks, promote.
        let uploading = ObjectVersion {
            uuid: version_uuid,
            timestamp: version_timestamp,
            state: ObjectVersionState::Uploading {
                encryption: ObjectVersionEncryption::Plain { headers: headers.clone() },
                multipart: false,
            },
        };
        let mut uversions: Vec<ObjectVersion> = Vec::new();
        uversions.push(uploading);
        let uploading_object = Object::new(bucket_id, key.clone(), uversions);
        let empty_version = Version::new(
            version_uuid,
            VersionBacklink { bucket_id, key: key.clone() },
            false,
        );
        let (writes, out) = read_and_put_blocks(empty_version.clone(), 1, &blocks);
        match ensure_checksum_matches(
            out.data_md5sum.as_slice(),
            out.data_sha256sum,
            content_md5,
            content_sha256,
        ) {
            Ok(()) => {},
            Err(e) => {
                return Err(e);
            },
        }
        match check_quotas(existing_object, out.total_size, quotas, counters) {
            Ok(()) => {},
            Err(e) => {
                return Err(e);
            },
        }
        let etag = crate::data::hex_encode(out.data_md5sum.as_slice());
        let meta = ObjectVersionMeta {
            encryption: ObjectVersionEncryption::Plain { headers },
            size: out.total_size,
            etag: etag.clone(),
        };
        let mut versions: Vec<ObjectVersion> = Vec::new();
        versions.push(
            ObjectVersion {
                uuid: version_uuid,
                timestamp: version_timestamp,
                state: ObjectVersionState::Complete(
                    ObjectVersionData::FirstBlock(meta, out.first_block_hash),
                ),
            },
        );
        let final_object = Object::new(bucket_id, key.clone(), versions);
        proof {
            assert(views_of(blocks@)[0] == blocks@[0]@);
        }
        Ok(
            SaveStreamOutput {
                result: SaveStreamResult { version_uuid, version_timestamp, etag },
                inline: false,
                uploading_object: Some(uploading_object),
                empty_version: Some(empty_version),
                writes,
                final_object,
            },
        )
    }
}

/// The views of a list of header pairs.
pub open spec fn pairs_view(s: Seq<(String, String)>) -> Seq<(Seq<char>, Seq<char>)> {
    s.map(|i: int, p: (String, String)| (p.0@, p.1@))
}

/// The value of the first header with this (lowercase) name, if any.
pub open spec fn header_lookup(s: Seq<(Seq<char>, Seq<char>)>, name: Seq<char>) -> Option<
    Seq<char>,
>
    decreases s.len(),
{
    if s.len() == 0 {
        None
    } else if s[0].0 == name {
        Some(s[0].1)
    } else {
        header_lookup(s.skip(1), name)
    }
}

/// The standard headers preserved with an object.
pub open spec fn spec_is_standard_header(k: Seq<char>) -> bool {
    ||| k == "cache-control"@
    ||| k == "content-disposition"@
    ||| k == "content-encoding"@
    ||| k == "content-language"@
    ||| k == "expires"@
}

/// User metadata headers, preserved by prefix.
pub open spec fn spec_is_amz_meta(k: Seq<char>) -> bool {
    k.len() >= "x-amz-meta-"@.len() && k.take("x-amz-meta-"@.len() as int) == "x-amz-meta-"@
}

/// Which request headers are preserved with the object (besides the
/// content type).
pub open spec fn kept_header_pred() -> spec_fn((Seq<char>, Seq<char>)) -> bool {
    |p: (Seq<char>, Seq<char>)| spec_is_standard_header(p.0) || spec_is_amz_meta(p.0)
}

fn is_kept_header(k: &String) -> (r: bool)
    ensures
        r == (spec_is_standard_header(k@) || spec_is_amz_meta(k@)),
{
    let ks = k.as_str();
    if crate::data::str_eq(ks, "cache-control") {
        return true;
    }
    if crate::data::str_eq(ks, "content-disposition") {
        return true;
    }
    if crate::data::str_eq(ks, "content-encoding") {
        return true;
    }
    if crate::data::str_eq(ks, "content-language") {
        return true;
    }
    if crate::data::str_eq(ks, "expires") {
        return true;
    }
    crate::data::str_starts_with(ks, "x-amz-meta-")
}

/// The content type declared by the request, or `blob` where none is.
/// Header names are expected lowercase, as HTTP/2-style maps deliver them.
pub fn get_mime_type(headers: &Vec<(String, String)>) -> (r: String)
    ensures
        r@ == match header_lookup(pairs_view(headers@), "content-type"@) {
            Some(v) => v,
            None => "blob"@,
        },
{
    let ghost full = pairs_view(headers@);
    let mut i: usize = 0;
    proof {
        assert(full.skip(0) =~= full);
    }
    while i < headers.len()
        invariant
            full == pairs_view(headers@),
            i <= headers@.len(),
            header_lookup(full, "content-type"@) == header_lookup(
                full.skip(i as int),
                "content-type"@,
            ),
        decreases headers@.len() - i,
    {
        let p = &headers[i];
        proof {
            assert(full.skip(i as int)[0] == full[i as int]);
            assert(full[i as int] == (headers@[i as int].0@, headers@[i as int].1@));
            assert(full.skip(i as int).skip(1) =~= full.skip(i + 1));
        }
        if crate::data::str_eq(p.0.as_str(), "content-type") {
            return p.1.clone();
        }
        i = i + 1;
    }
    proof {
        assert(full.skip(headers@.len() as int).len() == 0);
    }
    "blob".to_owned()
}

/// Extract what is preserved with an object from the request headers: the
/// content type, and the standard plus `x-amz-meta-` pairs in request
/// order.
pub fn get_headers(headers: &Vec<(String, String)>) -> (r: ObjectVersionHeaders)
    ensures
        r.content_type@ == match header_lookup(pairs_view(headers@), "content-type"@) {
            Some(v) => v,
            None => "blob"@,
        },
        pairs_view(r.other@) == pairs_view(headers@).filter(kept_header_pred()),
{
    let content_type = get_mime_type(headers);
    let mut other: Vec<(String, String)> = Vec::new();
    let mut i: usize = 0;
    proof {
        assert(pairs_view(headers@).take(0) =~= Seq::<(Seq<char>, Seq<char>)>::empty());
        assert(pairs_view(other@) =~= Seq::<(Seq<char>, Seq<char>)>::empty());
        reveal(Seq::filter);
        assert(Seq::<(Seq<char>, Seq<char>)>::empty().filter(kept_header_pred())
            =~= Seq::<(Seq<char>, Seq<char>)>::empty());
    }
    while i < headers.len()
        invariant
            i <= headers@.len(),
            pairs_view(other@) == pairs_view(headers@).take(i as int).filter(kept_header_pred()),
        decreases headers@.len() - i,
    {
        let ghost full = pairs_view(headers@);
        let p = &headers[i];
        proof {
            assert(full[i as int] == (headers@[i as int].0@, headers@[i as int].1@));
            assert(full.take(i + 1).drop_last() =~= full.take(i as int));
            assert(full.take(i + 1).last() == full[i as int]);
        }
        if is_kept_header(&p.0) {
            other.push((p.0.clone(), p.1.clone()));
            proof {
                reveal(Seq::filter);
                assert((kept_header_pred())(full[i as int]));
                assert(pairs_view(other@) =~= full.take(i as int).filter(kept_header_pred()).push(
                    full[i as int],
                ));
                assert(full.take(i + 1).filter(kept_header_pred()) =~= full.take(i as int).filter(
                    kept_header_pred(),
                ).push(full[i as int]));
            }
        } else {
            proof {
                reveal(Seq::filter);
                assert(!(kept_header_pred())(full[i as int]));
                assert(full.take(i + 1).filter(kept_header_pred()) =~= full.take(i as int).filter(
                    kept_header_pred(),
                ));
            }
        }
        i = i + 1;
    }
    proof {
        assert(pairs_view(headers@).take(headers@.len() as int) =~= pairs_view(headers@));
    }
    ObjectVersionHeaders { content_type, other }
}

} // verus!
