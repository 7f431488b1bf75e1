//! Digests used by the ingestion path: incremental MD5 and SHA-256 over the
//! plaintext stream, BLAKE2b content addresses of stored blocks, and the
//! base64 rendering that `Content-MD5` is compared against.
//!
//! The digest values themselves are named, not described: `md5_of` and its
//! siblings stand for what the outside hash functions return, and every
//! contract in the crate speaks of those names.

use vstd::prelude::*;

verus! {

/// What MD5 returns on a byte string (16 bytes).
pub uninterp spec fn md5_of(s: Seq<u8>) -> Seq<u8>;

/// What SHA-256 returns on a byte string (32 bytes).
pub uninterp spec fn sha256_of(s: Seq<u8>) -> Seq<u8>;

/// What 32-byte BLAKE2b returns on a byte string.
pub uninterp spec fn blake2b32_of(s: Seq<u8>) -> Seq<u8>;

/// What base64 with the standard alphabet and padding returns on a byte
/// string.
pub uninterp spec fn base64_std_of(s: Seq<u8>) -> Seq<char>;

#[verifier::external_type_specification]
#[verifier::external_body]
pub struct ExMd5(md5::Md5);

#[verifier::external_type_specification]
#[verifier::external_body]
pub struct ExSha256(sha2::Sha256);

/// Incremental MD5 digest of a byte stream. The view is the sequence of
/// bytes processed so far.
pub struct Md5Hasher {
    inner: md5::Md5,
    processed: Ghost<Seq<u8>>,
}

impl View for Md5Hasher {
    type V = Seq<u8>;

    closed spec fn view(&self) -> Seq<u8> {
        self.processed@
    }
}

impl Md5Hasher {
    /// Relies on md5::Md5 (digest::Digest::new): a fresh hasher has
    /// processed no bytes.
    #[verifier::external_body]
    pub fn new() -> (r: Self)
        ensures
            r@ == Seq::<u8>::empty(),
    {
        Md5Hasher { inner: <md5::Md5 as md5::Digest>::new(), processed: Ghost(Seq::empty()) }
    }

    /// Relies on digest::Digest::update: appends the bytes to the processed
    /// stream.
    #[verifier::external_body]
    pub fn update(&mut self, data: &[u8])
        ensures
            final(self)@ == old(self)@ + data@,
    {
        md5::Digest::update(&mut self.inner, data);
    }

    /// Relies on digest::Digest::finalize: the 16-byte MD5 digest of all
    /// processed bytes, a function of those bytes alone.
    #[verifier::external_body]
    pub fn finalize(self) -> (r: Vec<u8>)
        ensures
            r@ == md5_of(self@),
            r@.len() == 16,
    {
        md5::Digest::finalize(self.inner).to_vec()
    }
}

/// Incremental SHA-256 digest of a byte stream. The view is the sequence of
/// bytes processed so far.
pub struct Sha256Hasher {
    inner: sha2::Sha256,
    processed: Ghost<Seq<u8>>,
}

impl View for Sha256Hasher {
    type V = Seq<u8>;

    closed spec fn view(&self) -> Seq<u8> {
        self.processed@
    }
}

impl Sha256Hasher {
    /// Relies on sha2::Sha256 (digest::Digest::new): a fresh hasher has
    /// processed no bytes.
    #[verifier::external_body]
    pub fn new() -> (r: Self)
        ensures
            r@ == Seq::<u8>::empty(),
    {
        Sha256Hasher { inner: <sha2::Sha256 as sha2::Digest>::new(), processed: Ghost(Seq::empty()) }
    }

    /// Relies on digest::Digest::update: appends the bytes to the processed
    /// stream.
    #[verifier::external_body]
    pub fn update(&mut self, data: &[u8])
        ensures
            final(self)@ == old(self)@ + data@,
    {
        sha2::Digest::update(&mut self.inner, data);
    }

    /// Relies on digest::Digest::finalize: the 32-byte SHA-256 digest of all
    /// processed bytes, a function of those bytes alone.
    #[verifier::external_body]
    pub fn finalize(self) -> (r: Vec<u8>)
        ensures
            r@ == sha256_of(self@),
            r@.len() == 32,
    {
        sha2::Digest::finalize(self.inner).to_vec()
    }
}

/// Relies on blake2::Blake2b256 (digest::Digest): the 32-byte BLAKE2b digest
/// of the input, a function of the input alone.
#[verifier::external_body]
fn blake2b32_digest(data: &[u8]) -> (r: Vec<u8>)
    ensures
        r@ == blake2b32_of(data@),
        r@.len() == 32,
{
    let mut h = <blake2::Blake2b256 as blake2::Digest>::new();
    blake2::Digest::update(&mut h, data);
    blake2::Digest::finalize(h).to_vec()
}

/// Relies on base64::engine::Engine::encode with the standard engine
/// (standard alphabet, padding): the result depends on the input bytes
/// alone, and an empty input encodes to the empty string.
#[verifier::external_body]
pub fn base64_encode(data: &[u8]) -> (r: String)
    ensures
        r@ == base64_std_of(data@),
        data@.len() == 0 ==> r@.len() == 0,
{
    base64::Engine::encode(&base64::prelude::BASE64_STANDARD, data)
}

/// SHA-256 of a whole byte string, as a table partition hash or an integrity
/// digest.
pub fn sha256sum(data: &[u8]) -> (r: crate::data::Hash)
    ensures
        r@ == sha256_of(data@),
{
    let mut h = Sha256Hasher::new();
    h.update(data);
    assert(h@ =~= data@);
    let out = h.finalize();
    crate::data::FixedBytes32::from_vec(&out)
}

/// The 32-byte BLAKE2b content address of a stored block.
pub fn blake2sum(data: &[u8]) -> (r: crate::data::Hash)
    ensures
        r@ == blake2b32_of(data@),
{
    let out = blake2b32_digest(data);
    crate::data::FixedBytes32::from_vec(&out)
}

} // verus!
