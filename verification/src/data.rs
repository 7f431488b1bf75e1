//! Identifiers used across the store: 256-bit values serving as version
//! uuids, content hashes and bucket ids, plus their hexadecimal rendering.

use vstd::prelude::*;
use vstd::string::StrSliceExecFns;

verus! {

broadcast use vstd::array::group_array_axioms;

/// A fixed 256-bit identifier. Used both as `Uuid` (random identity of a
/// version or bucket) and as `Hash` (BLAKE2b address of a stored block,
/// SHA-256 of a partition key).
#[derive(Clone, Copy, Debug)]
pub struct FixedBytes32 {
    pub b: [u8; 32],
}

/// Random identity of an object version or a bucket.
pub type Uuid = FixedBytes32;

/// Content address of a block, or a digest.
pub type Hash = FixedBytes32;

impl View for FixedBytes32 {
    type V = Seq<u8>;

    open spec fn view(&self) -> Seq<u8> {
        self.b@
    }
}

impl FixedBytes32 {
    /// Whether the two identifiers hold the same 32 bytes.
    pub fn same(&self, other: &Self) -> (r: bool)
        ensures
            r == (self@ == other@),
    {
        let mut i: usize = 0;
        while i < 32
            invariant
                i <= 32,
                forall|j: int| 0 <= j < i ==> self.b@[j] == other.b@[j],
            decreases 32 - i,
        {
            if self.b[i] != other.b[i] {
                assert(self.b@[i as int] != other.b@[i as int]);
                assert(self.b@ != other.b@);
                return false;
            }
            i = i + 1;
        }
        assert(self.b@ =~= other.b@);
        true
    }
}

impl PartialEq for FixedBytes32 {
    fn eq(&self, other: &Self) -> (r: bool) {
        self.same(other)
    }
}

impl vstd::std_specs::cmp::PartialEqSpecImpl for FixedBytes32 {
    open spec fn obeys_eq_spec() -> bool {
        true
    }

    open spec fn eq_spec(&self, other: &Self) -> bool {
        self@ == other@
    }
}

/// Strict lexicographic order on byte strings, used to break timestamp ties
/// between version uuids.
pub open spec fn lex_lt(a: Seq<u8>, b: Seq<u8>) -> bool
    decreases a.len(),
{
    if b.len() == 0 {
        false
    } else if a.len() == 0 {
        true
    } else if a[0] < b[0] {
        true
    } else if a[0] > b[0] {
        false
    } else {
        lex_lt(a.skip(1), b.skip(1))
    }
}

/// The lexicographic order is irreflexive.
pub proof fn lemma_lex_lt_irrefl(a: Seq<u8>)
    ensures
        !lex_lt(a, a),
    decreases a.len(),
{
    if a.len() > 0 {
        lemma_lex_lt_irrefl(a.skip(1));
    }
}

/// The lexicographic order is transitive.
pub proof fn lemma_lex_lt_trans(a: Seq<u8>, b: Seq<u8>, c: Seq<u8>)
    requires
        lex_lt(a, b),
        lex_lt(b, c),
    ensures
        lex_lt(a, c),
    decreases a.len(),
{
    if a.len() == 0 {
    } else {
        assert(b.len() > 0);
        assert(c.len() > 0);
        if a[0] < b[0] {
            assert(b[0] <= c[0]);
        } else {
            assert(a[0] == b[0]);
            if b[0] < c[0] {
            } else {
                assert(b[0] == c[0]);
                lemma_lex_lt_trans(a.skip(1), b.skip(1), c.skip(1));
            }
        }
    }
}

impl FixedBytes32 {
    /// The all-zero identifier, reported when a deleted object has no
    /// version at all.
    pub fn zero() -> (r: Self)
        ensures
            r@ == Seq::new(32, |i: int| 0u8),
    {
        let r = FixedBytes32 { b: [0u8; 32] };
        assert(r.b@ =~= Seq::new(32, |i: int| 0u8));
        r
    }

    /// Wraps a 32-byte digest.
    pub fn from_vec(v: &Vec<u8>) -> (r: Self)
        requires
            v@.len() == 32,
        ensures
            r@ == v@,
    {
        let mut b = [0u8; 32];
        let mut i: usize = 0;
        while i < 32
            invariant
                i <= 32,
                v@.len() == 32,
                b@.len() == 32,
                forall|j: int| 0 <= j < i ==> b@[j] == v@[j],
            decreases 32 - i,
        {
            b[i] = v[i];
            i = i + 1;
        }
        assert(b@ =~= v@);
        FixedBytes32 { b }
    }

    /// Whether `self` orders strictly before `other` in the lexicographic
    /// byte order.
    pub fn lt(&self, other: &Self) -> (r: bool)
        ensures
            r == lex_lt(self@, other@),
    {
        let mut i: usize = 0;
        assert(self@.skip(0) =~= self@);
        assert(other@.skip(0) =~= other@);
        while i < 32
            invariant
                i <= 32,
                forall|j: int| 0 <= j < i ==> self.b@[j] == other.b@[j],
                lex_lt(self@, other@) == lex_lt(self@.skip(i as int), other@.skip(i as int)),
            decreases 32 - i,
        {
            if self.b[i] < other.b[i] {
                assert(self@.skip(i as int)[0] == self.b@[i as int]);
                assert(other@.skip(i as int)[0] == other.b@[i as int]);
                return true;
            }
            if self.b[i] > other.b[i] {
                assert(self@.skip(i as int)[0] == self.b@[i as int]);
                assert(other@.skip(i as int)[0] == other.b@[i as int]);
                return false;
            }
            assert(self@.skip(i as int)[0] == self.b@[i as int]);
            assert(other@.skip(i as int)[0] == other.b@[i as int]);
            assert(self@.skip(i as int).skip(1) =~= self@.skip(i + 1));
            assert(other@.skip(i as int).skip(1) =~= other@.skip(i + 1));
            i = i + 1;
        }
        assert(self@.skip(32).len() == 0);
        false
    }
}

/// Whether two string slices hold the same characters.
pub fn str_eq(a: &str, b: &str) -> (r: bool)
    ensures
        r == (a@ == b@),
{
    let n = a.unicode_len();
    if n != b.unicode_len() {
        assert(a@.len() != b@.len());
        return false;
    }
    let mut i: usize = 0;
    while i < n
        invariant
            n == a@.len(),
            n == b@.len(),
            i <= n,
            forall|j: int| 0 <= j < i ==> a@[j] == b@[j],
        decreases n - i,
    {
        if a.get_char(i) != b.get_char(i) {
            assert(a@[i as int] != b@[i as int]);
            return false;
        }
        i = i + 1;
    }
    assert(a@ =~= b@);
    true
}

/// Whether `a` starts with the characters of `p`.
pub fn str_starts_with(a: &str, p: &str) -> (r: bool)
    ensures
        r == (a@.len() >= p@.len() && a@.take(p@.len() as int) == p@),
{
    let n = p.unicode_len();
    if a.unicode_len() < n {
        return false;
    }
    let mut i: usize = 0;
    while i < n
        invariant
            n == p@.len(),
            n <= a@.len(),
            i <= n,
            forall|j: int| 0 <= j < i ==> a@[j] == p@[j],
        decreases n - i,
    {
        if a.get_char(i) != p.get_char(i) {
            assert(a@.take(n as int)[i as int] != p@[i as int]);
            return false;
        }
        i = i + 1;
    }
    assert(a@.take(n as int) =~= p@);
    true
}

/// A fresh vector holding the same bytes.
pub fn copy_bytes(v: &Vec<u8>) -> (r: Vec<u8>)
    ensures
        r@ == v@,
{
    let mut r: Vec<u8> = Vec::new();
    let mut i: usize = 0;
    while i < v.len()
        invariant
            i <= v@.len(),
            r@ == v@.take(i as int),
        decreases v@.len() - i,
    {
        r.push(v[i]);
        assert(r@ =~= v@.take(i + 1));
        i = i + 1;
    }
    assert(r@ =~= v@);
    r
}

/// Relies on String::from_utf8: it succeeds exactly on valid UTF-8, and
/// returns the string those bytes encode.
#[verifier::external_body]
pub fn string_from_utf8(v: Vec<u8>) -> (r: Result<String, ()>)
    ensures
        r is Ok <==> vstd::utf8::valid_utf8(v@),
        r is Ok ==> r->Ok_0@ == vstd::utf8::decode_utf8(v@),
{
    match String::from_utf8(v) {
        Ok(s) => Ok(s),
        Err(_) => Err(()),
    }
}

/// The lowercase hexadecimal digit for a nibble.
pub open spec fn nibble_char(n: u8) -> char
    recommends
        n < 16,
{
    if n == 0 {
        '0'
    } else if n == 1 {
        '1'
    } else if n == 2 {
        '2'
    } else if n == 3 {
        '3'
    } else if n == 4 {
        '4'
    } else if n == 5 {
        '5'
    } else if n == 6 {
        '6'
    } else if n == 7 {
        '7'
    } else if n == 8 {
        '8'
    } else if n == 9 {
        '9'
    } else if n == 10 {
        'a'
    } else if n == 11 {
        'b'
    } else if n == 12 {
        'c'
    } else if n == 13 {
        'd'
    } else if n == 14 {
        'e'
    } else {
        'f'
    }
}

/// Lowercase hexadecimal rendering of a byte string: two digits per byte,
/// high nibble first.
pub open spec fn spec_hex(s: Seq<u8>) -> Seq<char> {
    Seq::new(
        s.len() * 2,
        |i: int|
            if i % 2 == 0 {
                nibble_char(s[i / 2] >> 4)
            } else {
                nibble_char(s[i / 2] & 0x0f)
            },
    )
}

/// Relies on hex::encode: lowercase hexadecimal, two digits per input byte,
/// high nibble first.
#[verifier::external_body]
pub fn hex_encode(b: &[u8]) -> (r: String)
    ensures
        r@ == spec_hex(b@),
{
    hex::encode(b)
}

impl FixedBytes32 {
    /// Lowercase hexadecimal rendering, as carried in `x-amz-version-id`
    /// headers and batch-delete responses.
    pub fn to_hex(&self) -> (r: String)
        ensures
            r@ == spec_hex(self@),
    {
        hex_encode(self.b.as_slice())
    }
}

} // verus!
