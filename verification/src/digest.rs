//! The 32-byte hash value that every other component builds on: one-way
//! hashing of byte content, order-sensitive combination of two digests, and
//! lowercase hexadecimal rendering.

use vstd::prelude::*;
use vstd::string::StringSliceAdditionalSpecFns;

verus! {

/// The 32-byte digest that SHA-256 assigns to a byte sequence; the value is
/// a function of the input bytes alone.
pub uninterp spec fn sha256(data: Seq<u8>) -> Seq<u8>;

/// Relies on sha2::Sha256 (via the Digest trait's update/finalize): the
/// 32-byte digest of the input, determined by the input bytes alone.
#[verifier::external_body]
fn sha256_digest(data: &[u8]) -> (r: [u8; 32])
    ensures
        r@ == sha256(data@),
{
    let mut hasher = <sha2::Sha256 as sha2::Digest>::new();
    sha2::Digest::update(&mut hasher, data);
    let out = sha2::Digest::finalize(hasher);
    let mut r = [0u8; 32];
    r.copy_from_slice(&out);
    r
}

/// The sixteen lowercase hexadecimal digits, in value order.
pub open spec fn hex_digits() -> Seq<char> {
    seq!['0', '1', '2', '3', '4', '5', '6', '7', '8', '9', 'a', 'b', 'c', 'd', 'e', 'f']
}

/// Lowercase hexadecimal rendering of a byte sequence: two digits per byte,
/// high nibble first.
pub open spec fn hex_of(bytes: Seq<u8>) -> Seq<char>
    decreases bytes.len(),
{
    if bytes.len() == 0 {
        Seq::empty()
    } else {
        seq![
            hex_digits()[(bytes[0] >> 4) as int],
            hex_digits()[(bytes[0] & 0x0f) as int],
        ] + hex_of(bytes.drop_first())
    }
}

/// Relies on hex::encode: lowercase hexadecimal, two digits per byte, high
/// nibble first.
#[verifier::external_body]
fn hex_encode(bytes: &[u8]) -> (r: String)
    ensures
        r@ == hex_of(bytes@),
{
    hex::encode(bytes)
}

/// Big-endian byte rendering of a 64-bit value.
pub open spec fn u64_be(x: u64) -> Seq<u8> {
    seq![
        (x >> 56) as u8,
        (x >> 48) as u8,
        (x >> 40) as u8,
        (x >> 32) as u8,
        (x >> 24) as u8,
        (x >> 16) as u8,
        (x >> 8) as u8,
        x as u8,
    ]
}

/// Big-endian byte rendering of a 32-bit value.
pub open spec fn u32_be(x: u32) -> Seq<u8> {
    seq![(x >> 24) as u8, (x >> 16) as u8, (x >> 8) as u8, x as u8]
}

/// The 64-bit value read big-endian from the first eight bytes of a
/// sequence.
pub open spec fn u64_from_first8(s: Seq<u8>) -> u64 {
    ((s[0] as u64) << 56) | ((s[1] as u64) << 48) | ((s[2] as u64) << 40) | ((s[3] as u64) << 32)
        | ((s[4] as u64) << 24) | ((s[5] as u64) << 16) | ((s[6] as u64) << 8) | (s[7] as u64)
}

/// Appends the big-endian bytes of `x` to `out`.
pub fn push_u64_be(out: &mut Vec<u8>, x: u64)
    ensures
        final(out)@ == old(out)@ + u64_be(x),
{
    out.push(#[verifier::truncate] ((x >> 56) as u8));
    out.push(#[verifier::truncate] ((x >> 48) as u8));
    out.push(#[verifier::truncate] ((x >> 40) as u8));
    out.push(#[verifier::truncate] ((x >> 32) as u8));
    out.push(#[verifier::truncate] ((x >> 24) as u8));
    out.push(#[verifier::truncate] ((x >> 16) as u8));
    out.push(#[verifier::truncate] ((x >> 8) as u8));
    out.push(#[verifier::truncate] (x as u8));
    assert(out@ =~= old(out)@ + u64_be(x));
}

/// Appends the big-endian bytes of `x` to `out`.
pub fn push_u32_be(out: &mut Vec<u8>, x: u32)
    ensures
        final(out)@ == old(out)@ + u32_be(x),
{
    out.push(#[verifier::truncate] ((x >> 24) as u8));
    out.push(#[verifier::truncate] ((x >> 16) as u8));
    out.push(#[verifier::truncate] ((x >> 8) as u8));
    out.push(#[verifier::truncate] (x as u8));
    assert(out@ =~= old(out)@ + u32_be(x));
}

/// A 32-byte hash value. Equality is byte-exact; a value is only ever
/// produced by hashing bytes or by combining two existing values.
#[derive(Debug, Clone, Copy, Eq)]
pub struct Hash([u8; 32]);

impl View for Hash {
    type V = Seq<u8>;

    closed spec fn view(&self) -> Seq<u8> {
        self.0@
    }
}

impl PartialEq for Hash {
    fn eq(&self, other: &Hash) -> (r: bool) {
        let mut i: usize = 0;
        while i < 32
            invariant
                i <= 32,
                forall|j: int| 0 <= j < i ==> self.0@[j] == other.0@[j],
            decreases 32 - i,
        {
            if self.0[i] != other.0[i] {
                return false;
            }
            i = i + 1;
        }
        proof {
            assert(self.0@ =~= other.0@);
        }
        true
    }
}

impl vstd::std_specs::cmp::PartialEqSpecImpl for Hash {
    open spec fn obeys_eq_spec() -> bool {
        true
    }

    open spec fn eq_spec(&self, other: &Hash) -> bool {
        self@ == other@
    }
}

impl Hash {
    /// Wraps raw bytes as a hash value.
    pub fn new(data: [u8; 32]) -> (r: Self)
        ensures
            r@ == data@,
    {
        Self(data)
    }

    /// One-way hash of arbitrary byte content.
    pub fn from_bytes(bytes: &[u8]) -> (r: Self)
        ensures
            r@ == sha256(bytes@),
    {
        Self(sha256_digest(bytes))
    }

    /// One-way hash of a string's UTF-8 bytes.
    pub fn from_string(data: &str) -> (r: Self)
        ensures
            r@ == sha256(data.spec_bytes()),
    {
        Self::from_bytes(data.as_bytes())
    }

    /// Order-sensitive combination: the hash of this value's bytes followed
    /// by the other's.
    pub fn combine(&self, other: &Hash) -> (r: Hash)
        ensures
            r@ == combine_hashes(self@, other@),
    {
        let mut data: Vec<u8> = Vec::new();
        let mut i: usize = 0;
        while i < 32
            invariant
                i <= 32,
                data@ == self.0@.take(i as int),
            decreases 32 - i,
        {
            data.push(self.0[i]);
            proof {
                assert(data@ =~= self.0@.take(i + 1));
            }
            i = i + 1;
        }
        assert(data@ =~= self@);
        let mut j: usize = 0;
        while j < 32
            invariant
                j <= 32,
                data@ == self@ + other.0@.take(j as int),
            decreases 32 - j,
        {
            data.push(other.0[j]);
            proof {
                assert(data@ =~= self@ + other.0@.take(j + 1));
            }
            j = j + 1;
        }
        assert(data@ =~= self@ + other@);
        Hash(sha256_digest(data.as_slice()))
    }

    /// The raw bytes of the hash value.
    pub fn as_bytes(&self) -> (r: &[u8; 32])
        ensures
            r@ == self@,
    {
        &self.0
    }

    /// The 64-bit value read big-endian from the first eight bytes.
    pub(crate) fn prefix_u64(&self) -> (r: u64)
        ensures
            r == u64_from_first8(self@),
    {
        ((self.0[0] as u64) << 56) | ((self.0[1] as u64) << 48) | ((self.0[2] as u64) << 40)
            | ((self.0[3] as u64) << 32) | ((self.0[4] as u64) << 24) | ((self.0[5] as u64) << 16)
            | ((self.0[6] as u64) << 8) | (self.0[7] as u64)
    }

    /// Lowercase hexadecimal rendering.
    pub fn to_hex(&self) -> (r: String)
        ensures
            r@ == hex_of(self@),
    {
        hex_encode(&self.0)
    }
}

/// The digest of two hash values combined in order: combining `(a, b)` and
/// `(b, a)` hashes different byte strings whenever `a != b`.
pub open spec fn combine_hashes(a: Seq<u8>, b: Seq<u8>) -> Seq<u8> {
    sha256(a + b)
}

} // verus!
