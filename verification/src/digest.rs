//! The SHA-256 checksum of a file, taken block by block.

use sha2::{Digest, Sha256};
use vstd::prelude::*;

verus! {

/// The bytes that a hasher holds: what it was given so far, in order.
pub uninterp spec fn absorbed(hasher: Hasher) -> Seq<u8>;

/// The SHA-256 checksum of a sequence of bytes.
pub uninterp spec fn sha256(data: Seq<u8>) -> Seq<u8>;

/// The length from which on SHA-256 is not defined: its length field has 64 bits and counts bits.
pub const MAX_HASHED: u64 = 0x2000_0000_0000_0000;

/// The `Sha256` of the `sha2` crate, whose type parameters are bound by traits of that crate.
#[verifier::external_body]
pub struct Hasher {
    inner: Sha256,
}

/// `Sha256::new` starts with no bytes.
#[verifier::external_body]
fn hasher_new() -> (hasher: Hasher)
    ensures
        absorbed(hasher) == Seq::<u8>::empty(),
{
    Hasher { inner: Sha256::new() }
}

/// `Digest::update` on a `Sha256` takes in the bytes behind those it has.
#[verifier::external_body]
fn hasher_update(hasher: &mut Hasher, data: &[u8])
    requires
        absorbed(*old(hasher)).len() + data@.len() < MAX_HASHED,
    ensures
        absorbed(*final(hasher)) == absorbed(*old(hasher)) + data@,
{
    hasher.inner.update(data);
}

/// `Digest::finalize` on a `Sha256` gives a checksum of 32 bytes, which depends on the bytes taken
/// in alone.
#[verifier::external_body]
fn hasher_finalize(hasher: Hasher) -> (sum: [u8; 32])
    requires
        absorbed(hasher).len() < MAX_HASHED,
    ensures
        sum@ == sha256(absorbed(hasher)),
{
    hasher.inner.finalize().into()
}

/// A checksum in the making.
pub struct FileDigest {
    hasher: Hasher,
}

impl View for FileDigest {
    type V = Seq<u8>;

    /// The bytes taken in so far.
    closed spec fn view(&self) -> Seq<u8> {
        absorbed(self.hasher)
    }
}

impl FileDigest {
    pub fn new() -> (d: FileDigest)
        ensures
            d@ == Seq::<u8>::empty(),
    {
        FileDigest { hasher: hasher_new() }
    }

    /// Takes in the next block.
    pub fn update(&mut self, block: &[u8])
        requires
            old(self)@.len() + block@.len() < MAX_HASHED,
        ensures
            final(self)@ == old(self)@ + block@,
    {
        hasher_update(&mut self.hasher, block);
    }

    /// The checksum of all that was taken in.
    pub fn finish(self) -> (sum: [u8; 32])
        requires
            self@.len() < MAX_HASHED,
        ensures
            sum@ == sha256(self@),
    {
        hasher_finalize(self.hasher)
    }
}

/// What a digest holds after taking in these blocks one after the other.
pub open spec fn taken_in(blocks: Seq<Seq<u8>>) -> Seq<u8>
    decreases blocks.len(),
{
    if blocks.len() == 0 {
        Seq::empty()
    } else {
        taken_in(blocks.drop_last()) + blocks.last()
    }
}

/// The checksum of a file does not depend on the blocks in which it was read.
pub proof fn law_checksum_ignores_blocks(a: Seq<Seq<u8>>, b: Seq<Seq<u8>>)
    requires
        a.flatten() == b.flatten(),
    ensures
        taken_in(a) == a.flatten(),
        sha256(taken_in(a)) == sha256(taken_in(b)),
{
    lemma_taken_in(a);
    lemma_taken_in(b);
}

proof fn lemma_taken_in(blocks: Seq<Seq<u8>>)
    ensures
        taken_in(blocks) == blocks.flatten(),
    decreases blocks.len(),
{
    if blocks.len() > 0 {
        lemma_taken_in(blocks.drop_last());
        blocks.lemma_flatten_and_flatten_alt_are_equivalent();
        blocks.drop_last().lemma_flatten_and_flatten_alt_are_equivalent();
    }
}

/// A digit of a number in base 16.
pub open spec fn hex_digit(d: int) -> char {
    if d < 10 {
        (48 + d) as char
    } else {
        (87 + d) as char
    }
}

/// Bytes in base 16, two lower-case digits each.
pub open spec fn hex(bytes: Seq<u8>) -> Seq<char> {
    Seq::new(
        2 * bytes.len(),
        |i: int|
            if i % 2 == 0 {
                hex_digit(bytes[i / 2] as int / 16)
            } else {
                hex_digit(bytes[i / 2] as int % 16)
            },
    )
}

/// Each byte is written as two digits of base 16, the higher one first.
pub proof fn law_hex_shows_each_byte(bytes: Seq<u8>, i: int)
    requires
        0 <= i < bytes.len(),
    ensures
        hex(bytes).len() == 2 * bytes.len(),
        hex(bytes)[2 * i] == "0123456789abcdef"@[bytes[i] as int / 16],
        hex(bytes)[2 * i + 1] == "0123456789abcdef"@[bytes[i] as int % 16],
{
    reveal_strlit("0123456789abcdef");
    let (high, low) = (bytes[i] as int / 16, bytes[i] as int % 16);
    assert(0 <= high < 16 && 0 <= low < 16);
    assert forall|d: int| 0 <= d < 16 implies hex_digit(d) == #[trigger] "0123456789abcdef"@[d] by {
        assert(d == 0 || d == 1 || d == 2 || d == 3 || d == 4 || d == 5 || d == 6 || d == 7 || d
            == 8 || d == 9 || d == 10 || d == 11 || d == 12 || d == 13 || d == 14 || d == 15);
    }
    assert((2 * i) / 2 == i && (2 * i) % 2 == 0 && (2 * i + 1) / 2 == i && (2 * i + 1) % 2 == 1);
}

fn push_hex_digit(s: &mut String, d: u8)
    requires
        d < 16,
    ensures
        final(s)@ == old(s)@.push(hex_digit(d as int)),
{
    let c: char = if d < 10 {
        (48 + d) as char
    } else {
        (87 + d) as char
    };
    s.push(c);
}

/// A checksum as text in base 16.
pub fn sha256_to_hex(hash: &[u8; 32]) -> (s: String)
    ensures
        s@ == hex(hash@),
{
    let mut s: String = String::new();
    let mut i: usize = 0;
    while i < 32
        invariant
            i <= 32,
            s@ == hex(hash@.take(i as int)),
        decreases 32 - i,
    {
        push_hex_digit(&mut s, hash[i] / 16);
        push_hex_digit(&mut s, hash[i] % 16);
        assert(s@ =~= hex(hash@.take(i + 1)));
        i = i + 1;
    }
    assert(hash@.take(32) == hash@);
    s
}

} // verus!
