//! Bytes on the wire: big-endian numbers, the byte buffers of the `bytes` crate, UTF-8 text and
//! checksums.

use bytes::{Buf, BufMut, Bytes, BytesMut};
use vstd::prelude::*;
use vstd::utf8::{decode_utf8, valid_utf8};

verus! {

/// The number that a sequence of bytes writes down, most significant byte first.
pub open spec fn be_value(s: Seq<u8>) -> nat
    decreases s.len(),
{
    if s.len() == 0 {
        0
    } else {
        be_value(s.drop_last()) * 256 + s.last() as nat
    }
}

/// The last `n` bytes of a number, most significant byte first.
pub open spec fn be_bytes(v: nat, n: nat) -> Seq<u8>
    decreases n,
{
    if n == 0 {
        Seq::empty()
    } else {
        be_bytes(v / 256, (n - 1) as nat).push((v % 256) as u8)
    }
}

/// 256 to the power `n`: one more than the largest number of `n` bytes.
pub open spec fn byte_range(n: nat) -> nat
    decreases n,
{
    if n == 0 {
        1
    } else {
        byte_range((n - 1) as nat) * 256
    }
}

/// Writing a number in `n` bytes and reading it again gives the number back, if it fits.
pub proof fn law_be_reads_back(v: nat, n: nat)
    requires
        v < byte_range(n),
    ensures
        be_bytes(v, n).len() == n,
        be_value(be_bytes(v, n)) == v,
    decreases n,
{
    if n > 0 {
        law_be_reads_back(v / 256, (n - 1) as nat);
        assert(be_bytes(v, n).drop_last() == be_bytes(v / 256, (n - 1) as nat));
    }
}

/// Reading bytes as a number and writing it in as many bytes gives the bytes back.
pub proof fn law_be_writes_back(s: Seq<u8>)
    ensures
        be_value(s) < byte_range(s.len()),
        be_bytes(be_value(s), s.len()) == s,
    decreases s.len(),
{
    if s.len() > 0 {
        law_be_writes_back(s.drop_last());
        assert(s.drop_last().push(s.last()) == s);
    }
}

/// The first byte of a number weighs most: it counts as often as there are numbers in the bytes
/// behind it.
pub proof fn law_first_byte_weighs_most(first: u8, rest: Seq<u8>)
    ensures
        be_value(seq![first] + rest) == first * byte_range(rest.len()) + be_value(rest),
    decreases rest.len(),
{
    let all = seq![first] + rest;
    if rest.len() == 0 {
        assert(all.drop_last() =~= Seq::<u8>::empty());
        assert(be_value(all.drop_last()) == 0);
        assert(byte_range(0) == 1);
        assert(all.last() == first);
    } else {
        law_first_byte_weighs_most(first, rest.drop_last());
        assert(all.drop_last() =~= seq![first] + rest.drop_last());
        let (f, m, v) = (first as int, byte_range((rest.len() - 1) as nat) as int, be_value(
            rest.drop_last(),
        ) as int);
        assert((f * m + v) * 256 == f * (m * 256) + v * 256) by (nonlinear_arith);
    }
}

pub proof fn lemma_be_len(v: nat, n: nat)
    ensures
        be_bytes(v, n).len() == n,
    decreases n,
{
    if n > 0 {
        lemma_be_len(v / 256, (n - 1) as nat);
    }
}

pub proof fn lemma_byte_ranges()
    ensures
        byte_range(1) == 0x100,
        byte_range(4) == 0x1_0000_0000,
        byte_range(8) == 0x1_0000_0000_0000_0000,
{
    reveal_with_fuel(byte_range, 9);
}

/// Appends a number in eight bytes.
pub fn push_be_u64(out: &mut Vec<u8>, v: u64)
    ensures
        final(out)@ == old(out)@ + be_bytes(v as nat, 8),
{
    let ghost start = out@;
    out.push((v / 0x100_0000_0000_0000) as u8);
    out.push((v / 0x1_0000_0000_0000 % 256) as u8);
    out.push((v / 0x100_0000_0000 % 256) as u8);
    out.push((v / 0x1_0000_0000 % 256) as u8);
    out.push((v / 0x100_0000 % 256) as u8);
    out.push((v / 0x1_0000 % 256) as u8);
    out.push((v / 0x100 % 256) as u8);
    out.push((v % 256) as u8);
    proof {
        reveal_with_fuel(be_bytes, 9);
        assert(out@ =~= start + be_bytes(v as nat, 8));
    }
}

/// The last `n` bytes of a number are those of its remainder.
pub proof fn lemma_be_truncated(v: nat, n: nat)
    ensures
        be_bytes(v % byte_range(n), n) == be_bytes(v, n),
    decreases n,
{
    if n > 0 {
        let m = byte_range((n - 1) as nat);
        lemma_be_truncated(v / 256, (n - 1) as nat);
        lemma_range_positive((n - 1) as nat);
        vstd::arithmetic::div_mod::lemma_mod_breakdown(v as int, 256, m as int);
        let r = v % byte_range(n);
        assert(256 * m == m * 256) by (nonlinear_arith);
        assert(r == 256 * ((v / 256) % m) + v % 256);
        assert(r / 256 == (v / 256) % m && r % 256 == v % 256);
    }
}

proof fn lemma_range_positive(n: nat)
    ensures
        byte_range(n) > 0,
    decreases n,
{
    if n > 0 {
        lemma_range_positive((n - 1) as nat);
    }
}

/// The number in the first eight bytes.
pub fn be_u64(data: &[u8]) -> (v: u64)
    requires
        data@.len() >= 8,
    ensures
        v == be_value(data@.take(8)),
{
    let mut v: u64 = 0;
    let mut i: usize = 0;
    while i < 8
        invariant
            i <= 8 <= data@.len(),
            v == be_value(data@.take(i as int)),
            v < byte_range(i as nat),
        decreases 8 - i,
    {
        proof {
            let next = data@.take(i + 1);
            assert(next.drop_last() == data@.take(i as int));
            lemma_byte_ranges();
            reveal_with_fuel(byte_range, 9);
            law_be_writes_back(next);
        }
        v = v * 256 + data[i] as u64;
        i = i + 1;
    }
    v
}

/// The growable buffer of the `bytes` crate.
#[verifier::external_type_specification]
#[verifier::external_body]
pub struct ExBytesMut(BytesMut);

/// The shared, immutable buffer of the `bytes` crate.
#[verifier::external_type_specification]
#[verifier::external_body]
pub struct ExBytes(Bytes);

/// The bytes that a `BytesMut` holds.
pub uninterp spec fn buffer_bytes(b: BytesMut) -> Seq<u8>;

/// The bytes that a `Bytes` holds.
pub uninterp spec fn frozen_bytes(b: Bytes) -> Seq<u8>;

/// `BytesMut::with_capacity` makes an empty buffer. It panics on a capacity above `isize::MAX`.
#[verifier::external_body]
pub(crate) fn buffer_with_capacity(capacity: usize) -> (b: BytesMut)
    requires
        capacity <= isize::MAX,
    ensures
        buffer_bytes(b) == Seq::<u8>::empty(),
{
    BytesMut::with_capacity(capacity)
}

/// `BufMut::put_u8` on a `BytesMut` appends the byte.
#[verifier::external_body]
pub(crate) fn put_u8(b: &mut BytesMut, v: u8)
    requires
        buffer_bytes(*old(b)).len() + 1 <= isize::MAX,
    ensures
        buffer_bytes(*final(b)) == buffer_bytes(*old(b)).push(v),
{
    b.put_u8(v);
}

/// `BufMut::put_u32` on a `BytesMut` appends the number in four bytes, most significant first.
#[verifier::external_body]
pub(crate) fn put_u32(b: &mut BytesMut, v: u32)
    requires
        buffer_bytes(*old(b)).len() + 4 <= isize::MAX,
    ensures
        buffer_bytes(*final(b)) == buffer_bytes(*old(b)) + be_bytes(v as nat, 4),
{
    b.put_u32(v);
}

/// `BufMut::put_u64` on a `BytesMut` appends the number in eight bytes, most significant first.
#[verifier::external_body]
pub(crate) fn put_u64(b: &mut BytesMut, v: u64)
    requires
        buffer_bytes(*old(b)).len() + 8 <= isize::MAX,
    ensures
        buffer_bytes(*final(b)) == buffer_bytes(*old(b)) + be_bytes(v as nat, 8),
{
    b.put_u64(v);
}

/// `BufMut::put_slice` on a `BytesMut` appends the bytes.
#[verifier::external_body]
pub(crate) fn put_slice(b: &mut BytesMut, data: &[u8])
    requires
        buffer_bytes(*old(b)).len() + data@.len() <= isize::MAX,
    ensures
        buffer_bytes(*final(b)) == buffer_bytes(*old(b)) + data@,
{
    b.put_slice(data);
}

/// `Bytes::from` keeps the bytes of the vector.
#[verifier::external_body]
pub(crate) fn freeze(data: Vec<u8>) -> (b: Bytes)
    ensures
        frozen_bytes(b) == data@,
{
    Bytes::from(data)
}

/// `Buf::get_u32` on a slice reads its first four bytes as a number, most significant first. It
/// panics on fewer bytes.
#[verifier::external_body]
pub(crate) fn get_u32(data: &[u8]) -> (v: u32)
    requires
        data@.len() >= 4,
    ensures
        v == be_value(data@.take(4)),
{
    let mut cursor = data;
    cursor.get_u32()
}

/// `Buf::get_u64` on a slice reads its first eight bytes as a number, most significant first. It
/// panics on fewer bytes.
#[verifier::external_body]
pub(crate) fn get_u64(data: &[u8]) -> (v: u64)
    requires
        data@.len() >= 8,
    ensures
        v == be_value(data@.take(8)),
{
    let mut cursor = data;
    cursor.get_u64()
}

/// `String::from_utf8` decodes the bytes, and fails exactly when they are not valid UTF-8.
#[verifier::external_body]
pub(crate) fn utf8_text(data: Vec<u8>) -> (s: Option<String>)
    ensures
        s is Some <==> valid_utf8(data@),
        s matches Some(t) ==> t@ == decode_utf8(data@),
{
    String::from_utf8(data).ok()
}

/// The CRC-32 checksum of a block, as `crc32fast` computes it.
pub uninterp spec fn crc32(data: Seq<u8>) -> u32;

/// `crc32fast::hash`: the checksum depends on the bytes alone.
#[verifier::external_body]
pub(crate) fn checksum(data: &[u8]) -> (sum: u32)
    ensures
        sum == crc32(data@),
{
    crc32fast::hash(data)
}

} // verus!
