//! How a file falls into blocks.

use vstd::arithmetic::div_mod::{lemma_div_is_ordered, lemma_fundamental_div_mod};
use vstd::prelude::*;

verus! {

/// The block size where none is configured.
pub const DEFAULT_CHUNK_SIZE: usize = 8 * 1024 * 1024;

/// The smallest sensible block size: below it the cost of header, checksum and answer prevails.
pub const MIN_CHUNK: usize = 256 * 1024;

/// How many bytes go into one socket call while progress is shown.
pub const PROGRESS_IO_CHUNK: usize = 256 * 1024;

pub open spec fn smaller(a: int, b: int) -> int {
    if a <= b {
        a
    } else {
        b
    }
}

pub open spec fn larger(a: int, b: int) -> int {
    if a >= b {
        a
    } else {
        b
    }
}

/// The block size that gives every stream two blocks, kept between the smallest sensible size and
/// the configured one.
pub open spec fn block_size(file_size: int, streams: int, configured: int) -> int {
    let aim = larger(file_size / (larger(streams, 1) * 2), 1);
    smaller(larger(aim, smaller(MIN_CHUNK as int, configured)), configured)
}

/// The block size for a file and a number of streams. Only the sender decides it; the receiver is
/// told.
pub fn chunk_size_fuer(file_size: u64, streams: usize, konfiguriert: usize) -> (size: usize)
    requires
        2 * streams <= u64::MAX,
    ensures
        size == block_size(file_size as int, streams as int, konfiguriert as int),
{
    let count: u64 = if streams >= 1 {
        streams as u64
    } else {
        1
    };
    let share: u64 = file_size / (count * 2);
    let aim: u64 = if share >= 1 {
        share
    } else {
        1
    };
    let least: usize = if MIN_CHUNK <= konfiguriert {
        MIN_CHUNK
    } else {
        konfiguriert
    };
    if aim >= konfiguriert as u64 {
        konfiguriert
    } else if aim as usize >= least {
        aim as usize
    } else {
        least
    }
}

/// How many blocks of this size a file has.
pub open spec fn block_count(file_size: int, chunk_size: int) -> int {
    (file_size + chunk_size - 1) / chunk_size
}

/// The number of blocks, of which the block numbers of the protocol hold the last 32 bits.
pub fn total_chunks(file_size: u64, chunk_size: usize) -> (count: u32)
    requires
        chunk_size > 0,
        file_size + chunk_size - 1 <= u64::MAX,
    ensures
        count == block_count(file_size as int, chunk_size as int) % 0x1_0000_0000,
{
    let count: u64 = (file_size + (chunk_size as u64 - 1)) / chunk_size as u64;
    assert((count as u32) as u64 == count % 0x1_0000_0000u64) by (bit_vector);
    count as u32
}

/// Where a block starts in the file.
pub open spec fn block_offset(chunk_id: int, chunk_size: int) -> int {
    chunk_id * chunk_size
}

/// How long a block is: the last one ends with the file.
pub open spec fn block_len(chunk_id: int, file_size: int, chunk_size: int) -> int {
    larger(smaller(file_size - block_offset(chunk_id, chunk_size), chunk_size), 0)
}

/// Place and length of a block.
pub fn chunk_range(chunk_id: u32, file_size: u64, chunk_size: usize) -> (range: (u64, usize))
    requires
        block_offset(chunk_id as int, chunk_size as int) <= u64::MAX,
    ensures
        range.0 == block_offset(chunk_id as int, chunk_size as int),
        range.1 == block_len(chunk_id as int, file_size as int, chunk_size as int),
{
    let offset: u64 = chunk_id as u64 * chunk_size as u64;
    let remaining: u64 = if file_size >= offset {
        file_size - offset
    } else {
        0
    };
    let len: usize = if remaining >= chunk_size as u64 {
        chunk_size
    } else {
        remaining as usize
    };
    (offset, len)
}

/// The block of a file with this number.
pub open spec fn block(file: Seq<u8>, chunk_id: int, chunk_size: int) -> Seq<u8> {
    let from = block_offset(chunk_id, chunk_size);
    file.subrange(from, from + block_len(chunk_id, file.len() as int, chunk_size))
}

/// Up to where the next socket call goes within a block.
pub fn next_piece_end(offset: usize, len: usize) -> (end: usize)
    requires
        offset <= len,
    ensures
        end == smaller(offset + PROGRESS_IO_CHUNK, len as int),
{
    if len - offset >= PROGRESS_IO_CHUNK {
        offset + PROGRESS_IO_CHUNK
    } else {
        len
    }
}

/// The block size lies between the smallest sensible size and the configured one, and is never
/// zero unless zero is configured.
pub proof fn law_block_size_is_bounded(file_size: int, streams: int, configured: int)
    requires
        configured >= 0,
    ensures
        smaller(MIN_CHUNK as int, configured) <= block_size(file_size, streams, configured)
            <= configured,
        configured > 0 ==> block_size(file_size, streams, configured) > 0,
{
}

/// Every stream can have two blocks unless blocks would get smaller than sensible, or than the
/// configured size where that is smaller still. With `n` streams there are so many blocks exactly if
/// the file is longer than `2 * n - 1` blocks of that least size; so there are if half of what each
/// stream gets of the file is not shorter than one.
pub proof fn law_two_blocks_per_stream(file_size: int, streams: int, configured: int)
    requires
        file_size >= 0,
        streams >= 1,
        configured >= 1,
    ensures
        ({
            let least = smaller(MIN_CHUNK as int, configured);
            let count = block_count(file_size, block_size(file_size, streams, configured));
            &&& count >= 2 * streams <==> file_size > (2 * streams - 1) * least
            &&& file_size / (streams * 2) >= least ==> count >= 2 * streams
        }),
{
    let size = block_size(file_size, streams, configured);
    let share = file_size / (streams * 2);
    let least = smaller(MIN_CHUNK as int, configured);
    let parts = streams * 2;
    let count = block_count(file_size, size);
    lemma_fundamental_div_mod(file_size, parts);
    lemma_fundamental_div_mod(file_size + size - 1, size);
    if share >= least {
        assert(1 <= size <= share);
        assert(parts * size <= parts * share && parts * least <= parts * share) by (nonlinear_arith)
            requires
                size <= share,
                least <= share,
                parts >= 1,
        ;
        assert((2 * streams - 1) * least == parts * least - least) by (nonlinear_arith)
            requires
                parts == streams * 2,
        ;
        lemma_div_is_ordered(parts * size, file_size + size - 1, size);
        assert(parts * size / size == parts) by (nonlinear_arith)
            requires
                size >= 1,
        ;
    } else {
        assert(size == least);
        assert((2 * streams - 1) * size == parts * size - size) by (nonlinear_arith)
            requires
                parts == streams * 2,
        ;
        if file_size > (2 * streams - 1) * size {
            lemma_div_is_ordered(parts * size, file_size + size - 1, size);
            assert(parts * size / size == parts) by (nonlinear_arith)
                requires
                    size >= 1,
            ;
        } else if count >= parts {
            assert(size * count >= parts * size) by (nonlinear_arith)
                requires
                    count >= parts,
                    size >= 1,
            ;
        }
    }
}

/// Blocks are as large as they can be: unless they have the configured size, larger ones would not
/// give every stream two; and they are no larger than that, unless they have the least size, which is
/// the smallest sensible one or the configured one where that is smaller.
pub proof fn law_blocks_are_as_large_as_fits(file_size: int, streams: int, configured: int)
    requires
        file_size >= 0,
        streams >= 1,
        configured >= 1,
    ensures
        ({
            let size = block_size(file_size, streams, configured);
            &&& 1 <= size <= configured
            &&& size >= 262_144 || size == configured
            &&& size == configured || 2 * streams * (size + 1) > file_size || size == 262_144
            &&& size == configured || size == 262_144 || 2 * streams * size <= file_size
            &&& file_size >= 2 * streams * configured ==> size == configured
            &&& file_size < 2 * streams * 262_144 && configured >= 262_144 ==> size == 262_144
        }),
{
    let size = block_size(file_size, streams, configured);
    let parts = streams * 2;
    let share = file_size / parts;
    lemma_fundamental_div_mod(file_size, parts);
    assert(2 * streams * (size + 1) == parts * (size + 1) && 2 * streams * size == parts * size && 2
        * streams * configured == parts * configured && 2 * streams * 262_144 == parts * 262_144)
        by (nonlinear_arith)
        requires
            parts == streams * 2,
    ;
    assert(share >= 0) by (nonlinear_arith)
        requires
            share == file_size / parts,
            file_size >= 0,
            parts >= 2,
    ;
    assert(parts * (share + 1) == parts * share + parts) by (nonlinear_arith);
    if size >= share {
        assert(parts * (size + 1) >= parts * (share + 1)) by (nonlinear_arith)
            requires
                size >= share,
                parts >= 1,
        ;
    }
    if size <= share {
        assert(parts * size <= parts * share) by (nonlinear_arith)
            requires
                size <= share,
                parts >= 1,
        ;
    }
    if file_size >= parts * configured {
        assert(share >= configured) by (nonlinear_arith)
            requires
                file_size >= parts * configured,
                file_size < parts * share + parts,
                parts >= 1,
        ;
    }
    if file_size < parts * 262_144 {
        assert(share < 262_144) by (nonlinear_arith)
            requires
                file_size < parts * 262_144,
                file_size >= parts * share,
                parts >= 1,
        ;
    }
}

/// There are just as many blocks as a file needs: with one less there would not be room for it.
pub proof fn law_block_count_is_exact(file_size: int, chunk_size: int)
    requires
        file_size >= 0,
        chunk_size >= 1,
    ensures
        ({
            let count = block_count(file_size, chunk_size);
            &&& 0 <= count
            &&& (count - 1) * chunk_size < file_size
            &&& file_size <= count * chunk_size
        }),
{
    let count = block_count(file_size, chunk_size);
    lemma_fundamental_div_mod(file_size + chunk_size - 1, chunk_size);
    assert(0 <= count) by (nonlinear_arith)
        requires
            count == (file_size + chunk_size - 1) / chunk_size,
            file_size >= 0,
            chunk_size >= 1,
    ;
    assert((count - 1) * chunk_size == chunk_size * count - chunk_size && count * chunk_size
        == chunk_size * count) by (nonlinear_arith);
}

/// Each byte of the file stands in exactly one block: in the block whose number is its position
/// divided by the block size.
pub proof fn law_blocks_tile_the_file(file_size: int, chunk_size: int, position: int, chunk_id: int)
    requires
        chunk_size > 0,
        0 <= position < file_size,
        chunk_id >= 0,
    ensures
        0 <= position / chunk_size < block_count(file_size, chunk_size),
        block_offset(chunk_id, chunk_size) <= position < block_offset(chunk_id, chunk_size)
            + block_len(chunk_id, file_size, chunk_size) <==> chunk_id == position / chunk_size,
{
    let own = position / chunk_size;
    lemma_fundamental_div_mod(position, chunk_size);
    assert(own >= 0) by (nonlinear_arith)
        requires
            chunk_size > 0,
            position >= 0,
            own == position / chunk_size,
    ;
    lemma_div_is_ordered(position + chunk_size, file_size + chunk_size - 1, chunk_size);
    assert((position + chunk_size) / chunk_size == own + 1) by (nonlinear_arith)
        requires
            chunk_size > 0,
            own == position / chunk_size,
    ;
    if chunk_id < own {
        assert((chunk_id + 1) * chunk_size <= own * chunk_size) by (nonlinear_arith)
            requires
                chunk_id + 1 <= own,
                chunk_size > 0,
        ;
        assert((chunk_id + 1) * chunk_size == chunk_id * chunk_size + chunk_size)
            by (nonlinear_arith);
        assert(own * chunk_size == chunk_size * own) by (nonlinear_arith);
    } else if chunk_id > own {
        assert((own + 1) * chunk_size <= chunk_id * chunk_size) by (nonlinear_arith)
            requires
                own + 1 <= chunk_id,
                chunk_size > 0,
        ;
        assert((own + 1) * chunk_size == chunk_size * own + chunk_size) by (nonlinear_arith);
    } else {
        assert(own * chunk_size == chunk_size * own) by (nonlinear_arith);
    }
}

/// A block whose number is in range starts within the file and is not empty.
pub proof fn lemma_block_in_file(file_size: int, chunk_size: int, chunk_id: int)
    requires
        chunk_size > 0,
        file_size >= 0,
        0 <= chunk_id < block_count(file_size, chunk_size),
    ensures
        0 <= block_offset(chunk_id, chunk_size) < file_size,
        0 < block_len(chunk_id, file_size, chunk_size) <= chunk_size,
        block_offset(chunk_id, chunk_size) + block_len(chunk_id, file_size, chunk_size)
            <= file_size,
{
    let count = block_count(file_size, chunk_size);
    lemma_fundamental_div_mod(file_size + chunk_size - 1, chunk_size);
    assert(chunk_id * chunk_size <= (count - 1) * chunk_size) by (nonlinear_arith)
        requires
            chunk_id <= count - 1,
            chunk_size > 0,
    ;
    assert((count - 1) * chunk_size == chunk_size * count - chunk_size) by (nonlinear_arith);
    assert(chunk_id * chunk_size >= 0) by (nonlinear_arith)
        requires
            chunk_id >= 0,
            chunk_size > 0,
    ;
}

/// The total length of the first `n` blocks.
pub open spec fn blocks_len(n: nat, file_size: int, chunk_size: int) -> int
    decreases n,
{
    if n == 0 {
        0
    } else {
        blocks_len((n - 1) as nat, file_size, chunk_size) + block_len(n - 1, file_size, chunk_size)
    }
}

/// The lengths of all blocks add up to the size of the file.
pub proof fn law_block_lengths_add_up(file_size: int, chunk_size: int)
    requires
        chunk_size > 0,
        file_size >= 0,
    ensures
        block_count(file_size, chunk_size) >= 0,
        blocks_len(block_count(file_size, chunk_size) as nat, file_size, chunk_size) == file_size,
{
    let count = block_count(file_size, chunk_size);
    lemma_fundamental_div_mod(file_size + chunk_size - 1, chunk_size);
    assert(count >= 0) by (nonlinear_arith)
        requires
            chunk_size > 0,
            file_size >= 0,
            count == (file_size + chunk_size - 1) / chunk_size,
    ;
    lemma_blocks_len(count as nat, file_size, chunk_size);
    assert(count * chunk_size == chunk_size * count) by (nonlinear_arith);
}

proof fn lemma_blocks_len(n: nat, file_size: int, chunk_size: int)
    requires
        chunk_size > 0,
        file_size >= 0,
    ensures
        blocks_len(n, file_size, chunk_size) == smaller(n * chunk_size, file_size),
    decreases n,
{
    if n > 0 {
        lemma_blocks_len((n - 1) as nat, file_size, chunk_size);
        assert(n * chunk_size == (n - 1) * chunk_size + chunk_size) by (nonlinear_arith);
    } else {
        assert(0 * chunk_size == 0) by (nonlinear_arith);
    }
}

} // verus!
