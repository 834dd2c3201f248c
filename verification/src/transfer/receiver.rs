//! The receiving side: which blocks are believed, where they are written, and when the file is
//! complete.

use vstd::prelude::*;

use crate::protocol::transfer::{ChunkAckMessage, ChunkHeaderMessage, MessageType};
use crate::transfer::chunking::{
    block, block_count, block_offset, law_blocks_tile_the_file, lemma_block_in_file,
};
use crate::transfer::sender::{header_of, lemma_ids_below};
use crate::wire::{checksum, crc32};

verus! {

/// Why a stream of the receiving side gives up.
#[derive(Debug, Clone, Copy, PartialEq, Eq, Structural)]
pub enum ReceiveError {
    /// The stream broke while the sender was not done.
    Broken,
    /// The type byte stands for no message.
    UnknownMessage,
    /// The message has no place in this phase.
    UnexpectedMessage,
    /// The header of a block is too short.
    MalformedHeader,
    /// The block number is not below the number of blocks.
    ChunkOutOfRange { chunk_id: u32, total: usize },
    /// The block does not lie within the file.
    OutsideFile { chunk_id: u32, len: u32, offset: u64, file_size: u64 },
}

/// What follows a type byte.
#[derive(Debug, Clone, Copy, PartialEq, Eq, Structural)]
pub enum Incoming {
    /// The rest of a block header, and the block.
    Chunk,
    /// Nothing: the sender is done.
    Done,
}

/// What a type byte announces.
pub fn on_type_byte(byte: u8) -> (r: Result<Incoming, ReceiveError>)
    ensures
        r == if byte == MessageType::ChunkHeader.code() {
            Ok::<Incoming, ReceiveError>(Incoming::Chunk)
        } else if byte == MessageType::Done.code() {
            Ok(Incoming::Done)
        } else if exists|m: MessageType| #[trigger] m.code() == byte {
            Err(ReceiveError::UnexpectedMessage)
        } else {
            Err(ReceiveError::UnknownMessage)
        },
{
    match MessageType::from_u8(byte) {
        None => {
            assert(MessageType::ChunkHeader.code() != byte);
            assert(MessageType::Done.code() != byte);
            Err(ReceiveError::UnknownMessage)
        },
        Some(m) => {
            assert(m.code() == byte);
            match m {
                MessageType::ChunkHeader => Ok(Incoming::Chunk),
                MessageType::Done => Ok(Incoming::Done),
                _ => Err(ReceiveError::UnexpectedMessage),
            }
        },
    }
}

/// What is wrong with a block header, if anything: its number and its place come from the peer and
/// are held against the number of blocks and the size of the file.
pub open spec fn header_fault(
    header: ChunkHeaderMessage,
    total: nat,
    file_size: u64,
) -> Option<ReceiveError> {
    if header.chunk_id >= total {
        Some(ReceiveError::ChunkOutOfRange { chunk_id: header.chunk_id, total: total as usize })
    } else if header.offset >= file_size || header.offset + header.len > file_size {
        Some(
            ReceiveError::OutsideFile {
                chunk_id: header.chunk_id,
                len: header.len,
                offset: header.offset,
                file_size,
            },
        )
    } else {
        None
    }
}

/// Which blocks of the file have arrived; shared by the workers of all streams.
pub struct ReceiveBoard {
    flags: Vec<bool>,
    count: usize,
    file_size: u64,
    done: bool,
    /// The numbers of the blocks that have arrived.
    arrived: Ghost<Set<u32>>,
}

impl ReceiveBoard {
    /// The numbers of the blocks that have arrived.
    pub closed spec fn arrived(self) -> Set<u32> {
        self.arrived@
    }

    /// How many blocks the file has.
    pub closed spec fn total(self) -> nat {
        self.flags@.len()
    }

    pub closed spec fn file_size(self) -> u64 {
        self.file_size
    }

    /// Whether the sender has said that it is done.
    pub closed spec fn done(self) -> bool {
        self.done
    }

    /// A flag is set exactly for the blocks that have arrived, and the count is their number.
    pub closed spec fn wf(self) -> bool {
        &&& self.flags@.len() <= u32::MAX
        &&& self.arrived@.finite()
        &&& self.count == self.arrived@.len()
        &&& forall|id: u32| #[trigger]
            self.arrived@.contains(id) <==> id < self.flags@.len() && self.flags@[id as int]
    }

    /// Nothing has arrived.
    pub fn new(total: u32, file_size: u64) -> (b: ReceiveBoard)
        ensures
            b.wf(),
            b.total() == total,
            b.file_size() == file_size,
            b.arrived() == Set::<u32>::empty(),
            !b.done(),
    {
        let mut flags: Vec<bool> = Vec::new();
        let mut i: u32 = 0;
        while i < total
            invariant
                i <= total,
                flags@.len() == i,
                forall|k: int| 0 <= k < i ==> !flags@[k],
            decreases total - i,
        {
            flags.push(false);
            i = i + 1;
        }
        ReceiveBoard { flags, count: 0, file_size, done: false, arrived: Ghost(Set::empty()) }
    }

    /// Reads the header of a block and holds it against the file.
    pub fn check_header(&self, data: &[u8]) -> (r: Result<ChunkHeaderMessage, ReceiveError>)
        requires
            self.wf(),
        ensures
            match ChunkHeaderMessage::read(data@) {
                None => r == Err::<ChunkHeaderMessage, _>(ReceiveError::MalformedHeader),
                Some(header) => match header_fault(header, self.total(), self.file_size()) {
                    Some(fault) => r == Err::<ChunkHeaderMessage, _>(fault),
                    None => r == Ok::<_, ReceiveError>(header),
                },
            },
    {
        match ChunkHeaderMessage::decode(data) {
            None => Err(ReceiveError::MalformedHeader),
            Some(header) => {
                if header.chunk_id as usize >= self.flags.len() {
                    return Err(
                        ReceiveError::ChunkOutOfRange {
                            chunk_id: header.chunk_id,
                            total: self.flags.len(),
                        },
                    );
                }
                if header.offset >= self.file_size || header.len as u64 > self.file_size
                    - header.offset {
                    return Err(
                        ReceiveError::OutsideFile {
                            chunk_id: header.chunk_id,
                            len: header.len,
                            offset: header.offset,
                            file_size: self.file_size,
                        },
                    );
                }
                Ok(header)
            },
        }
    }

    /// Notes that a block has been written; a block that had arrived before counts once.
    pub fn mark(&mut self, chunk_id: u32)
        requires
            old(self).wf(),
            chunk_id < old(self).total(),
        ensures
            final(self).wf(),
            final(self).total() == old(self).total(),
            final(self).file_size() == old(self).file_size(),
            final(self).done() == old(self).done(),
            final(self).arrived() == old(self).arrived().insert(chunk_id),
    {
        let index: usize = chunk_id as usize;
        if !self.flags[index] {
            proof {
                assert(!self.arrived@.contains(chunk_id));
                lemma_ids_below(self.arrived@.insert(chunk_id), self.flags@.len() as u32);
            }
            self.flags.set(index, true);
            self.count = self.count + 1;
        } else {
            assert(self.arrived@.contains(chunk_id));
            assert(self.arrived@.insert(chunk_id) =~= self.arrived@);
        }
        proof {
            self.arrived@ = self.arrived@.insert(chunk_id);
        }
    }

    /// Notes that the sender is done.
    pub fn set_done(&mut self)
        requires
            old(self).wf(),
        ensures
            final(self).wf(),
            final(self).total() == old(self).total(),
            final(self).file_size() == old(self).file_size(),
            final(self).arrived() == old(self).arrived(),
            final(self).done(),
    {
        self.done = true;
    }

    pub fn is_done(&self) -> (done: bool)
        ensures
            done == self.done(),
    {
        self.done
    }

    /// What it means that nothing more can be read from a stream: its end once the sender is done,
    /// and an error before.
    pub fn read_failed(&self) -> (r: Result<(), ReceiveError>)
        ensures
            r == if self.done() {
                Ok::<(), ReceiveError>(())
            } else {
                Err(ReceiveError::Broken)
            },
    {
        if self.done {
            Ok(())
        } else {
            Err(ReceiveError::Broken)
        }
    }

    /// How many different blocks have arrived.
    pub fn received(&self) -> (n: usize)
        requires
            self.wf(),
        ensures
            n == self.arrived().len(),
    {
        self.count
    }

    /// Whether every block of the file has arrived.
    pub fn is_complete(&self) -> (complete: bool)
        requires
            self.wf(),
        ensures
            complete == (forall|id: u32| id < self.total() ==> self.arrived().contains(id)),
    {
        proof {
            assert(self.arrived() == self.arrived@ && self.total() == self.flags@.len());
            lemma_ids_below(self.arrived(), self.flags@.len() as u32);
        }
        self.count == self.flags.len()
    }
}

/// The answer to a block, and where it is written and as what it is noted: nowhere and not at all if
/// it is refused.
pub open spec fn judged(header: ChunkHeaderMessage, data: Seq<u8>) -> (
    ChunkAckMessage,
    Option<(u64, u32)>,
) {
    let is_nack = crc32(data) != header.hash32;
    (
        ChunkAckMessage { chunk_id: header.chunk_id, is_nack },
        if is_nack {
            None
        } else {
            Some((header.offset, header.chunk_id))
        },
    )
}

/// The answer to a block: accepted exactly when its checksum is the one in the header.
pub fn answer_block(header: &ChunkHeaderMessage, data: &[u8]) -> (answer: ChunkAckMessage)
    ensures
        answer == (ChunkAckMessage {
            chunk_id: header.chunk_id,
            is_nack: crc32(data@) != header.hash32,
        }),
{
    ChunkAckMessage { chunk_id: header.chunk_id, is_nack: checksum(data) != header.hash32 }
}

/// Judges a block: the answer to it, and, only if it is accepted, where it is to be written and under
/// which number it is then to be noted.
pub fn judge_block(header: &ChunkHeaderMessage, data: &[u8]) -> (r: (
    ChunkAckMessage,
    Option<(u64, u32)>,
))
    ensures
        r == judged(*header, data@),
        r.0.is_nack == (crc32(data@) != header.hash32),
        r.1 == (if r.0.is_nack {
            None
        } else {
            Some((header.offset, header.chunk_id))
        }),
{
    let answer = answer_block(header, data);
    if answer.is_nack {
        (answer, None)
    } else {
        (answer, Some((header.offset, header.chunk_id)))
    }
}

/// A block that the sender makes from its file passes every test of the receiver, as long as its
/// number is in range.
pub proof fn law_sent_block_is_accepted(
    file: Seq<u8>,
    chunk_size: int,
    chunk_id: u32,
    rest: Seq<u8>,
)
    requires
        0 < chunk_size <= u32::MAX,
        file.len() <= u64::MAX,
        chunk_id < block_count(file.len() as int, chunk_size) <= u32::MAX,
    ensures
        ({
            let header = header_of(file, chunk_id, chunk_size);
            &&& ChunkHeaderMessage::read(header.wire() + rest) == Some(header)
            &&& header.chunk_id == chunk_id
            &&& header_fault(
                header,
                block_count(file.len() as int, chunk_size) as nat,
                file.len() as u64,
            ) is None
            &&& header.offset == block_offset(chunk_id as int, chunk_size)
            &&& header.len == block(file, chunk_id as int, chunk_size).len()
            &&& crc32(block(file, chunk_id as int, chunk_size)) == header.hash32
        }),
{
    let header = header_of(file, chunk_id, chunk_size);
    lemma_block_in_file(file.len() as int, chunk_size, chunk_id as int);
    crate::protocol::transfer::law_chunk_header_reads_back(header, rest);
}

/// A block is believed exactly if its number is one of the file's blocks, it starts within the file
/// and it ends within it. The number is looked at first, and what is wrong is told.
pub proof fn law_header_is_held_against_the_file(
    header: ChunkHeaderMessage,
    total: nat,
    file_size: u64,
)
    requires
        total <= usize::MAX,
    ensures
        ({
            let fault = header_fault(header, total, file_size);
            &&& fault is None <==> header.chunk_id < total && header.offset < file_size
                && header.offset + header.len <= file_size
            &&& header.chunk_id >= total ==> fault == Some(
                ReceiveError::ChunkOutOfRange { chunk_id: header.chunk_id, total: total as usize },
            )
            &&& header.chunk_id < total && fault is Some ==> fault == Some(
                ReceiveError::OutsideFile {
                    chunk_id: header.chunk_id,
                    len: header.len,
                    offset: header.offset,
                    file_size,
                },
            )
        }),
{
}

/// A block is accepted exactly if its checksum is the announced one, and the answer names the block.
/// Only an accepted one is written, where its header says, and noted under its number.
pub proof fn law_checksum_decides(header: ChunkHeaderMessage, data: Seq<u8>)
    ensures
        ({
            let (answer, place) = judged(header, data);
            &&& answer.chunk_id == header.chunk_id
            &&& answer.is_nack <==> crc32(data) != header.hash32
            &&& crc32(data) == header.hash32 ==> place == Some((header.offset, header.chunk_id))
            &&& crc32(data) != header.hash32 ==> place is None
        }),
{
}

/// Writing a block changes the bytes of its place to those of the block, and no others.
pub proof fn law_write_stays_in_place(content: Seq<u8>, offset: int, data: Seq<u8>, p: int)
    requires
        0 <= p < content.len(),
    ensures
        written(content, offset, data).len() == content.len(),
        offset <= p < offset + data.len() ==> written(content, offset, data)[p] == data[p - offset],
        p < offset || p >= offset + data.len() ==> written(content, offset, data)[p] == content[p],
{
}

/// The content of a file after writing `data` at `offset`.
pub open spec fn written(content: Seq<u8>, offset: int, data: Seq<u8>) -> Seq<u8> {
    Seq::new(
        content.len(),
        |p: int|
            if offset <= p < offset + data.len() {
                data[p - offset]
            } else {
                content[p]
            },
    )
}

/// A block as it came: its header and its bytes.
#[verifier::ext_equal]
pub struct Arrival {
    pub header: ChunkHeaderMessage,
    pub data: Seq<u8>,
}

impl Arrival {
    /// The content of the file and the numbers that are noted after the block has come.
    pub open spec fn taken_into(self, content: Seq<u8>, noted: Set<u32>) -> (Seq<u8>, Set<u32>) {
        match judged(self.header, self.data).1 {
            Some((offset, chunk_id)) => (
                written(content, offset as int, self.data),
                noted.insert(chunk_id),
            ),
            None => (content, noted),
        }
    }
}

/// The blocks that are accepted.
pub open spec fn accepted() -> spec_fn(Arrival) -> bool {
    |a: Arrival| !judged(a.header, a.data).0.is_nack
}

/// The content of the file and the numbers that are noted after these blocks have come.
pub open spec fn taken_in(blank: Seq<u8>, arrivals: Seq<Arrival>) -> (Seq<u8>, Set<u32>)
    decreases arrivals.len(),
{
    if arrivals.len() == 0 {
        (blank, Set::empty())
    } else {
        let (content, noted) = taken_in(blank, arrivals.drop_last());
        arrivals.last().taken_into(content, noted)
    }
}

/// Refused blocks leave no trace, neither in the file nor in what is noted: both are as if only the
/// accepted ones had come.
pub proof fn law_refused_blocks_leave_no_trace(blank: Seq<u8>, arrivals: Seq<Arrival>)
    ensures
        taken_in(blank, arrivals) == taken_in(blank, arrivals.filter(accepted())),
    decreases arrivals.len(),
{
    reveal(Seq::filter);
    if arrivals.len() > 0 {
        let front = arrivals.drop_last();
        let kept = front.filter(accepted());
        law_refused_blocks_leave_no_trace(blank, front);
        if accepted()(arrivals.last()) {
            assert(kept.push(arrivals.last()).drop_last() == kept);
        }
    }
}

/// The numbers of blocks, in the order in which they came.
pub open spec fn numbers(arrivals: Seq<Arrival>) -> Seq<u32> {
    arrivals.map_values(|a: Arrival| a.header.chunk_id)
}

/// Whether a block is one that the sender makes from its file.
pub open spec fn sent_from(a: Arrival, file: Seq<u8>, chunk_size: int) -> bool {
    &&& a.header.chunk_id < block_count(file.len() as int, chunk_size)
    &&& a.header == header_of(file, a.header.chunk_id, chunk_size)
    &&& a.data == block(file, a.header.chunk_id as int, chunk_size)
}

proof fn lemma_taken_in(
    blank: Seq<u8>,
    file: Seq<u8>,
    chunk_size: int,
    arrivals: Seq<Arrival>,
)
    requires
        0 < chunk_size <= u32::MAX,
        file.len() <= u64::MAX,
        block_count(file.len() as int, chunk_size) <= u32::MAX,
        forall|k: int| 0 <= k < arrivals.len() ==> sent_from(#[trigger] arrivals[k], file, chunk_size),
    ensures
        taken_in(blank, arrivals).0 == assembled(blank, file, chunk_size, numbers(arrivals)),
        forall|id: u32| #[trigger]
            taken_in(blank, arrivals).1.contains(id) <==> numbers(arrivals).contains(id),
    decreases arrivals.len(),
{
    let order = numbers(arrivals);
    if arrivals.len() > 0 {
        let n = arrivals.len() - 1;
        let front = arrivals.drop_last();
        let last = arrivals[n];
        let before = numbers(front);
        lemma_taken_in(blank, file, chunk_size, front);
        assert(sent_from(last, file, chunk_size));
        law_sent_block_is_accepted(file, chunk_size, last.header.chunk_id, Seq::empty());
        assert(order.drop_last() == before);
        assert(order == before.push(last.header.chunk_id));
        assert forall|id: u32| #[trigger]
            taken_in(blank, arrivals).1.contains(id) <==> order.contains(id) by {
            if before.contains(id) {
                let k = choose|k: int| 0 <= k < before.len() && before[k] == id;
                assert(order[k] == id);
            }
            if order.contains(id) && id != last.header.chunk_id {
                let k = choose|k: int| 0 <= k < order.len() && order[k] == id;
                assert(before[k] == id);
            }
            assert(order[n] == last.header.chunk_id);
        }
    }
}

/// Once every block is noted, the receiver's file is the sender's, whatever the file held before, in
/// whatever order the blocks came, however often some came, and whatever else came and was refused.
/// Every block that is accepted has to be one of the sender's.
pub proof fn law_noted_blocks_make_the_file(
    blank: Seq<u8>,
    file: Seq<u8>,
    chunk_size: int,
    arrivals: Seq<Arrival>,
)
    requires
        0 < chunk_size <= u32::MAX,
        blank.len() == file.len() <= u64::MAX,
        block_count(file.len() as int, chunk_size) <= u32::MAX,
        forall|k: int|
            0 <= k < arrivals.len() ==> accepted()(#[trigger] arrivals[k]) ==> sent_from(
                arrivals[k],
                file,
                chunk_size,
            ),
        forall|id: u32|
            id < block_count(file.len() as int, chunk_size) ==> #[trigger] taken_in(
                blank,
                arrivals,
            ).1.contains(id),
    ensures
        taken_in(blank, arrivals).0 == file,
{
    let kept = arrivals.filter(accepted());
    law_refused_blocks_leave_no_trace(blank, arrivals);
    assert forall|k: int| 0 <= k < kept.len() implies sent_from(
        #[trigger] kept[k],
        file,
        chunk_size,
    ) by {
        arrivals.lemma_filter_contains_rev(accepted(), kept[k]);
    }
    lemma_taken_in(blank, file, chunk_size, kept);
    let order = numbers(kept);
    assert forall|k: int| 0 <= k < order.len() implies order[k] < block_count(
        file.len() as int,
        chunk_size,
    ) by {
        assert(sent_from(kept[k], file, chunk_size));
    }
    assert forall|id: u32|
        id < block_count(file.len() as int, chunk_size) implies #[trigger] order.contains(id) by {
        assert(taken_in(blank, arrivals).1.contains(id));
    }
    law_file_is_assembled(blank, file, chunk_size, order);
}

/// The content of the receiver's file after the blocks with these numbers have been written in
/// this order.
pub open spec fn assembled(
    blank: Seq<u8>,
    file: Seq<u8>,
    chunk_size: int,
    order: Seq<u32>,
) -> Seq<u8>
    decreases order.len(),
{
    if order.len() == 0 {
        blank
    } else {
        written(
            assembled(blank, file, chunk_size, order.drop_last()),
            block_offset(order.last() as int, chunk_size),
            block(file, order.last() as int, chunk_size),
        )
    }
}

proof fn lemma_assembled(
    blank: Seq<u8>,
    file: Seq<u8>,
    chunk_size: int,
    order: Seq<u32>,
    position: int,
)
    requires
        blank.len() == file.len(),
        chunk_size > 0,
        0 <= position < file.len(),
        forall|k: int| 0 <= k < order.len() ==> order[k] < block_count(file.len() as int, chunk_size),
    ensures
        assembled(blank, file, chunk_size, order).len() == file.len(),
        (exists|k: int| 0 <= k < order.len() && order[k] == position / chunk_size) ==> assembled(
            blank,
            file,
            chunk_size,
            order,
        )[position] == file[position],
    decreases order.len(),
{
    if order.len() > 0 {
        let front = order.drop_last();
        let last = order.last() as int;
        lemma_assembled(blank, file, chunk_size, front, position);
        law_blocks_tile_the_file(file.len() as int, chunk_size, position, last);
        lemma_block_in_file(file.len() as int, chunk_size, last);
        if last != position / chunk_size && exists|k: int|
            0 <= k < order.len() && order[k] == position / chunk_size {
            let k = choose|k: int| 0 <= k < order.len() && order[k] == position / chunk_size;
            assert(front[k] == position / chunk_size);
        }
    }
}

/// Once every block has arrived, the receiver's file is the sender's, in whatever order the blocks
/// came, however often some came, and whatever the file held before.
pub proof fn law_file_is_assembled(
    blank: Seq<u8>,
    file: Seq<u8>,
    chunk_size: int,
    order: Seq<u32>,
)
    requires
        blank.len() == file.len(),
        chunk_size > 0,
        forall|k: int| 0 <= k < order.len() ==> order[k] < block_count(file.len() as int, chunk_size),
        block_count(file.len() as int, chunk_size) <= u32::MAX,
        forall|id: u32|
            id < block_count(file.len() as int, chunk_size) ==> #[trigger] order.contains(id),
    ensures
        assembled(blank, file, chunk_size, order) == file,
{
    let count = block_count(file.len() as int, chunk_size);
    lemma_assembled_len(blank, file, chunk_size, order);
    assert forall|p: int| 0 <= p < file.len() implies #[trigger] assembled(
        blank,
        file,
        chunk_size,
        order,
    )[p] == file[p] by {
        lemma_assembled(blank, file, chunk_size, order, p);
        law_blocks_tile_the_file(file.len() as int, chunk_size, p, p / chunk_size);
        let id = (p / chunk_size) as u32;
        assert(order.contains(id));
        let k = choose|k: int| 0 <= k < order.len() && order[k] == id;
        assert(order[k] == p / chunk_size);
    }
    assert(assembled(blank, file, chunk_size, order) =~= file);
}

/// A board that is complete stands for a file that is the sender's, if the blocks it has noted are
/// those that were written.
pub proof fn law_complete_board_means_whole_file(
    board: ReceiveBoard,
    blank: Seq<u8>,
    file: Seq<u8>,
    chunk_size: int,
    order: Seq<u32>,
)
    requires
        board.wf(),
        board.total() == block_count(file.len() as int, chunk_size),
        blank.len() == file.len(),
        chunk_size > 0,
        forall|id: u32| #[trigger] board.arrived().contains(id) <==> order.contains(id),
        forall|id: u32| id < board.total() ==> #[trigger] board.arrived().contains(id),
    ensures
        assembled(blank, file, chunk_size, order) == file,
{
    assert forall|k: int| 0 <= k < order.len() implies order[k] < block_count(
        file.len() as int,
        chunk_size,
    ) by {
        assert(order.contains(order[k]));
        assert(board.arrived().contains(order[k]));
    }
    assert forall|id: u32|
        id < block_count(file.len() as int, chunk_size) implies #[trigger] order.contains(id) by {
        assert(board.arrived().contains(id));
    }
    law_file_is_assembled(blank, file, chunk_size, order);
}

proof fn lemma_assembled_len(blank: Seq<u8>, file: Seq<u8>, chunk_size: int, order: Seq<u32>)
    ensures
        assembled(blank, file, chunk_size, order).len() == blank.len(),
    decreases order.len(),
{
    if order.len() > 0 {
        lemma_assembled_len(blank, file, chunk_size, order.drop_last());
    }
}

} // verus!
