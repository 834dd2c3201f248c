//! The sending side: which block goes out next, what its header says, and what an answer means.

use std::collections::VecDeque;
use vstd::prelude::*;

use crate::protocol::transfer::{ChunkAckMessage, ChunkHeaderMessage};
use crate::transfer::chunking::{block, block_offset};
use crate::wire::{checksum, crc32};

verus! {

/// The header of a block of a file.
pub open spec fn header_of(file: Seq<u8>, chunk_id: u32, chunk_size: int) -> ChunkHeaderMessage {
    let data = block(file, chunk_id as int, chunk_size);
    ChunkHeaderMessage {
        chunk_id,
        offset: block_offset(chunk_id as int, chunk_size) as u64,
        len: data.len() as u32,
        hash32: crc32(data),
    }
}

/// The header for a block with this number, place and content.
pub fn chunk_header(chunk_id: u32, offset: u64, data: &[u8]) -> (header: ChunkHeaderMessage)
    requires
        data@.len() <= u32::MAX,
    ensures
        header == (ChunkHeaderMessage {
            chunk_id,
            offset,
            len: data@.len() as u32,
            hash32: crc32(data@),
        }),
{
    ChunkHeaderMessage { chunk_id, offset, len: data.len() as u32, hash32: checksum(data) }
}

/// What a worker of the sending side does next.
#[derive(Debug, Clone, Copy, PartialEq, Eq, Structural)]
pub enum NextChunk {
    /// Send the block with this number.
    Send(u32),
    /// Nothing to send at the moment, but not every block has been accepted yet.
    Wait,
    /// Every block has been accepted.
    Finished,
}

/// What the answer to a block means for the sender.
#[derive(Debug, Clone, Copy, PartialEq, Eq, Structural)]
pub enum AckOutcome {
    /// The block was accepted; `all` tells whether it was the last one.
    Accepted { all: bool },
    /// The block was rejected and goes out again; its bytes do not count as sent.
    Again,
    /// There was no usable answer: the block goes out on another stream, and this worker stops.
    Lost,
}

/// The blocks that are still to be sent, shared by the workers of all streams.
pub struct ChunkQueue {
    pending: VecDeque<u32>,
    completed: u32,
    total: u32,
    /// The blocks that a worker has taken and that are neither accepted nor put back.
    in_flight: Ghost<Set<u32>>,
    /// The accepted blocks.
    done: Ghost<Set<u32>>,
}

impl ChunkQueue {
    /// The blocks that wait, in the order in which they go out.
    pub closed spec fn pending(self) -> Seq<u32> {
        self.pending@
    }

    /// The blocks that are on their way.
    pub closed spec fn in_flight(self) -> Set<u32> {
        self.in_flight@
    }

    /// The blocks that the receiver has accepted.
    pub closed spec fn done(self) -> Set<u32> {
        self.done@
    }

    /// How many blocks the file has.
    pub closed spec fn total(self) -> u32 {
        self.total
    }

    /// Every block is in exactly one of three places: it waits, it is on its way, or it has been
    /// accepted; and the accepted ones are counted.
    pub closed spec fn wf(self) -> bool {
        &&& self.pending@.no_duplicates()
        &&& self.done@.finite()
        &&& self.completed == self.done@.len()
        &&& forall|id: u32|
            #![trigger self.pending@.contains(id)]
            #![trigger self.in_flight@.contains(id)]
            #![trigger self.done@.contains(id)]
            id < self.total <==> self.pending@.contains(id) || self.in_flight@.contains(id)
                || self.done@.contains(id)
        &&& forall|id: u32| #[trigger]
            self.pending@.contains(id) ==> !self.in_flight@.contains(id) && !self.done@.contains(id)
        &&& forall|id: u32| #[trigger] self.in_flight@.contains(id) ==> !self.done@.contains(id)
    }

    /// All blocks of a file wait, in ascending order.
    pub fn new(total: u32) -> (q: ChunkQueue)
        ensures
            q.wf(),
            q.total() == total,
            q.pending() == Seq::new(total as nat, |i: int| i as u32),
            q.in_flight() == Set::<u32>::empty(),
            q.done() == Set::<u32>::empty(),
    {
        let mut pending: VecDeque<u32> = VecDeque::new();
        let mut id: u32 = 0;
        while id < total
            invariant
                id <= total,
                pending@ == Seq::new(id as nat, |i: int| i as u32),
            decreases total - id,
        {
            pending.push_back(id);
            assert(pending@ =~= Seq::new((id + 1) as nat, |i: int| i as u32));
            id = id + 1;
        }
        let q = ChunkQueue {
            pending,
            completed: 0,
            total,
            in_flight: Ghost(Set::empty()),
            done: Ghost(Set::empty()),
        };
        proof {
            assert forall|x: u32| x < total <==> #[trigger] q.pending@.contains(x) by {
                if x < total {
                    assert(q.pending@[x as int] == x);
                }
            }
        }
        q
    }

    /// Takes the next block, if one waits.
    pub fn take(&mut self) -> (next: NextChunk)
        requires
            old(self).wf(),
        ensures
            final(self).wf(),
            final(self).total() == old(self).total(),
            final(self).done() == old(self).done(),
            match next {
                NextChunk::Send(id) => {
                    &&& old(self).pending().len() > 0
                    &&& id == old(self).pending()[0]
                    &&& id < old(self).total()
                    &&& final(self).pending() == old(self).pending().skip(1)
                    &&& final(self).in_flight() == old(self).in_flight().insert(id)
                },
                NextChunk::Wait => {
                    &&& old(self).pending().len() == 0
                    &&& old(self).done().len() < old(self).total()
                    &&& final(self).pending() == old(self).pending()
                    &&& final(self).in_flight() == old(self).in_flight()
                },
                NextChunk::Finished => {
                    &&& old(self).pending().len() == 0
                    &&& old(self).done().len() >= old(self).total()
                    &&& final(self).pending() == old(self).pending()
                    &&& final(self).in_flight() == old(self).in_flight()
                },
            },
    {
        let ghost before = *self;
        match self.pending.pop_front() {
            Some(id) => {
                proof {
                    self.in_flight@ = self.in_flight@.insert(id);
                    assert(before.pending@[0] == id);
                    assert(before.pending@.contains(id));
                    assert(self.pending@ == before.pending@.skip(1));
                    assert forall|x: u32| #[trigger]
                        self.pending@.contains(x) <==> before.pending@.contains(x) && x != id by {
                        if before.pending@.contains(x) && x != id {
                            let k = choose|k: int|
                                0 <= k < before.pending@.len() && before.pending@[k] == x;
                            assert(self.pending@[k - 1] == x);
                        }
                        if self.pending@.contains(x) {
                            let k = choose|k: int|
                                0 <= k < self.pending@.len() && self.pending@[k] == x;
                            assert(before.pending@[k + 1] == x);
                        }
                    }
                }
                NextChunk::Send(id)
            },
            None => {
                if self.completed >= self.total {
                    NextChunk::Finished
                } else {
                    NextChunk::Wait
                }
            },
        }
    }

    /// Puts a block back at the end.
    fn put_back(&mut self, id: u32)
        requires
            old(self).wf(),
            old(self).in_flight().contains(id),
        ensures
            final(self).wf(),
            final(self).total() == old(self).total(),
            final(self).done() == old(self).done(),
            final(self).pending() == old(self).pending().push(id),
            final(self).in_flight() == old(self).in_flight().remove(id),
    {
        let ghost before = *self;
        self.pending.push_back(id);
        proof {
            self.in_flight@ = self.in_flight@.remove(id);
            assert forall|x: u32| #[trigger]
                self.pending@.contains(x) <==> before.pending@.contains(x) || x == id by {
                if before.pending@.contains(x) {
                    let k = choose|k: int|
                        0 <= k < before.pending@.len() && before.pending@[k] == x;
                    assert(self.pending@[k] == x);
                }
                assert(self.pending@[before.pending@.len() as int] == id);
            }
            assert(!before.pending@.contains(id));
        }
    }

    /// Deals with the answer to a block: `None` where no answer could be read.
    pub fn answered(&mut self, id: u32, answer: Option<ChunkAckMessage>) -> (outcome: AckOutcome)
        requires
            old(self).wf(),
            old(self).in_flight().contains(id),
        ensures
            final(self).wf(),
            final(self).total() == old(self).total(),
            final(self).in_flight() == old(self).in_flight().remove(id),
            match answer {
                Some(ack) if !ack.is_nack => {
                    &&& final(self).pending() == old(self).pending()
                    &&& final(self).done() == old(self).done().insert(id)
                    &&& outcome == AckOutcome::Accepted {
                        all: final(self).done().len() >= final(self).total(),
                    }
                },
                Some(_) => {
                    &&& final(self).pending() == old(self).pending().push(id)
                    &&& final(self).done() == old(self).done()
                    &&& outcome == AckOutcome::Again
                },
                None => {
                    &&& final(self).pending() == old(self).pending().push(id)
                    &&& final(self).done() == old(self).done()
                    &&& outcome == AckOutcome::Lost
                },
            },
    {
        match answer {
            Some(ack) => {
                if ack.is_nack {
                    self.put_back(id);
                    AckOutcome::Again
                } else {
                    proof {
                        assert(!self.done@.contains(id));
                        lemma_ids_below(self.done@.insert(id), self.total);
                    }
                    self.completed = self.completed + 1;
                    proof {
                        self.in_flight@ = self.in_flight@.remove(id);
                        self.done@ = self.done@.insert(id);
                    }
                    AckOutcome::Accepted { all: self.completed >= self.total }
                }
            },
            None => {
                self.put_back(id);
                AckOutcome::Lost
            },
        }
    }

    /// How many blocks have been accepted.
    pub fn completed(&self) -> (n: u32)
        requires
            self.wf(),
        ensures
            n == self.done().len(),
    {
        self.completed
    }

    /// Whether every block has been accepted.
    pub fn is_complete(&self) -> (complete: bool)
        requires
            self.wf(),
        ensures
            complete == (forall|id: u32| id < self.total() ==> self.done().contains(id)),
    {
        proof {
            assert(self.done() == self.done@ && self.total() == self.total);
            lemma_ids_below(self.done(), self.total());
        }
        self.completed == self.total
    }
}

/// No block is lost and none is in two places: at any time each block of the file waits once, is on
/// its way, or has been accepted.
pub proof fn law_blocks_are_conserved(q: ChunkQueue, id: u32)
    requires
        q.wf(),
    ensures
        q.pending().no_duplicates(),
        id < q.total() <==> q.pending().contains(id) || q.in_flight().contains(id)
            || q.done().contains(id),
        !(q.pending().contains(id) && q.in_flight().contains(id)),
        !(q.pending().contains(id) && q.done().contains(id)),
        !(q.in_flight().contains(id) && q.done().contains(id)),
{
}

/// A worker is told that the transfer is finished only when the receiver has accepted every block.
pub proof fn law_finished_means_all_accepted(q: ChunkQueue)
    requires
        q.wf(),
    ensures
        q.done().len() >= q.total() <==> (forall|id: u32|
            id < q.total() ==> q.done().contains(id)),
        q.done().len() >= q.total() ==> q.pending().len() == 0 && q.in_flight() == Set::<
            u32,
        >::empty(),
{
    assert(q.done() == q.done@ && q.total() == q.total);
    lemma_ids_below(q.done(), q.total());
    if q.done().len() >= q.total() {
        if q.pending@.len() > 0 {
            assert(q.pending@.contains(q.pending@[0]));
        }
        assert(q.in_flight@ =~= Set::<u32>::empty());
    }
}

/// A set of block numbers below a bound has at most that many members, and exactly that many only
/// if it has them all.
pub proof fn lemma_ids_below(ids: Set<u32>, bound: u32)
    requires
        ids.finite(),
        forall|id: u32| ids.contains(id) ==> id < bound,
    ensures
        ids.len() <= bound,
        ids.len() == bound <==> (forall|id: u32| id < bound ==> ids.contains(id)),
    decreases bound,
{
    if bound == 0 {
        assert(ids =~= Set::empty());
    } else {
        let last = (bound - 1) as u32;
        lemma_ids_below(ids.remove(last), last);
        if ids.contains(last) {
            if forall|id: u32| id < last ==> ids.remove(last).contains(id) {
                assert forall|id: u32| id < bound implies ids.contains(id) by {
                    if id != last {
                        assert(ids.remove(last).contains(id));
                    }
                }
            } else {
                let gap = choose|id: u32| id < last && !ids.remove(last).contains(id);
                assert(!ids.contains(gap));
            }
        } else {
            assert(ids.remove(last) =~= ids);
        }
    }
}

} // verus!
