//! The course of a transfer on the receiving side, from the setup of the streams on.

use vstd::prelude::*;

use crate::digest::sha256;
use crate::protocol::transfer::{MessageType, StreamInfoMessage};
use crate::transfer::chunking::{block_count, total_chunks};
use crate::transfer::receiver::{assembled, law_complete_board_means_whole_file, ReceiveBoard};
use crate::transfer::session::{
    SenderAction, SenderEvent, SenderPhase, SenderSession, StreamFate,
};

verus! {

/// Reads what a stream is to the transfer; otherwise the byte that stands where the type should.
pub fn read_stream_info(data: &[u8]) -> (r: Result<StreamInfoMessage, u8>)
    requires
        data@.len() >= 13,
    ensures
        r == if data@[0] == MessageType::StreamInfo.code() {
            Ok::<StreamInfoMessage, u8>(StreamInfoMessage::read(data@).unwrap())
        } else {
            Err(data@[0])
        },
{
    if data[0] != MessageType::StreamInfo.to_u8() {
        return Err(data[0]);
    }
    match StreamInfoMessage::decode(data) {
        Some(info) => Ok(info),
        None => Err(data[0]),
    }
}

/// How far the receiving side has come.
#[derive(Debug, Clone, Copy, PartialEq, Eq, Structural)]
pub enum ReceiverPhase {
    /// The stream with this number has to tell what it is.
    Setup { index: u32 },
    /// It has told, with this block size, and is being answered.
    Answering { index: u32, chunk_size: u32 },
    /// The file is being made ready.
    Preparing,
    /// The blocks are on their way.
    Receiving,
    /// The checksum of the file is being taken.
    Verifying,
    /// The file is getting its name.
    Renaming,
    /// The final answer is on its way.
    Closing,
    Over,
}

/// What came of the last action of the receiving side.
#[derive(Debug, Clone, Copy, PartialEq, Eq, Structural)]
pub enum ReceiverEvent {
    /// A stream has told what it is.
    Info(StreamInfoMessage),
    /// A stream has sent a message of another type.
    BadInfo(u8),
    /// An answer went out.
    Sent,
    /// Nothing could be read or written.
    Broken,
    /// The file is ready.
    Prepared,
    /// The workers have ended; whether every block has arrived.
    Workers { complete: bool },
    /// The checksum has been taken; whether it is the announced one.
    Digest { same: bool },
    /// The file has its name; how many streams are left.
    Renamed { streams: usize },
}

/// Why the receiving side gives up.
#[derive(Debug, Clone, Copy, PartialEq, Eq, Structural)]
pub enum ReceiverFault {
    NoStreamInfo(u8),
    Broken,
    /// Two streams announced different block sizes.
    DifferentSizes { first: u32, other: u32 },
    NoBlockSize,
    Incomplete,
    Mismatch,
    NoStreamForAck,
    /// The event does not belong to the phase.
    OutOfTurn,
}

/// What the receiving side does next.
#[derive(Debug, Clone, Copy, PartialEq, Eq, Structural)]
pub enum ReceiverAction {
    ReadStreamInfo { index: u32 },
    SendStreamInfoAck { index: u32 },
    PrepareFile,
    RunWorkers { chunk_size: u32, total_chunks: u32 },
    TakeDigest,
    Rename,
    SendAck,
    Complete,
    Fail(ReceiverFault),
}

/// A step of the receiving side: what became of the stream that was being set up, if any was, and
/// what comes next.
#[derive(Debug, Clone, Copy, PartialEq, Eq, Structural)]
pub struct ReceiverStep {
    pub fate: Option<StreamFate>,
    pub action: ReceiverAction,
}

/// The course of a transfer on the receiving side.
#[derive(Debug, Clone, Copy, PartialEq, Eq, Structural)]
pub struct ReceiverSession {
    pub phase: ReceiverPhase,
    pub streams: u32,
    pub usable: u32,
    /// The block size that the sender has announced.
    pub chunk_size: Option<u32>,
    pub file_size: u64,
}

impl ReceiverSession {
    pub open spec fn wf(self) -> bool {
        &&& self.streams > 0
        &&& self.file_size + u32::MAX <= u64::MAX
        &&& self.chunk_size is Some <==> self.usable > 0
        &&& match self.phase {
            ReceiverPhase::Setup { index } | ReceiverPhase::Answering { index, .. } => {
                index < self.streams && self.usable <= index && (index > 0 ==> self.usable > 0)
            },
            ReceiverPhase::Over => true,
            _ => self.usable > 0,
        }
    }

    pub open spec fn failed(self, fate: Option<StreamFate>, fault: ReceiverFault) -> (
        ReceiverSession,
        ReceiverStep,
    ) {
        (
            ReceiverSession { phase: ReceiverPhase::Over, ..self },
            ReceiverStep { fate, action: ReceiverAction::Fail(fault) },
        )
    }

    pub open spec fn goes_on(self, phase: ReceiverPhase, action: ReceiverAction) -> (
        ReceiverSession,
        ReceiverStep,
    ) {
        (ReceiverSession { phase, ..self }, ReceiverStep { fate: None, action })
    }

    /// After the setup of a stream comes that of the next one, and after the last one the file.
    pub open spec fn set_up(self, index: u32, fate: StreamFate) -> (ReceiverSession, ReceiverStep) {
        if index + 1 < self.streams {
            let next = (index + 1) as u32;
            (
                ReceiverSession { phase: ReceiverPhase::Setup { index: next }, ..self },
                ReceiverStep {
                    fate: Some(fate),
                    action: ReceiverAction::ReadStreamInfo { index: next },
                },
            )
        } else {
            (
                ReceiverSession { phase: ReceiverPhase::Preparing, ..self },
                ReceiverStep { fate: Some(fate), action: ReceiverAction::PrepareFile },
            )
        }
    }

    /// A failure during the setup of a stream ends the transfer only on the first stream.
    pub open spec fn dropped(self, index: u32, fault: ReceiverFault) -> (
        ReceiverSession,
        ReceiverStep,
    ) {
        if index == 0 {
            self.failed(Some(StreamFate::Drop), fault)
        } else {
            self.set_up(index, StreamFate::Drop)
        }
    }

    /// The session after an event, and what to do.
    pub open spec fn next(self, event: ReceiverEvent) -> (ReceiverSession, ReceiverStep) {
        match (self.phase, event) {
            (ReceiverPhase::Setup { index }, ReceiverEvent::Info(info)) => self.goes_on(
                ReceiverPhase::Answering { index, chunk_size: info.chunk_size },
                ReceiverAction::SendStreamInfoAck { index },
            ),
            (ReceiverPhase::Setup { index }, ReceiverEvent::BadInfo(byte)) => self.dropped(
                index,
                ReceiverFault::NoStreamInfo(byte),
            ),
            (ReceiverPhase::Setup { index }, ReceiverEvent::Broken) => self.dropped(
                index,
                ReceiverFault::Broken,
            ),
            (ReceiverPhase::Answering { index, .. }, ReceiverEvent::Broken) => self.dropped(
                index,
                ReceiverFault::Broken,
            ),
            (
                ReceiverPhase::Answering { index, chunk_size },
                ReceiverEvent::Sent,
            ) => match self.chunk_size {
                Some(first) if first != chunk_size => self.failed(
                    None,
                    ReceiverFault::DifferentSizes { first, other: chunk_size },
                ),
                _ => (ReceiverSession {
                    usable: (self.usable + 1) as u32,
                    chunk_size: Some(chunk_size),
                    ..self
                }).set_up(index, StreamFate::Keep),
            },
            (ReceiverPhase::Preparing, ReceiverEvent::Prepared) => match self.chunk_size {
                Some(chunk_size) if chunk_size > 0 => self.goes_on(
                    ReceiverPhase::Receiving,
                    ReceiverAction::RunWorkers {
                        chunk_size,
                        total_chunks: (block_count(self.file_size as int, chunk_size as int)
                            % 0x1_0000_0000) as u32,
                    },
                ),
                _ => self.failed(None, ReceiverFault::NoBlockSize),
            },
            (ReceiverPhase::Receiving, ReceiverEvent::Workers { complete }) => if complete {
                self.goes_on(ReceiverPhase::Verifying, ReceiverAction::TakeDigest)
            } else {
                self.failed(None, ReceiverFault::Incomplete)
            },
            (ReceiverPhase::Verifying, ReceiverEvent::Digest { same }) => if same {
                self.goes_on(ReceiverPhase::Renaming, ReceiverAction::Rename)
            } else {
                self.failed(None, ReceiverFault::Mismatch)
            },
            (ReceiverPhase::Renaming, ReceiverEvent::Renamed { streams }) => if streams > 0 {
                self.goes_on(ReceiverPhase::Closing, ReceiverAction::SendAck)
            } else {
                self.failed(None, ReceiverFault::NoStreamForAck)
            },
            (ReceiverPhase::Closing, ReceiverEvent::Sent) => self.goes_on(
                ReceiverPhase::Over,
                ReceiverAction::Complete,
            ),
            (_, ReceiverEvent::Broken) => self.failed(None, ReceiverFault::Broken),
            _ => self.failed(None, ReceiverFault::OutOfTurn),
        }
    }

    /// A session for a file of this size; none without a stream.
    pub fn start(file_size: u64, streams: u32) -> (s: Option<ReceiverSession>)
        requires
            file_size + u32::MAX <= u64::MAX,
        ensures
            s is Some <==> streams > 0,
            s matches Some(session) ==> {
                &&& session.wf()
                &&& session == (ReceiverSession {
                    phase: ReceiverPhase::Setup { index: 0 },
                    streams,
                    usable: 0,
                    chunk_size: None,
                    file_size,
                })
            },
    {
        if streams == 0 {
            return None;
        }
        Some(
            ReceiverSession {
                phase: ReceiverPhase::Setup { index: 0 },
                streams,
                usable: 0,
                chunk_size: None,
                file_size,
            },
        )
    }

    fn fail(&mut self, fate: Option<StreamFate>, fault: ReceiverFault) -> (step: ReceiverStep)
        ensures
            (*final(self), step) == old(self).failed(fate, fault),
    {
        self.phase = ReceiverPhase::Over;
        ReceiverStep { fate, action: ReceiverAction::Fail(fault) }
    }

    fn go_on(&mut self, phase: ReceiverPhase, action: ReceiverAction) -> (step: ReceiverStep)
        ensures
            (*final(self), step) == old(self).goes_on(phase, action),
    {
        self.phase = phase;
        ReceiverStep { fate: None, action }
    }

    fn proceed(&mut self, index: u32, fate: StreamFate) -> (step: ReceiverStep)
        requires
            index < old(self).streams,
        ensures
            (*final(self), step) == old(self).set_up(index, fate),
    {
        if index + 1 < self.streams {
            self.phase = ReceiverPhase::Setup { index: index + 1 };
            ReceiverStep {
                fate: Some(fate),
                action: ReceiverAction::ReadStreamInfo { index: index + 1 },
            }
        } else {
            self.phase = ReceiverPhase::Preparing;
            ReceiverStep { fate: Some(fate), action: ReceiverAction::PrepareFile }
        }
    }

    fn lose(&mut self, index: u32, fault: ReceiverFault) -> (step: ReceiverStep)
        requires
            index < old(self).streams,
        ensures
            (*final(self), step) == old(self).dropped(index, fault),
    {
        if index == 0 {
            self.fail(Some(StreamFate::Drop), fault)
        } else {
            self.proceed(index, StreamFate::Drop)
        }
    }

    /// Takes in what came of the last action and tells what to do next.
    pub fn step(&mut self, event: ReceiverEvent) -> (step: ReceiverStep)
        requires
            old(self).wf(),
        ensures
            (*final(self), step) == old(self).next(event),
            final(self).wf(),
    {
        match (self.phase, event) {
            (ReceiverPhase::Setup { index }, ReceiverEvent::Info(info)) => self.go_on(
                ReceiverPhase::Answering { index, chunk_size: info.chunk_size },
                ReceiverAction::SendStreamInfoAck { index },
            ),
            (ReceiverPhase::Setup { index }, ReceiverEvent::BadInfo(byte)) => self.lose(
                index,
                ReceiverFault::NoStreamInfo(byte),
            ),
            (ReceiverPhase::Setup { index }, ReceiverEvent::Broken) => self.lose(
                index,
                ReceiverFault::Broken,
            ),
            (ReceiverPhase::Answering { index, chunk_size: _ }, ReceiverEvent::Broken) => self.lose(
                index,
                ReceiverFault::Broken,
            ),
            (ReceiverPhase::Answering { index, chunk_size }, ReceiverEvent::Sent) => {
                if let Some(first) = self.chunk_size {
                    if first != chunk_size {
                        return self.fail(
                            None,
                            ReceiverFault::DifferentSizes { first, other: chunk_size },
                        );
                    }
                }
                self.usable = self.usable + 1;
                self.chunk_size = Some(chunk_size);
                self.proceed(index, StreamFate::Keep)
            },
            (ReceiverPhase::Preparing, ReceiverEvent::Prepared) => {
                if let Some(chunk_size) = self.chunk_size {
                    if chunk_size > 0 {
                        let total: u32 = total_chunks(self.file_size, chunk_size as usize);
                        return self.go_on(
                            ReceiverPhase::Receiving,
                            ReceiverAction::RunWorkers { chunk_size, total_chunks: total },
                        );
                    }
                }
                self.fail(None, ReceiverFault::NoBlockSize)
            },
            (ReceiverPhase::Receiving, ReceiverEvent::Workers { complete }) => {
                if complete {
                    self.go_on(ReceiverPhase::Verifying, ReceiverAction::TakeDigest)
                } else {
                    self.fail(None, ReceiverFault::Incomplete)
                }
            },
            (ReceiverPhase::Verifying, ReceiverEvent::Digest { same }) => {
                if same {
                    self.go_on(ReceiverPhase::Renaming, ReceiverAction::Rename)
                } else {
                    self.fail(None, ReceiverFault::Mismatch)
                }
            },
            (ReceiverPhase::Renaming, ReceiverEvent::Renamed { streams }) => {
                if streams > 0 {
                    self.go_on(ReceiverPhase::Closing, ReceiverAction::SendAck)
                } else {
                    self.fail(None, ReceiverFault::NoStreamForAck)
                }
            },
            (ReceiverPhase::Closing, ReceiverEvent::Sent) => self.go_on(
                ReceiverPhase::Over,
                ReceiverAction::Complete,
            ),
            (_, ReceiverEvent::Broken) => self.fail(None, ReceiverFault::Broken),
            _ => self.fail(None, ReceiverFault::OutOfTurn),
        }
    }

    /// The session after a row of events.
    pub open spec fn after(self, events: Seq<ReceiverEvent>) -> ReceiverSession
        decreases events.len(),
    {
        if events.len() == 0 {
            self
        } else {
            self.after(events.drop_last()).next(events.last()).0
        }
    }
}

/// The final answer goes out only if every block has arrived and the checksum of the whole file is
/// the announced one.
pub proof fn law_final_answer_means_verified(
    start: ReceiverSession,
    events: Seq<ReceiverEvent>,
    event: ReceiverEvent,
)
    requires
        start.phase is Setup,
        ({
            let action = start.after(events).next(event).1.action;
            action == ReceiverAction::SendAck || action == ReceiverAction::Complete || action
                == ReceiverAction::Rename
        }),
    ensures
        events.push(event).contains(ReceiverEvent::Digest { same: true }),
        events.push(event).contains(ReceiverEvent::Workers { complete: true }),
{
    let all = events.push(event);
    lemma_receiver_history(start, events);
    assert(all[events.len() as int] == event);
    assert forall|e: ReceiverEvent| events.contains(e) implies all.contains(e) by {
        let k = choose|k: int| 0 <= k < events.len() && events[k] == e;
        assert(all[k] == e);
    }
}

/// The file is made ready only after every stream has been tried: after the setup of a stream,
/// whatever came of it, the next one is read from. A stream that has told its block size and was
/// answered is kept and counted.
pub proof fn law_every_stream_is_read(s: ReceiverSession, index: u32, event: ReceiverEvent)
    requires
        s.wf(),
        (s.phase matches ReceiverPhase::Setup { index: i } && i == index) || (
        s.phase matches ReceiverPhase::Answering { index: i, .. } && i == index),
    ensures
        ({
            let (n, step) = s.next(event);
            &&& n.streams == s.streams && n.file_size == s.file_size
            &&& step.fate == Some(StreamFate::Keep) ==> event == ReceiverEvent::Sent && n.usable
                == s.usable + 1
            &&& step.fate == Some(StreamFate::Drop) ==> n.usable == s.usable && n.chunk_size
                == s.chunk_size
            &&& step.fate is Some && !(step.action is Fail) ==> {
                &&& index + 1 < s.streams ==> step.action == (ReceiverAction::ReadStreamInfo {
                    index: (index + 1) as u32,
                }) && n.phase == (ReceiverPhase::Setup { index: (index + 1) as u32 })
                &&& index + 1 == s.streams ==> step.action == ReceiverAction::PrepareFile && n.phase
                    == ReceiverPhase::Preparing
            }
            &&& step.fate is None && !(step.action is Fail) ==> step.action == (
            ReceiverAction::SendStreamInfoAck { index }) && event is Info
        }),
{
}

/// Whatever happens, the number of streams and the size of the file stay as they were, and once the
/// streams are set up, so does the block size. After the end nothing is done any more.
pub proof fn law_receiver_keeps_what_it_was_told(s: ReceiverSession, event: ReceiverEvent)
    requires
        s.wf(),
    ensures
        ({
            let (n, step) = s.next(event);
            &&& n.streams == s.streams && n.file_size == s.file_size
            &&& !(s.phase is Answering) ==> n.chunk_size == s.chunk_size && n.usable == s.usable
            &&& step.action is Fail || step.action == ReceiverAction::Complete ==> n.phase
                == ReceiverPhase::Over
            &&& s.phase == ReceiverPhase::Over ==> step.action is Fail
            &&& step.fate is Some ==> s.phase is Setup || s.phase is Answering
        }),
{
}

/// A stream that fails during setup drops out alone: unless it is the first one, the transfer goes
/// on.
pub proof fn law_failed_stream_is_passed_over(
    s: ReceiverSession,
    index: u32,
    event: ReceiverEvent,
)
    requires
        s.wf(),
        (s.phase matches ReceiverPhase::Setup { index: i } && i == index && (event
            == ReceiverEvent::Broken || event is BadInfo)) || (
        s.phase matches ReceiverPhase::Answering { index: i, .. } && i == index && event
            == ReceiverEvent::Broken),
    ensures
        s.next(event).1.fate == Some(StreamFate::Drop),
        s.next(event).1.action is Fail <==> index == 0,
        index > 0 ==> s.next(event).0.usable > 0,
        index == 0 ==> (event matches ReceiverEvent::BadInfo(byte) ==> s.next(event).1.action
            == ReceiverAction::Fail(ReceiverFault::NoStreamInfo(byte))),
        index == 0 && event == ReceiverEvent::Broken ==> s.next(event).1.action
            == ReceiverAction::Fail(ReceiverFault::Broken),
{
}

/// A stream that announces the block size of those before it is answered and kept; one that
/// announces another size ends the transfer.
pub proof fn law_stream_is_taken_or_ends_it(
    s: ReceiverSession,
    index: u32,
    info: StreamInfoMessage,
)
    requires
        s.wf(),
        s.phase == (ReceiverPhase::Setup { index }),
    ensures
        ({
            let (answering, first) = s.next(ReceiverEvent::Info(info));
            let (n, second) = answering.next(ReceiverEvent::Sent);
            &&& first.action == (ReceiverAction::SendStreamInfoAck { index })
            &&& s.chunk_size is None || s.chunk_size == Some(info.chunk_size) ==> {
                &&& second.fate == Some(StreamFate::Keep)
                &&& !(second.action is Fail)
                &&& n.chunk_size == Some(info.chunk_size)
                &&& n.usable == s.usable + 1
            }
            &&& match s.chunk_size {
                Some(size) => size != info.chunk_size ==> second.action == ReceiverAction::Fail(
                    ReceiverFault::DifferentSizes { first: size, other: info.chunk_size },
                ),
                None => true,
            }
        }),
{
}

/// What comes if nothing fails on the first `k` streams.
pub open spec fn all_told(size: u32, streams: u32, k: nat) -> Seq<ReceiverEvent>
    decreases k,
{
    if k == 0 {
        Seq::empty()
    } else {
        all_told(size, streams, (k - 1) as nat).push(
            ReceiverEvent::Info(
                StreamInfoMessage {
                    stream_index: (k - 1) as u32,
                    total_streams: streams,
                    chunk_size: size,
                },
            ),
        ).push(ReceiverEvent::Sent)
    }
}

/// On a run without failures every stream is kept, and the blocks are received with the block size
/// that the sender has announced.
pub proof fn law_all_streams_are_kept(start: ReceiverSession, size: u32, k: nat)
    requires
        start.wf(),
        start.phase == (ReceiverPhase::Setup { index: 0 }),
        start.chunk_size is None,
        size > 0,
        k <= start.streams,
    ensures
        ({
            let n = start.after(all_told(size, start.streams, k));
            &&& n.wf()
            &&& n.usable == k
            &&& n.streams == start.streams && n.file_size == start.file_size
            &&& k > 0 ==> n.chunk_size == Some(size)
            &&& k == 0 ==> n.chunk_size is None
            &&& k < start.streams ==> n.phase == (ReceiverPhase::Setup { index: k as u32 })
            &&& k == start.streams ==> n.phase == ReceiverPhase::Preparing && (n.next(
                ReceiverEvent::Prepared,
            ).1.action matches ReceiverAction::RunWorkers { chunk_size, .. } && chunk_size == size)
        }),
    decreases k,
{
    let events = all_told(size, start.streams, k);
    if k > 0 {
        law_all_streams_are_kept(start, size, (k - 1) as nat);
        let before = all_told(size, start.streams, (k - 1) as nat);
        assert(events.drop_last().drop_last() =~= before);
        let s = start.after(before);
        let info = StreamInfoMessage {
            stream_index: (k - 1) as u32,
            total_streams: start.streams,
            chunk_size: size,
        };
        assert(start.after(events.drop_last()) == s.next(ReceiverEvent::Info(info)).0);
        assert(start.after(events) == s.next(ReceiverEvent::Info(info)).0.next(
            ReceiverEvent::Sent,
        ).0);
    }
}

/// A file that is not whole, whose checksum is another, or for which no stream is left is not
/// acknowledged, and neither is one without a block size.
pub proof fn law_faulty_file_is_refused(s: ReceiverSession)
    ensures
        s.phase == ReceiverPhase::Receiving ==> s.next(
            ReceiverEvent::Workers { complete: false },
        ).1.action == ReceiverAction::Fail(ReceiverFault::Incomplete) && s.next(
            ReceiverEvent::Workers { complete: true },
        ).1.action == ReceiverAction::TakeDigest,
        s.phase == ReceiverPhase::Verifying ==> s.next(
            ReceiverEvent::Digest { same: false },
        ).1.action == ReceiverAction::Fail(ReceiverFault::Mismatch) && s.next(
            ReceiverEvent::Digest { same: true },
        ).1.action == ReceiverAction::Rename,
        s.phase == ReceiverPhase::Renaming ==> s.next(
            ReceiverEvent::Renamed { streams: 0 },
        ).1.action == ReceiverAction::Fail(ReceiverFault::NoStreamForAck),
        s.phase == ReceiverPhase::Preparing && (s.chunk_size is None || s.chunk_size == Some(0u32))
            ==> s.next(ReceiverEvent::Prepared).1.action == ReceiverAction::Fail(
            ReceiverFault::NoBlockSize,
        ),
        s.phase == ReceiverPhase::Closing ==> s.next(ReceiverEvent::Broken).1.action
            == ReceiverAction::Fail(ReceiverFault::Broken),
{
}

/// Every stream that is kept has announced the same block size.
pub proof fn law_kept_streams_agree(s: ReceiverSession, event: ReceiverEvent)
    requires
        s.wf(),
        s.next(event).1.fate == Some(StreamFate::Keep),
    ensures
        s.phase matches ReceiverPhase::Answering { chunk_size, .. } && s.next(event).0.chunk_size
            == Some(chunk_size),
        s.chunk_size is Some ==> s.next(event).0.chunk_size == s.chunk_size,
{
}

/// Both sides part a file into the same blocks: the receiver takes the block size that the sender
/// has announced, and counts as many blocks as the sender does.
pub proof fn law_both_sides_count_the_same_blocks(
    sender: SenderSession,
    receiver: ReceiverSession,
    index: u32,
)
    requires
        sender.chunk_size > 0,
        sender.total_chunks == block_count(receiver.file_size as int, sender.chunk_size as int)
            % 0x1_0000_0000,
        receiver.phase == ReceiverPhase::Preparing,
        receiver.chunk_size == Some(sender.stream_info(index).chunk_size),
    ensures
        receiver.next(ReceiverEvent::Prepared).1.action == (ReceiverAction::RunWorkers {
            chunk_size: sender.chunk_size,
            total_chunks: sender.total_chunks,
        }),
{
}

/// A transfer whose blocks have all arrived succeeds on both sides: the checksum of the file that
/// was put together is that of the sender's file, so the receiver sends its final answer, and with
/// it the sender is done.
pub proof fn law_whole_file_is_acknowledged(
    sender: SenderSession,
    receiver: ReceiverSession,
    board: ReceiveBoard,
    blank: Seq<u8>,
    file: Seq<u8>,
    order: Seq<u32>,
    streams: usize,
)
    requires
        sender.phase == SenderPhase::Sending,
        receiver.phase == ReceiverPhase::Receiving,
        streams > 0,
        sender.chunk_size > 0,
        board.wf(),
        board.total() == block_count(file.len() as int, sender.chunk_size as int),
        blank.len() == file.len(),
        forall|id: u32| #[trigger] board.arrived().contains(id) <==> order.contains(id),
        forall|id: u32| id < board.total() ==> #[trigger] board.arrived().contains(id),
    ensures
        ({
            let stored = assembled(blank, file, sender.chunk_size as int, order);
            let same = sha256(stored) == sha256(file);
            let verifying = receiver.next(ReceiverEvent::Workers { complete: true }).0;
            let renaming = verifying.next(ReceiverEvent::Digest { same }).0;
            let closing = renaming.next(ReceiverEvent::Renamed { streams });
            let done = sender.next(
                SenderEvent::Workers { completed: sender.total_chunks, streams },
            );
            let answered = done.0.next(SenderEvent::Reply(MessageType::Ack.code()));
            &&& stored == file
            &&& closing.1.action == ReceiverAction::SendAck
            &&& closing.0.next(ReceiverEvent::Sent).1.action == ReceiverAction::Complete
            &&& done.1.action == SenderAction::SendDone
            &&& answered.1.action == SenderAction::Complete
        }),
{
    law_complete_board_means_whole_file(board, blank, file, sender.chunk_size as int, order);
}

proof fn lemma_receiver_history(start: ReceiverSession, events: Seq<ReceiverEvent>)
    requires
        start.phase is Setup,
    ensures
        ({
            let phase = start.after(events).phase;
            &&& phase is Renaming || phase is Closing ==> events.contains(
                ReceiverEvent::Digest { same: true },
            )
            &&& phase is Verifying || phase is Renaming || phase is Closing ==> events.contains(
                ReceiverEvent::Workers { complete: true },
            )
        }),
    decreases events.len(),
{
    if events.len() > 0 {
        let front = events.drop_last();
        lemma_receiver_history(start, front);
        assert(events[events.len() - 1] == events.last());
        assert forall|e: ReceiverEvent| front.contains(e) implies events.contains(e) by {
            let k = choose|k: int| 0 <= k < front.len() && front[k] == e;
            assert(events[k] == e);
        }
    }
}

} // verus!
