//! The course of a transfer on either side: handshake, announcements, setup of the streams, the
//! blocks, and the final answer.
//!
//! A session is a machine: it is told what came of the last action, and says what to do next.

use vstd::prelude::*;
use vstd::slice::{slice_subrange, slice_to_vec};
use vstd::string::*;
use vstd::utf8::{decode_utf8, valid_utf8};

use crate::protocol::transfer::{
    digest_at, number_at, u32_at, u64_at, FileInfoMessage, HelloMessage, MessageType,
    StreamInfoMessage,
};
use crate::text::same_text;
use crate::transfer::chunking::{block_count, block_size, chunk_size_fuer, total_chunks};
use crate::transfer::filename::{stored_as, stored_name, PathCut};
use crate::wire::utf8_text;

verus! {

/// How many bytes of text follow the first five bytes of a hello message; otherwise the byte that
/// stands where its type should.
pub fn hello_len(head: &[u8]) -> (r: Result<u32, u8>)
    requires
        head@.len() >= 5,
    ensures
        r == if head@[0] == MessageType::Hello.code() {
            Ok::<u32, u8>(number_at(head@, 1, 4) as u32)
        } else {
            Err(head@[0])
        },
{
    if head[0] == MessageType::Hello.to_u8() {
        Ok(u32_at(head, 1))
    } else {
        Err(head[0])
    }
}

/// What is wrong with a hello message.
#[derive(Debug, Clone)]
pub enum HelloFault {
    Malformed,
    /// The peer has another role than the one expected.
    WrongRole(String),
}

/// Holds a hello message against the role that the peer must have.
pub fn check_hello(data: &[u8], expected: &str) -> (r: Result<(), HelloFault>)
    ensures
        match HelloMessage::read(data@) {
            None => r matches Err(HelloFault::Malformed),
            Some(role) => if role == expected@ {
                r is Ok
            } else {
                r matches Err(HelloFault::WrongRole(got)) && got@ == role
            },
        },
{
    match HelloMessage::decode(data) {
        None => Err(HelloFault::Malformed),
        Some(hello) => {
            if same_text(hello.role.as_str(), expected) {
                Ok(())
            } else {
                Err(HelloFault::WrongRole(hello.role))
            }
        },
    }
}

/// What is wrong with a file announcement.
#[derive(Debug, Clone)]
pub enum FileInfoFault {
    UnexpectedType(u8),
    InvalidEncoding,
    /// The name has no last component that a file could have; this is the whole name.
    UnusableName(String),
}

/// Length of the name and size of the file, from the first 13 bytes of a file announcement.
pub fn file_info_head(head: &[u8]) -> (r: Result<(u32, u64), FileInfoFault>)
    requires
        head@.len() >= 13,
    ensures
        if head@[0] == MessageType::FileInfo.code() {
            r matches Ok(v) && v.0 == number_at(head@, 1, 4) && v.1 == number_at(head@, 5, 8)
        } else {
            r matches Err(FileInfoFault::UnexpectedType(b)) && b == head@[0]
        },
{
    if head[0] == MessageType::FileInfo.to_u8() {
        Ok((u32_at(head, 1), u64_at(head, 5)))
    } else {
        Err(FileInfoFault::UnexpectedType(head[0]))
    }
}

/// The name in a file announcement as the peer has written it, from what follows the first 13 bytes.
pub fn file_info_name(tail: &[u8], name_len: u32) -> (r: Result<String, FileInfoFault>)
    requires
        name_len <= tail@.len(),
    ensures
        ({
            let name = tail@.take(name_len as int);
            if valid_utf8(name) {
                r matches Ok(text) && text@ == decode_utf8(name)
            } else {
                r matches Err(FileInfoFault::InvalidEncoding)
            }
        }),
{
    let name = slice_subrange(tail, 0, name_len as usize);
    assert(name@ == tail@.take(name_len as int));
    match utf8_text(slice_to_vec(name)) {
        Some(text) => Ok(text),
        None => Err(FileInfoFault::InvalidEncoding),
    }
}

/// The announced file, from the name and the checksum that follow the first 13 bytes. Of the name
/// only the last path component is kept.
pub fn file_info_tail(tail: &[u8], name_len: u32, file_size: u64, cut: &PathCut) -> (r: Result<
    FileInfoMessage,
    FileInfoFault,
>)
    requires
        tail@.len() == name_len + 32,
    ensures
        ({
            let name = tail@.take(name_len as int);
            if !valid_utf8(name) {
                r matches Err(FileInfoFault::InvalidEncoding)
            } else {
                match stored_as(decode_utf8(name), *cut) {
                    None => r matches Err(FileInfoFault::UnusableName(n)) && n@ == decode_utf8(
                        name,
                    ),
                    Some(last) => r matches Ok(info) && {
                        &&& info.filename@ == last
                        &&& info.file_size == file_size
                        &&& info.sha256@ == tail@.skip(name_len as int)
                    },
                }
            }
        }),
{
    let text = match file_info_name(tail, name_len) {
        Ok(text) => text,
        Err(fault) => {
            return Err(fault);
        },
    };
    match stored_name(text.as_str(), cut) {
        None => Err(FileInfoFault::UnusableName(text)),
        Some(filename) => {
            let from: usize = name_len as usize;
            let sha256 = digest_at(tail, from);
            assert(tail@.subrange(from as int, from + 32) == tail@.skip(name_len as int));
            Ok(FileInfoMessage { filename, file_size, sha256 })
        },
    }
}

/// Whether two checksums are the same.
pub fn same_digest(a: &[u8; 32], b: &[u8; 32]) -> (same: bool)
    ensures
        same == (a@ == b@),
{
    let mut i: usize = 0;
    while i < 32
        invariant
            i <= 32,
            forall|k: int| 0 <= k < i ==> a@[k] == b@[k],
        decreases 32 - i,
    {
        if a[i] != b[i] {
            return false;
        }
        i = i + 1;
    }
    assert(a@ =~= b@);
    true
}

/// What became of a stream during setup.
#[derive(Debug, Clone, Copy, PartialEq, Eq, Structural)]
pub enum StreamFate {
    Keep,
    Drop,
}

/// How far the sending side has come.
#[derive(Debug, Clone, Copy, PartialEq, Eq, Structural)]
pub enum SenderPhase {
    /// The file has been announced on the first stream.
    FileInfo,
    /// The stream with this number is being set up.
    Setup { index: u32 },
    /// The blocks are on their way.
    Sending,
    /// The end has been announced.
    Closing,
    Over,
}

/// What came of the last action of the sending side.
#[derive(Debug, Clone, Copy, PartialEq, Eq, Structural)]
pub enum SenderEvent {
    /// The message went out and this byte came back.
    Reply(u8),
    /// The message could not be sent, or nothing came back.
    Broken,
    /// The workers have ended: how many blocks were accepted, and how many streams are left.
    Workers { completed: u32, streams: usize },
}

/// Why the sending side gives up.
#[derive(Debug, Clone, Copy, PartialEq, Eq, Structural)]
pub enum SenderFault {
    NoFileInfoAck(u8),
    NoStreamInfoAck(u8),
    Broken,
    Incomplete,
    NoStreamForDone,
    NoFinalAck,
    /// The event does not belong to the phase.
    OutOfTurn,
}

/// What the sending side does next.
#[derive(Debug, Clone, Copy, PartialEq, Eq, Structural)]
pub enum SenderAction {
    SendStreamInfo(StreamInfoMessage),
    RunWorkers,
    SendDone,
    Complete,
    Fail(SenderFault),
}

/// A step of the sending side: what became of the stream that was being set up, if any was, and
/// what comes next.
#[derive(Debug, Clone, Copy, PartialEq, Eq, Structural)]
pub struct SenderStep {
    pub fate: Option<StreamFate>,
    pub action: SenderAction,
}

/// The course of a transfer on the sending side, from the announcement of the file on.
#[derive(Debug, Clone, Copy, PartialEq, Eq, Structural)]
pub struct SenderSession {
    pub phase: SenderPhase,
    /// How many streams there are.
    pub streams: u32,
    /// How many of them have been set up.
    pub usable: u32,
    pub chunk_size: u32,
    pub total_chunks: u32,
}

impl SenderSession {
    pub open spec fn wf(self) -> bool {
        &&& self.streams > 0
        &&& match self.phase {
            SenderPhase::Setup { index } => index < self.streams && self.usable <= index && (index
                > 0 ==> self.usable > 0),
            SenderPhase::FileInfo => self.usable == 0,
            SenderPhase::Sending | SenderPhase::Closing => self.usable > 0,
            SenderPhase::Over => true,
        }
    }

    pub open spec fn stream_info(self, index: u32) -> StreamInfoMessage {
        StreamInfoMessage {
            stream_index: index,
            total_streams: self.streams,
            chunk_size: self.chunk_size,
        }
    }

    pub open spec fn failed(self, fate: Option<StreamFate>, fault: SenderFault) -> (
        SenderSession,
        SenderStep,
    ) {
        (
            SenderSession { phase: SenderPhase::Over, ..self },
            SenderStep { fate, action: SenderAction::Fail(fault) },
        )
    }

    /// After the setup of a stream comes that of the next one, and after the last one the blocks.
    pub open spec fn set_up(self, index: u32, fate: StreamFate) -> (SenderSession, SenderStep) {
        let usable = if fate == StreamFate::Keep {
            (self.usable + 1) as u32
        } else {
            self.usable
        };
        if index + 1 < self.streams {
            let next = (index + 1) as u32;
            (
                SenderSession { phase: SenderPhase::Setup { index: next }, usable, ..self },
                SenderStep {
                    fate: Some(fate),
                    action: SenderAction::SendStreamInfo(self.stream_info(next)),
                },
            )
        } else {
            (
                SenderSession { phase: SenderPhase::Sending, usable, ..self },
                SenderStep { fate: Some(fate), action: SenderAction::RunWorkers },
            )
        }
    }

    /// The session after an event, and what to do.
    pub open spec fn next(self, event: SenderEvent) -> (SenderSession, SenderStep) {
        match (self.phase, event) {
            (SenderPhase::FileInfo, SenderEvent::Reply(byte)) => if byte
                == MessageType::FileInfoAck.code() {
                (
                    SenderSession { phase: SenderPhase::Setup { index: 0 }, ..self },
                    SenderStep {
                        fate: None,
                        action: SenderAction::SendStreamInfo(self.stream_info(0)),
                    },
                )
            } else {
                self.failed(None, SenderFault::NoFileInfoAck(byte))
            },
            (SenderPhase::FileInfo, SenderEvent::Broken) => self.failed(None, SenderFault::Broken),
            (SenderPhase::Setup { index }, SenderEvent::Reply(byte)) => if byte
                == MessageType::StreamInfoAck.code() {
                self.set_up(index, StreamFate::Keep)
            } else if index == 0 {
                self.failed(Some(StreamFate::Drop), SenderFault::NoStreamInfoAck(byte))
            } else {
                self.set_up(index, StreamFate::Drop)
            },
            (SenderPhase::Setup { index }, SenderEvent::Broken) => if index == 0 {
                self.failed(Some(StreamFate::Drop), SenderFault::Broken)
            } else {
                self.set_up(index, StreamFate::Drop)
            },
            (SenderPhase::Sending, SenderEvent::Workers { completed, streams }) => if completed
                != self.total_chunks {
                self.failed(None, SenderFault::Incomplete)
            } else if streams == 0 {
                self.failed(None, SenderFault::NoStreamForDone)
            } else {
                (
                    SenderSession { phase: SenderPhase::Closing, ..self },
                    SenderStep { fate: None, action: SenderAction::SendDone },
                )
            },
            (SenderPhase::Closing, SenderEvent::Reply(byte)) => if byte
                == MessageType::Ack.code() {
                (
                    SenderSession { phase: SenderPhase::Over, ..self },
                    SenderStep { fate: None, action: SenderAction::Complete },
                )
            } else {
                self.failed(None, SenderFault::NoFinalAck)
            },
            (SenderPhase::Closing, SenderEvent::Broken) => self.failed(None, SenderFault::Broken),
            _ => self.failed(None, SenderFault::OutOfTurn),
        }
    }

    /// A session for a file, a number of streams and a configured block size; none without a
    /// stream.
    pub fn start(file_size: u64, streams: u32, configured: usize) -> (s: Option<SenderSession>)
        requires
            0 < configured <= u32::MAX,
            file_size + configured <= u64::MAX,
        ensures
            s is Some <==> streams > 0,
            s matches Some(session) ==> {
                &&& session.wf()
                &&& session.phase == SenderPhase::FileInfo
                &&& session.streams == streams
                &&& session.usable == 0
                &&& session.chunk_size == block_size(
                    file_size as int,
                    streams as int,
                    configured as int,
                )
                &&& session.total_chunks == block_count(
                    file_size as int,
                    session.chunk_size as int,
                ) % 0x1_0000_0000
            },
    {
        if streams == 0 {
            return None;
        }
        let chunk_size: usize = chunk_size_fuer(file_size, streams as usize, configured);
        let total: u32 = total_chunks(file_size, chunk_size);
        Some(
            SenderSession {
                phase: SenderPhase::FileInfo,
                streams,
                usable: 0,
                chunk_size: chunk_size as u32,
                total_chunks: total,
            },
        )
    }

    fn fail(&mut self, fate: Option<StreamFate>, fault: SenderFault) -> (step: SenderStep)
        ensures
            (*final(self), step) == old(self).failed(fate, fault),
    {
        self.phase = SenderPhase::Over;
        SenderStep { fate, action: SenderAction::Fail(fault) }
    }

    fn proceed(&mut self, index: u32, fate: StreamFate) -> (step: SenderStep)
        requires
            old(self).phase == (SenderPhase::Setup { index }),
            old(self).wf(),
        ensures
            (*final(self), step) == old(self).set_up(index, fate),
    {
        if fate == StreamFate::Keep {
            self.usable = self.usable + 1;
        }
        if index + 1 < self.streams {
            self.phase = SenderPhase::Setup { index: index + 1 };
            let info = StreamInfoMessage {
                stream_index: index + 1,
                total_streams: self.streams,
                chunk_size: self.chunk_size,
            };
            SenderStep { fate: Some(fate), action: SenderAction::SendStreamInfo(info) }
        } else {
            self.phase = SenderPhase::Sending;
            SenderStep { fate: Some(fate), action: SenderAction::RunWorkers }
        }
    }

    /// Takes in what came of the last action and tells what to do next.
    pub fn step(&mut self, event: SenderEvent) -> (step: SenderStep)
        requires
            old(self).wf(),
        ensures
            (*final(self), step) == old(self).next(event),
            final(self).wf(),
    {
        match (self.phase, event) {
            (SenderPhase::FileInfo, SenderEvent::Reply(byte)) => {
                if byte != MessageType::FileInfoAck.to_u8() {
                    return self.fail(None, SenderFault::NoFileInfoAck(byte));
                }
                self.phase = SenderPhase::Setup { index: 0 };
                let info = StreamInfoMessage {
                    stream_index: 0,
                    total_streams: self.streams,
                    chunk_size: self.chunk_size,
                };
                SenderStep { fate: None, action: SenderAction::SendStreamInfo(info) }
            },
            (SenderPhase::FileInfo, SenderEvent::Broken) => self.fail(None, SenderFault::Broken),
            (SenderPhase::Setup { index }, SenderEvent::Reply(byte)) => {
                if byte == MessageType::StreamInfoAck.to_u8() {
                    self.proceed(index, StreamFate::Keep)
                } else if index == 0 {
                    self.fail(Some(StreamFate::Drop), SenderFault::NoStreamInfoAck(byte))
                } else {
                    self.proceed(index, StreamFate::Drop)
                }
            },
            (SenderPhase::Setup { index }, SenderEvent::Broken) => {
                if index == 0 {
                    self.fail(Some(StreamFate::Drop), SenderFault::Broken)
                } else {
                    self.proceed(index, StreamFate::Drop)
                }
            },
            (SenderPhase::Sending, SenderEvent::Workers { completed, streams }) => {
                if completed != self.total_chunks {
                    self.fail(None, SenderFault::Incomplete)
                } else if streams == 0 {
                    self.fail(None, SenderFault::NoStreamForDone)
                } else {
                    self.phase = SenderPhase::Closing;
                    SenderStep { fate: None, action: SenderAction::SendDone }
                }
            },
            (SenderPhase::Closing, SenderEvent::Reply(byte)) => {
                if byte == MessageType::Ack.to_u8() {
                    self.phase = SenderPhase::Over;
                    SenderStep { fate: None, action: SenderAction::Complete }
                } else {
                    self.fail(None, SenderFault::NoFinalAck)
                }
            },
            (SenderPhase::Closing, SenderEvent::Broken) => self.fail(None, SenderFault::Broken),
            _ => self.fail(None, SenderFault::OutOfTurn),
        }
    }

    /// The session after a row of events.
    pub open spec fn after(self, events: Seq<SenderEvent>) -> SenderSession
        decreases events.len(),
    {
        if events.len() == 0 {
            self
        } else {
            self.after(events.drop_last()).next(events.last()).0
        }
    }
}

/// The workers have ended with every block accepted, and a stream is left.
pub open spec fn all_accepted(event: SenderEvent, total: u32) -> bool {
    event matches SenderEvent::Workers { completed, streams } && completed == total && streams > 0
}

/// A stream that fails during setup drops out alone: unless it is the first one, the transfer goes
/// on, with the streams that were set up before it.
pub proof fn law_failed_stream_drops_alone(s: SenderSession, index: u32, event: SenderEvent)
    requires
        s.wf(),
        s.phase == (SenderPhase::Setup { index }),
        event == SenderEvent::Broken || (event matches SenderEvent::Reply(byte) && byte
            != MessageType::StreamInfoAck.code()),
    ensures
        s.next(event).1.fate == Some(StreamFate::Drop),
        s.next(event).1.action is Fail <==> index == 0,
        s.next(event).0.usable == s.usable,
        index > 0 ==> s.next(event).0.usable > 0,
{
}

/// The blocks start only after every stream has been tried: after the setup of a stream, whatever
/// came of it, the next stream is told its number, how many streams there are and the block size, and
/// only after the last stream the workers run. A stream that was set up is counted.
pub proof fn law_every_stream_is_tried(s: SenderSession, index: u32, event: SenderEvent)
    requires
        s.wf(),
        s.phase == (SenderPhase::Setup { index }),
    ensures
        ({
            let (n, step) = s.next(event);
            &&& n.streams == s.streams && n.chunk_size == s.chunk_size && n.total_chunks
                == s.total_chunks
            &&& event == SenderEvent::Reply(MessageType::StreamInfoAck.code()) ==> step.fate
                == Some(StreamFate::Keep) && n.usable == s.usable + 1
            &&& step.fate == Some(StreamFate::Keep) ==> event == SenderEvent::Reply(
                MessageType::StreamInfoAck.code(),
            )
            &&& !(step.action is Fail) && index + 1 < s.streams ==> {
                &&& n.phase == (SenderPhase::Setup { index: (index + 1) as u32 })
                &&& step.action == SenderAction::SendStreamInfo(
                    StreamInfoMessage {
                        stream_index: (index + 1) as u32,
                        total_streams: s.streams,
                        chunk_size: s.chunk_size,
                    },
                )
            }
            &&& !(step.action is Fail) && index + 1 == s.streams ==> n.phase
                == SenderPhase::Sending && step.action == SenderAction::RunWorkers
        }),
{
}

/// Whatever happens, the number of streams, the block size and the number of blocks stay as they were
/// told, and streams count as usable only by being set up. After the end nothing is done any more.
pub proof fn law_sender_keeps_what_it_told(s: SenderSession, event: SenderEvent)
    requires
        s.wf(),
    ensures
        ({
            let (n, step) = s.next(event);
            &&& n.streams == s.streams && n.chunk_size == s.chunk_size && n.total_chunks
                == s.total_chunks
            &&& step.fate == Some(StreamFate::Keep) ==> n.usable == s.usable + 1
            &&& step.fate != Some(StreamFate::Keep) ==> n.usable == s.usable
            &&& step.fate is Some ==> s.phase is Setup
            &&& step.action is Fail || step.action == SenderAction::Complete ==> n.phase
                == SenderPhase::Over
            &&& s.phase == SenderPhase::Over ==> step.action is Fail
            &&& s.phase == SenderPhase::FileInfo && !(step.action is Fail) ==> step.action
                == SenderAction::SendStreamInfo(
                StreamInfoMessage {
                    stream_index: 0,
                    total_streams: s.streams,
                    chunk_size: s.chunk_size,
                },
            ) && n.phase == (SenderPhase::Setup { index: 0 })
        }),
{
}

/// Nothing but the first stream can fail the setup: it does if it breaks, or if anything but the
/// expected answer comes on it, and so does the announcement of the file.
pub proof fn law_first_stream_must_answer(s: SenderSession, event: SenderEvent)
    requires
        s.phase == (SenderPhase::Setup { index: 0 }) || s.phase == SenderPhase::FileInfo,
    ensures
        ({
            let expected = if s.phase == SenderPhase::FileInfo {
                MessageType::FileInfoAck
            } else {
                MessageType::StreamInfoAck
            };
            let action = s.next(event).1.action;
            &&& action is Fail <==> event != SenderEvent::Reply(expected.code())
            &&& event == SenderEvent::Broken ==> action == SenderAction::Fail(SenderFault::Broken)
            &&& match event {
                SenderEvent::Reply(byte) => byte != expected.code() ==> action
                    == SenderAction::Fail(
                    if s.phase == SenderPhase::FileInfo {
                        SenderFault::NoFileInfoAck(byte)
                    } else {
                        SenderFault::NoStreamInfoAck(byte)
                    },
                ),
                _ => true,
            }
        }),
{
}

/// What comes back if nothing fails: the answer to the announcement of the file, and then one for
/// each of the first `k` streams.
pub open spec fn all_answered(k: nat) -> Seq<SenderEvent> {
    seq![SenderEvent::Reply(MessageType::FileInfoAck.code())] + Seq::new(
        k,
        |i: int| SenderEvent::Reply(MessageType::StreamInfoAck.code()),
    )
}

/// On a run without failures each stream is told its number once, in ascending order, and the
/// workers run when all of them have answered, on all of them.
pub proof fn law_all_streams_are_used(start: SenderSession, k: nat)
    requires
        start.wf(),
        start.phase == SenderPhase::FileInfo,
        k <= start.streams,
    ensures
        ({
            let before = start.after(all_answered(k).drop_last());
            let (n, step) = before.next(all_answered(k).last());
            &&& start.after(all_answered(k)) == n
            &&& n.usable == k
            &&& n.streams == start.streams && n.chunk_size == start.chunk_size && n.total_chunks
                == start.total_chunks
            &&& k < start.streams ==> {
                &&& n.phase == (SenderPhase::Setup { index: k as u32 })
                &&& step.action == SenderAction::SendStreamInfo(
                    StreamInfoMessage {
                        stream_index: k as u32,
                        total_streams: start.streams,
                        chunk_size: start.chunk_size,
                    },
                )
            }
            &&& k == start.streams ==> n.phase == SenderPhase::Sending && step.action
                == SenderAction::RunWorkers
        }),
    decreases k,
{
    let events = all_answered(k);
    if k == 0 {
        assert(events.drop_last() =~= Seq::<SenderEvent>::empty());
        assert(start.after(events.drop_last()) == start);
    } else {
        law_all_streams_are_used(start, (k - 1) as nat);
        assert(events.drop_last() =~= all_answered((k - 1) as nat));
    }
}

/// The end is announced exactly if every block was accepted and a stream is left for it, and the
/// transfer is complete exactly if the final answer comes then. Otherwise it fails.
pub proof fn law_end_needs_all_blocks(s: SenderSession, completed: u32, streams: usize, byte: u8)
    ensures
        s.phase == SenderPhase::Sending ==> {
            let action = s.next(SenderEvent::Workers { completed, streams }).1.action;
            &&& completed == s.total_chunks && streams > 0 ==> action == SenderAction::SendDone
            &&& completed != s.total_chunks ==> action == SenderAction::Fail(
                SenderFault::Incomplete,
            )
            &&& completed == s.total_chunks && streams == 0 ==> action == SenderAction::Fail(
                SenderFault::NoStreamForDone,
            )
        },
        s.phase == SenderPhase::Closing ==> {
            let action = s.next(SenderEvent::Reply(byte)).1.action;
            &&& byte == MessageType::Ack.code() ==> action == SenderAction::Complete
            &&& byte != MessageType::Ack.code() ==> action == SenderAction::Fail(
                SenderFault::NoFinalAck,
            )
            &&& s.next(SenderEvent::Broken).1.action == SenderAction::Fail(SenderFault::Broken)
        },
{
}

/// The sender reports success only if the receiver has accepted every block and has sent the final
/// answer.
pub proof fn law_sender_success_means_all_accepted(
    start: SenderSession,
    events: Seq<SenderEvent>,
    event: SenderEvent,
)
    requires
        start.phase == SenderPhase::FileInfo,
        start.after(events).next(event).1.action == SenderAction::Complete,
    ensures
        event == SenderEvent::Reply(MessageType::Ack.code()),
        exists|k: int|
            0 <= k < events.len() && #[trigger] all_accepted(events[k], start.total_chunks),
{
    lemma_sender_history(start, events);
}

proof fn lemma_sender_history(start: SenderSession, events: Seq<SenderEvent>)
    requires
        start.phase == SenderPhase::FileInfo,
    ensures
        start.after(events).total_chunks == start.total_chunks,
        start.after(events).phase == SenderPhase::Closing ==> exists|k: int|
            0 <= k < events.len() && #[trigger] all_accepted(events[k], start.total_chunks),
    decreases events.len(),
{
    if events.len() > 0 {
        let front = events.drop_last();
        lemma_sender_history(start, front);
        if start.after(events).phase == SenderPhase::Closing {
            if start.after(front).phase == SenderPhase::Closing {
                let k = choose|k: int|
                    0 <= k < front.len() && #[trigger] all_accepted(front[k], start.total_chunks);
                assert(all_accepted(events[k], start.total_chunks));
            } else {
                assert(all_accepted(events[events.len() - 1], start.total_chunks));
            }
        }
    }
}

} // verus!
