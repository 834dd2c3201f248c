//! Binary messages of the file transfer between two peers.
//!
//! Each message starts with one byte that tells its type. Numbers are unsigned and stand with
//! their most significant byte first.

use bytes::{Bytes, BytesMut};
use vstd::prelude::*;
use vstd::slice::{slice_subrange, slice_to_vec};
use vstd::string::*;
use vstd::utf8::{decode_utf8, encode_utf8, valid_utf8};

use crate::wire::{
    be_bytes, be_value, buffer_bytes, buffer_with_capacity, byte_range, freeze, frozen_bytes,
    get_u32, get_u64, law_be_reads_back, lemma_be_len, lemma_be_truncated, lemma_byte_ranges,
    put_slice, put_u32, put_u64, put_u8, utf8_text,
};

verus! {

/// The type of a message.
#[derive(Debug, Clone, Copy, PartialEq, Eq, Structural)]
pub enum MessageType {
    Hello,
    FileInfo,
    FileInfoAck,
    Data,
    Done,
    Ack,
    StreamInfo,
    StreamInfoAck,
    ChunkAck,
    ChunkHeader,
    ChunkNack,
    TransferDone,
    TransferDoneAck,
}

impl MessageType {
    /// The byte that stands for the type.
    pub open spec fn code(self) -> u8 {
        match self {
            MessageType::Hello => 1,
            MessageType::FileInfo => 2,
            MessageType::FileInfoAck => 3,
            MessageType::Data => 4,
            MessageType::Done => 5,
            MessageType::Ack => 6,
            MessageType::StreamInfo => 8,
            MessageType::StreamInfoAck => 9,
            MessageType::ChunkAck => 10,
            MessageType::ChunkHeader => 13,
            MessageType::ChunkNack => 15,
            MessageType::TransferDone => 16,
            MessageType::TransferDoneAck => 17,
        }
    }

    /// The byte that stands for the type.
    pub fn to_u8(self) -> (v: u8)
        ensures
            v == self.code(),
    {
        match self {
            MessageType::Hello => 1,
            MessageType::FileInfo => 2,
            MessageType::FileInfoAck => 3,
            MessageType::Data => 4,
            MessageType::Done => 5,
            MessageType::Ack => 6,
            MessageType::StreamInfo => 8,
            MessageType::StreamInfoAck => 9,
            MessageType::ChunkAck => 10,
            MessageType::ChunkHeader => 13,
            MessageType::ChunkNack => 15,
            MessageType::TransferDone => 16,
            MessageType::TransferDoneAck => 17,
        }
    }

    /// The type that a byte stands for, if it stands for any.
    pub fn from_u8(v: u8) -> (t: Option<MessageType>)
        ensures
            match t {
                Some(m) => m.code() == v,
                None => forall|m: MessageType| #[trigger] m.code() != v,
            },
    {
        match v {
            1 => Some(MessageType::Hello),
            2 => Some(MessageType::FileInfo),
            3 => Some(MessageType::FileInfoAck),
            4 => Some(MessageType::Data),
            5 => Some(MessageType::Done),
            6 => Some(MessageType::Ack),
            8 => Some(MessageType::StreamInfo),
            9 => Some(MessageType::StreamInfoAck),
            10 => Some(MessageType::ChunkAck),
            13 => Some(MessageType::ChunkHeader),
            15 => Some(MessageType::ChunkNack),
            16 => Some(MessageType::TransferDone),
            17 => Some(MessageType::TransferDoneAck),
            _ => None,
        }
    }
}

/// No two message types share a byte.
pub proof fn law_codes_are_distinct(a: MessageType, b: MessageType)
    requires
        a.code() == b.code(),
    ensures
        a == b,
{
}

/// The number in the `n` bytes of `data` from position `at` on.
pub open spec fn number_at(data: Seq<u8>, at: int, n: int) -> nat {
    be_value(data.subrange(at, at + n))
}

proof fn lemma_number_written(data: Seq<u8>, v: nat, at: int, n: nat)
    requires
        v < byte_range(n),
        0 <= at,
        at + n <= data.len(),
        data.subrange(at, at + n) == be_bytes(v, n),
    ensures
        number_at(data, at, n as int) == v,
{
    law_be_reads_back(v, n);
}

/// The number in the four bytes from position `at` on.
pub fn u32_at(data: &[u8], at: usize) -> (v: u32)
    requires
        at + 4 <= data@.len(),
    ensures
        v == number_at(data@, at as int, 4),
{
    let rest = slice_subrange(data, at, data.len());
    assert(rest@.take(4) == data@.subrange(at as int, at + 4));
    get_u32(rest)
}

/// The number in the eight bytes from position `at` on.
pub fn u64_at(data: &[u8], at: usize) -> (v: u64)
    requires
        at + 8 <= data@.len(),
    ensures
        v == number_at(data@, at as int, 8),
{
    let rest = slice_subrange(data, at, data.len());
    assert(rest@.take(8) == data@.subrange(at as int, at + 8));
    get_u64(rest)
}

/// Appends the length of a text in four bytes; a length of more than four bytes loses its upper
/// part.
fn put_length(buf: &mut BytesMut, len: usize)
    requires
        buffer_bytes(*old(buf)).len() + 4 <= isize::MAX,
    ensures
        buffer_bytes(*final(buf)) == buffer_bytes(*old(buf)) + be_bytes(len as nat, 4),
{
    proof {
        assert((len as u32) as u64 == (len as u64) % 0x1_0000_0000u64) by (bit_vector);
        lemma_byte_ranges();
        lemma_be_truncated(len as nat, 4);
    }
    put_u32(buf, len as u32);
}

/// The first message on a connection: which role the sending side has.
#[derive(Debug, Clone)]
pub struct HelloMessage {
    pub role: String,
}

impl HelloMessage {
    /// The bytes of a hello message with this role: the type, the length of the role in four
    /// bytes, and the role.
    pub open spec fn wire(role: Seq<char>) -> Seq<u8> {
        seq![MessageType::Hello.code()] + be_bytes(encode_utf8(role).len(), 4) + encode_utf8(role)
    }

    /// The role that a hello message tells: none if the message is shorter than its length field
    /// says, or if the role is not valid UTF-8.
    pub open spec fn read(data: Seq<u8>) -> Option<Seq<char>> {
        if data.len() < 5 || data.len() < 5 + number_at(data, 1, 4) {
            None
        } else {
            let text = data.subrange(5, 5 + number_at(data, 1, 4) as int);
            if valid_utf8(text) {
                Some(decode_utf8(text))
            } else {
                None
            }
        }
    }

    pub fn encode(&self) -> (buf: BytesMut)
        requires
            5 + encode_utf8(self.role@).len() <= isize::MAX,
        ensures
            buffer_bytes(buf) == HelloMessage::wire(self.role@),
    {
        let role_bytes = self.role.as_str().as_bytes();
        let mut buf = buffer_with_capacity(5 + role_bytes.len());
        put_u8(&mut buf, MessageType::Hello.to_u8());
        put_length(&mut buf, role_bytes.len());
        proof {
            lemma_be_len(role_bytes@.len(), 4);
        }
        put_slice(&mut buf, role_bytes);
        buf
    }

    pub fn decode(data: &[u8]) -> (m: Option<HelloMessage>)
        ensures
            match m {
                Some(hello) => HelloMessage::read(data@) == Some(hello.role@),
                None => HelloMessage::read(data@) is None,
            },
    {
        if data.len() < 5 {
            return None;
        }
        let len: usize = u32_at(data, 1) as usize;
        if data.len() - 5 < len {
            return None;
        }
        match utf8_text(slice_to_vec(slice_subrange(data, 5, 5 + len))) {
            Some(role) => Some(HelloMessage { role }),
            None => None,
        }
    }
}

/// A peer reads from a hello message the role that was written, whatever follows the message.
pub proof fn law_hello_reads_back(role: Seq<char>, rest: Seq<u8>)
    requires
        encode_utf8(role).len() < 0x1_0000_0000,
    ensures
        HelloMessage::read(HelloMessage::wire(role) + rest) == Some(role),
{
    let text = encode_utf8(role);
    let data = HelloMessage::wire(role) + rest;
    lemma_be_len(text.len(), 4);
    lemma_byte_ranges();
    assert(data.subrange(1, 5) == be_bytes(text.len(), 4));
    lemma_number_written(data, text.len(), 1, 4);
    assert(data.subrange(5, 5 + text.len() as int) == text);
    vstd::utf8::encode_utf8_valid_utf8(role);
    vstd::utf8::encode_utf8_decode_utf8(role);
}

/// A hello message that is cut off anywhere tells nothing.
pub proof fn law_cut_hello_is_refused(role: Seq<char>, k: int)
    requires
        encode_utf8(role).len() < 0x1_0000_0000,
        0 <= k < HelloMessage::wire(role).len(),
    ensures
        HelloMessage::read(HelloMessage::wire(role).take(k)) is None,
{
    let text = encode_utf8(role);
    let data = HelloMessage::wire(role).take(k);
    lemma_be_len(text.len(), 4);
    lemma_byte_ranges();
    if k >= 5 {
        assert(data.subrange(1, 5) == be_bytes(text.len(), 4));
        lemma_number_written(data, text.len(), 1, 4);
    }
}

/// What a stream is to the whole transfer: its number, how many streams there are, and the block
/// size that the sender has chosen.
#[derive(Debug, Clone, Copy, PartialEq, Eq, Structural)]
pub struct StreamInfoMessage {
    pub stream_index: u32,
    pub total_streams: u32,
    pub chunk_size: u32,
}

impl StreamInfoMessage {
    /// The bytes of the message: the type and three numbers of four bytes.
    pub open spec fn wire(self) -> Seq<u8> {
        seq![MessageType::StreamInfo.code()] + be_bytes(self.stream_index as nat, 4) + be_bytes(
            self.total_streams as nat,
            4,
        ) + be_bytes(self.chunk_size as nat, 4)
    }

    /// The message that the first 13 bytes tell.
    pub open spec fn read(data: Seq<u8>) -> Option<StreamInfoMessage> {
        if data.len() < 13 {
            None
        } else {
            Some(
                StreamInfoMessage {
                    stream_index: number_at(data, 1, 4) as u32,
                    total_streams: number_at(data, 5, 4) as u32,
                    chunk_size: number_at(data, 9, 4) as u32,
                },
            )
        }
    }

    pub fn encode(&self) -> (buf: BytesMut)
        ensures
            buffer_bytes(buf) == self.wire(),
    {
        proof {
            lemma_be_len(self.stream_index as nat, 4);
            lemma_be_len(self.total_streams as nat, 4);
        }
        let mut buf = buffer_with_capacity(13);
        put_u8(&mut buf, MessageType::StreamInfo.to_u8());
        put_u32(&mut buf, self.stream_index);
        put_u32(&mut buf, self.total_streams);
        put_u32(&mut buf, self.chunk_size);
        buf
    }

    pub fn decode(data: &[u8]) -> (m: Option<StreamInfoMessage>)
        ensures
            m == StreamInfoMessage::read(data@),
    {
        if data.len() < 13 {
            return None;
        }
        let stream_index: u32 = u32_at(data, 1);
        let total_streams: u32 = u32_at(data, 5);
        let chunk_size: u32 = u32_at(data, 9);
        Some(StreamInfoMessage { stream_index, total_streams, chunk_size })
    }
}

/// A peer reads from a stream message what was written, whatever follows the message, and nothing
/// where it is cut off.
pub proof fn law_stream_info_reads_back(m: StreamInfoMessage, rest: Seq<u8>)
    ensures
        m.wire().len() == 13,
        StreamInfoMessage::read(m.wire() + rest) == Some(m),
        forall|k: int| 0 <= k < 13 ==> StreamInfoMessage::read(#[trigger] m.wire().take(k)) is None,
{
    let data = m.wire() + rest;
    lemma_be_len(m.stream_index as nat, 4);
    lemma_be_len(m.total_streams as nat, 4);
    lemma_be_len(m.chunk_size as nat, 4);
    lemma_byte_ranges();
    assert(data.subrange(1, 5) == be_bytes(m.stream_index as nat, 4));
    assert(data.subrange(5, 9) == be_bytes(m.total_streams as nat, 4));
    assert(data.subrange(9, 13) == be_bytes(m.chunk_size as nat, 4));
    lemma_number_written(data, m.stream_index as nat, 1, 4);
    lemma_number_written(data, m.total_streams as nat, 5, 4);
    lemma_number_written(data, m.chunk_size as nat, 9, 4);
}

/// The answer to a block: accepted or not.
#[derive(Debug, Clone, Copy, PartialEq, Eq, Structural)]
pub struct ChunkAckMessage {
    pub chunk_id: u32,
    pub is_nack: bool,
}

impl ChunkAckMessage {
    /// The bytes of the message: the type, which tells whether the block was accepted, and the
    /// number of the block.
    pub open spec fn wire(self) -> Seq<u8> {
        let kind = if self.is_nack {
            MessageType::ChunkNack
        } else {
            MessageType::ChunkAck
        };
        seq![kind.code()] + be_bytes(self.chunk_id as nat, 4)
    }

    /// The message that the first five bytes tell, if their type is one of the two.
    pub open spec fn read(data: Seq<u8>) -> Option<ChunkAckMessage> {
        if data.len() < 5 {
            None
        } else if data[0] == MessageType::ChunkAck.code() || data[0]
            == MessageType::ChunkNack.code() {
            Some(
                ChunkAckMessage {
                    chunk_id: number_at(data, 1, 4) as u32,
                    is_nack: data[0] == MessageType::ChunkNack.code(),
                },
            )
        } else {
            None
        }
    }

    pub fn encode(&self) -> (buf: BytesMut)
        ensures
            buffer_bytes(buf) == self.wire(),
    {
        let mut buf = buffer_with_capacity(5);
        let msg_type = if self.is_nack {
            MessageType::ChunkNack
        } else {
            MessageType::ChunkAck
        };
        put_u8(&mut buf, msg_type.to_u8());
        put_u32(&mut buf, self.chunk_id);
        buf
    }

    pub fn decode(data: &[u8]) -> (m: Option<ChunkAckMessage>)
        ensures
            m == ChunkAckMessage::read(data@),
    {
        if data.len() < 5 {
            return None;
        }
        match MessageType::from_u8(data[0]) {
            None => {
                assert(MessageType::ChunkAck.code() != data[0]);
                assert(MessageType::ChunkNack.code() != data[0]);
                None
            },
            Some(msg_type) => {
                if msg_type != MessageType::ChunkAck && msg_type != MessageType::ChunkNack {
                    return None;
                }
                let chunk_id: u32 = u32_at(data, 1);
                Some(ChunkAckMessage { chunk_id, is_nack: msg_type == MessageType::ChunkNack })
            },
        }
    }
}

/// A peer reads from the answer to a block what was written, whatever follows the message, and nothing
/// where it is cut off.
pub proof fn law_chunk_ack_reads_back(m: ChunkAckMessage, rest: Seq<u8>)
    ensures
        m.wire().len() == 5,
        ChunkAckMessage::read(m.wire() + rest) == Some(m),
        forall|k: int| 0 <= k < 5 ==> ChunkAckMessage::read(#[trigger] m.wire().take(k)) is None,
{
    let data = m.wire() + rest;
    lemma_be_len(m.chunk_id as nat, 4);
    lemma_byte_ranges();
    assert(data.subrange(1, 5) == be_bytes(m.chunk_id as nat, 4));
    lemma_number_written(data, m.chunk_id as nat, 1, 4);
}

/// What precedes the bytes of a block: its number, its place in the file, its length and its
/// checksum.
#[derive(Debug, Clone, Copy, PartialEq, Eq, Structural)]
pub struct ChunkHeaderMessage {
    pub chunk_id: u32,
    pub offset: u64,
    pub len: u32,
    pub hash32: u32,
}

impl ChunkHeaderMessage {
    /// The bytes of the message: the type, and the four numbers.
    pub open spec fn wire(self) -> Seq<u8> {
        seq![MessageType::ChunkHeader.code()] + be_bytes(self.chunk_id as nat, 4) + be_bytes(
            self.offset as nat,
            8,
        ) + be_bytes(self.len as nat, 4) + be_bytes(self.hash32 as nat, 4)
    }

    /// The message that the first 21 bytes tell.
    pub open spec fn read(data: Seq<u8>) -> Option<ChunkHeaderMessage> {
        if data.len() < 21 {
            None
        } else {
            Some(
                ChunkHeaderMessage {
                    chunk_id: number_at(data, 1, 4) as u32,
                    offset: number_at(data, 5, 8) as u64,
                    len: number_at(data, 13, 4) as u32,
                    hash32: number_at(data, 17, 4) as u32,
                },
            )
        }
    }

    pub fn encode(&self) -> (buf: BytesMut)
        ensures
            buffer_bytes(buf) == self.wire(),
    {
        proof {
            lemma_be_len(self.chunk_id as nat, 4);
            lemma_be_len(self.offset as nat, 8);
            lemma_be_len(self.len as nat, 4);
        }
        let mut buf = buffer_with_capacity(21);
        put_u8(&mut buf, MessageType::ChunkHeader.to_u8());
        put_u32(&mut buf, self.chunk_id);
        put_u64(&mut buf, self.offset);
        put_u32(&mut buf, self.len);
        put_u32(&mut buf, self.hash32);
        buf
    }

    pub fn decode(data: &[u8]) -> (m: Option<ChunkHeaderMessage>)
        ensures
            m == ChunkHeaderMessage::read(data@),
    {
        if data.len() < 21 {
            return None;
        }
        let chunk_id: u32 = u32_at(data, 1);
        let offset: u64 = u64_at(data, 5);
        let len: u32 = u32_at(data, 13);
        let hash32: u32 = u32_at(data, 17);
        Some(ChunkHeaderMessage { chunk_id, offset, len, hash32 })
    }
}

/// A peer reads from the header of a block what was written, whatever follows the message, and nothing
/// where it is cut off.
pub proof fn law_chunk_header_reads_back(m: ChunkHeaderMessage, rest: Seq<u8>)
    ensures
        m.wire().len() == 21,
        ChunkHeaderMessage::read(m.wire() + rest) == Some(m),
        forall|k: int| 0 <= k < 21 ==> ChunkHeaderMessage::read(#[trigger] m.wire().take(k)) is None,
{
    let data = m.wire() + rest;
    lemma_be_len(m.chunk_id as nat, 4);
    lemma_be_len(m.offset as nat, 8);
    lemma_be_len(m.len as nat, 4);
    lemma_be_len(m.hash32 as nat, 4);
    lemma_byte_ranges();
    assert(data.subrange(1, 5) == be_bytes(m.chunk_id as nat, 4));
    assert(data.subrange(5, 13) == be_bytes(m.offset as nat, 8));
    assert(data.subrange(13, 17) == be_bytes(m.len as nat, 4));
    assert(data.subrange(17, 21) == be_bytes(m.hash32 as nat, 4));
    lemma_number_written(data, m.chunk_id as nat, 1, 4);
    lemma_number_written(data, m.offset as nat, 5, 8);
    lemma_number_written(data, m.len as nat, 13, 4);
    lemma_number_written(data, m.hash32 as nat, 17, 4);
}

/// What the sender announces of the file: its name, its size and its SHA-256 checksum.
#[derive(Debug, Clone)]
pub struct FileInfoMessage {
    pub filename: String,
    pub file_size: u64,
    pub sha256: [u8; 32],
}

impl FileInfoMessage {
    /// The bytes of the message: the type, the length of the name, the file size, the name and
    /// the checksum.
    pub open spec fn wire(filename: Seq<char>, file_size: u64, sha256: Seq<u8>) -> Seq<u8> {
        seq![MessageType::FileInfo.code()] + be_bytes(encode_utf8(filename).len(), 4) + be_bytes(
            file_size as nat,
            8,
        ) + encode_utf8(filename) + sha256
    }

    /// Name, file size and checksum that a message tells: nothing if the message is shorter than
    /// its length field says, or if the name is not valid UTF-8.
    pub open spec fn read(data: Seq<u8>) -> Option<(Seq<char>, u64, Seq<u8>)> {
        if data.len() < 13 || data.len() < 13 + number_at(data, 1, 4) + 32 {
            None
        } else {
            let end = 13 + number_at(data, 1, 4) as int;
            let name = data.subrange(13, end);
            if valid_utf8(name) {
                Some(
                    (
                        decode_utf8(name),
                        number_at(data, 5, 8) as u64,
                        data.subrange(end, end + 32),
                    ),
                )
            } else {
                None
            }
        }
    }

    pub fn encode(&self) -> (buf: BytesMut)
        requires
            45 + encode_utf8(self.filename@).len() <= isize::MAX,
        ensures
            buffer_bytes(buf) == FileInfoMessage::wire(
                self.filename@,
                self.file_size,
                self.sha256@,
            ),
    {
        let name_bytes = self.filename.as_str().as_bytes();
        proof {
            lemma_be_len(name_bytes@.len(), 4);
            lemma_be_len(self.file_size as nat, 8);
        }
        let mut buf = buffer_with_capacity(45 + name_bytes.len());
        put_u8(&mut buf, MessageType::FileInfo.to_u8());
        put_length(&mut buf, name_bytes.len());
        put_u64(&mut buf, self.file_size);
        put_slice(&mut buf, name_bytes);
        put_slice(&mut buf, self.sha256.as_slice());
        buf
    }

    pub fn decode(data: &[u8]) -> (m: Option<FileInfoMessage>)
        ensures
            match m {
                Some(info) => FileInfoMessage::read(data@) == Some(
                    (info.filename@, info.file_size, info.sha256@),
                ),
                None => FileInfoMessage::read(data@) is None,
            },
    {
        if data.len() < 13 {
            return None;
        }
        let name_len: usize = u32_at(data, 1) as usize;
        let file_size: u64 = u64_at(data, 5);
        if data.len() - 13 < name_len || data.len() - 13 - name_len < 32 {
            return None;
        }
        let end: usize = 13 + name_len;
        let filename = match utf8_text(slice_to_vec(slice_subrange(data, 13, end))) {
            Some(text) => text,
            None => {
                return None;
            },
        };
        let sha256 = digest_at(data, end);
        Some(FileInfoMessage { filename, file_size, sha256 })
    }
}

/// The 32 bytes from position `at` on.
pub fn digest_at(data: &[u8], at: usize) -> (digest: [u8; 32])
    requires
        at + 32 <= data@.len(),
    ensures
        digest@ == data@.subrange(at as int, at + 32),
{
    let rest = slice_subrange(data, at, data.len());
    let mut digest: [u8; 32] = [0u8; 32];
    let mut i: usize = 0;
    while i < 32
        invariant
            i <= 32,
            rest@.len() >= 32,
            digest@.len() == 32,
            forall|k: int| 0 <= k < i ==> digest@[k] == rest@[k],
        decreases 32 - i,
    {
        digest[i] = rest[i];
        i = i + 1;
    }
    digest
}

/// A peer reads from a file announcement what was written, whatever follows the message.
pub proof fn law_file_info_reads_back(
    filename: Seq<char>,
    file_size: u64,
    sha256: Seq<u8>,
    rest: Seq<u8>,
)
    requires
        encode_utf8(filename).len() < 0x1_0000_0000,
        sha256.len() == 32,
    ensures
        FileInfoMessage::read(FileInfoMessage::wire(filename, file_size, sha256) + rest) == Some(
            (filename, file_size, sha256),
        ),
{
    let name = encode_utf8(filename);
    let data = FileInfoMessage::wire(filename, file_size, sha256) + rest;
    lemma_be_len(name.len(), 4);
    lemma_be_len(file_size as nat, 8);
    lemma_byte_ranges();
    assert(data.subrange(1, 5) == be_bytes(name.len(), 4));
    assert(data.subrange(5, 13) == be_bytes(file_size as nat, 8));
    lemma_number_written(data, name.len(), 1, 4);
    lemma_number_written(data, file_size as nat, 5, 8);
    assert(data.subrange(13, 13 + name.len() as int) == name);
    assert(data.subrange(13 + name.len() as int, 13 + name.len() as int + 32) == sha256);
    vstd::utf8::encode_utf8_valid_utf8(filename);
    vstd::utf8::encode_utf8_decode_utf8(filename);
}

/// A file announcement that is cut off anywhere tells nothing.
pub proof fn law_cut_file_info_is_refused(
    filename: Seq<char>,
    file_size: u64,
    sha256: Seq<u8>,
    k: int,
)
    requires
        encode_utf8(filename).len() < 0x1_0000_0000,
        sha256.len() == 32,
        0 <= k < FileInfoMessage::wire(filename, file_size, sha256).len(),
    ensures
        FileInfoMessage::read(FileInfoMessage::wire(filename, file_size, sha256).take(k)) is None,
{
    let name = encode_utf8(filename);
    let data = FileInfoMessage::wire(filename, file_size, sha256).take(k);
    lemma_be_len(name.len(), 4);
    lemma_be_len(file_size as nat, 8);
    lemma_byte_ranges();
    if k >= 13 {
        assert(data.subrange(1, 5) == be_bytes(name.len(), 4));
        lemma_number_written(data, name.len(), 1, 4);
    }
}

/// A message that is nothing but its type.
pub fn encode_simple(msg_type: MessageType) -> (b: Bytes)
    ensures
        frozen_bytes(b) == seq![msg_type.code()],
{
    freeze(vec![msg_type.to_u8()])
}

} // verus!
