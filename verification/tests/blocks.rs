use tcp_multi_transfer::protocol::transfer::{ChunkAckMessage, ChunkHeaderMessage, MessageType};
use tcp_multi_transfer::transfer::chunking::{
    chunk_range, chunk_size_fuer, next_piece_end, total_chunks, DEFAULT_CHUNK_SIZE, MIN_CHUNK,
    PROGRESS_IO_CHUNK,
};
use tcp_multi_transfer::transfer::receiver::{
    answer_block, judge_block, on_type_byte, Incoming, ReceiveBoard, ReceiveError,
};
use tcp_multi_transfer::transfer::sender::{chunk_header, AckOutcome, ChunkQueue, NextChunk};

const MB: u64 = 1024 * 1024;

#[test]
fn block_size_follows_file_size_and_streams() {
    assert_eq!(DEFAULT_CHUNK_SIZE, 8 * 1024 * 1024);
    assert_eq!(chunk_size_fuer(1024 * MB, 1, DEFAULT_CHUNK_SIZE), DEFAULT_CHUNK_SIZE);
    assert_eq!(chunk_size_fuer(MB, 1, DEFAULT_CHUNK_SIZE), 512 * 1024);
    assert_eq!(chunk_size_fuer(MB, 4, DEFAULT_CHUNK_SIZE), MIN_CHUNK);
    assert_eq!(chunk_size_fuer(16 * MB, 4, DEFAULT_CHUNK_SIZE), 2 * 1024 * 1024);
    assert_eq!(chunk_size_fuer(16 * MB, 0, DEFAULT_CHUNK_SIZE), 8 * 1024 * 1024);
    assert_eq!(chunk_size_fuer(0, 3, DEFAULT_CHUNK_SIZE), MIN_CHUNK);
    assert_eq!(chunk_size_fuer(0, 3, 65536), 65536);
    assert_eq!(chunk_size_fuer(100 * MB, 1, 65536), 65536);
}

#[test]
fn every_stream_has_two_blocks_if_they_are_large_enough() {
    for streams in 1..=8usize {
        for size in [4 * MB, 5 * MB + 17, 100 * MB, 1000 * MB + 1] {
            let chunk = chunk_size_fuer(size, streams, DEFAULT_CHUNK_SIZE);
            if size / (2 * streams as u64) >= MIN_CHUNK as u64 {
                assert!(total_chunks(size, chunk) as usize >= 2 * streams);
            }
        }
        let enough = |size: u64, configured: usize| {
            let chunk = chunk_size_fuer(size, streams, configured);
            total_chunks(size, chunk) as usize >= 2 * streams
        };
        for (configured, least) in [(DEFAULT_CHUNK_SIZE, MIN_CHUNK), (65536, 65536), (7, 7)] {
            let limit = (2 * streams - 1) as u64 * least as u64;
            assert!(!enough(limit, configured));
            assert!(enough(limit + 1, configured));
            assert!(enough(limit + least as u64, configured));
        }
    }
}

#[test]
fn number_of_blocks() {
    assert_eq!(total_chunks(0, 4), 0);
    assert_eq!(total_chunks(1, 4), 1);
    assert_eq!(total_chunks(4, 4), 1);
    assert_eq!(total_chunks(5, 4), 2);
    assert_eq!(total_chunks(0x1_0000_0000, 1), 0);
    assert_eq!(total_chunks(0x1_0000_0005, 1), 5);
}

#[test]
fn blocks_tile_a_file() {
    for size in [0u64, 1, 9, 10, 11, 99, 100, 101] {
        let mut end = 0;
        for id in 0..total_chunks(size, 10) {
            let (offset, len) = chunk_range(id, size, 10);
            assert_eq!(offset, end);
            assert!(len > 0 && len <= 10);
            end = offset + len as u64;
        }
        assert_eq!(end, size);
    }
    assert_eq!(chunk_range(2, 25, 10), (20, 5));
    assert_eq!(chunk_range(7, 25, 10), (70, 0));
}

#[test]
fn pieces_of_a_block() {
    assert_eq!(next_piece_end(0, 10), 10);
    assert_eq!(next_piece_end(0, PROGRESS_IO_CHUNK + 1), PROGRESS_IO_CHUNK);
    assert_eq!(next_piece_end(PROGRESS_IO_CHUNK, PROGRESS_IO_CHUNK + 1), PROGRESS_IO_CHUNK + 1);
    assert_eq!(next_piece_end(5, 5), 5);
}

#[test]
fn queue_hands_out_each_block_and_again_after_a_rejection() {
    let ack = |id: u32| Some(ChunkAckMessage { chunk_id: id, is_nack: false });
    let nack = |id: u32| Some(ChunkAckMessage { chunk_id: id, is_nack: true });
    let mut q = ChunkQueue::new(3);
    assert_eq!(q.take(), NextChunk::Send(0));
    assert_eq!(q.take(), NextChunk::Send(1));
    assert_eq!(q.answered(0, nack(0)), AckOutcome::Again);
    assert_eq!(q.take(), NextChunk::Send(2));
    assert_eq!(q.take(), NextChunk::Send(0));
    assert_eq!(q.take(), NextChunk::Wait);
    assert_eq!(q.answered(1, ack(1)), AckOutcome::Accepted { all: false });
    assert_eq!(q.answered(2, None), AckOutcome::Lost);
    assert_eq!(q.answered(0, ack(0)), AckOutcome::Accepted { all: false });
    assert_eq!(q.completed(), 2);
    assert!(!q.is_complete());
    assert_eq!(q.take(), NextChunk::Send(2));
    assert_eq!(q.answered(2, ack(2)), AckOutcome::Accepted { all: true });
    assert!(q.is_complete());
    assert_eq!(q.take(), NextChunk::Finished);
}

#[test]
fn an_empty_file_is_finished_at_once() {
    let mut q = ChunkQueue::new(0);
    assert_eq!(q.take(), NextChunk::Finished);
    assert!(q.is_complete());
}

#[test]
fn type_bytes_of_the_receiver() {
    assert_eq!(on_type_byte(MessageType::ChunkHeader.to_u8()), Ok(Incoming::Chunk));
    assert_eq!(on_type_byte(MessageType::Done.to_u8()), Ok(Incoming::Done));
    assert_eq!(
        on_type_byte(MessageType::Hello.to_u8()),
        Err(ReceiveError::UnexpectedMessage)
    );
    assert_eq!(on_type_byte(200), Err(ReceiveError::UnknownMessage));
}

#[test]
fn headers_are_held_against_the_file() {
    let board = ReceiveBoard::new(3, 25);
    let header = |chunk_id: u32, offset: u64, len: u32| ChunkHeaderMessage {
        chunk_id,
        offset,
        len,
        hash32: 1,
    };
    let good = header(2, 20, 5);
    assert_eq!(board.check_header(&good.encode()), Ok(good));
    assert_eq!(
        board.check_header(&header(3, 0, 1).encode()),
        Err(ReceiveError::ChunkOutOfRange { chunk_id: 3, total: 3 })
    );
    assert_eq!(
        board.check_header(&header(0, 25, 0).encode()),
        Err(ReceiveError::OutsideFile { chunk_id: 0, len: 0, offset: 25, file_size: 25 })
    );
    assert_eq!(
        board.check_header(&header(1, 20, 6).encode()),
        Err(ReceiveError::OutsideFile { chunk_id: 1, len: 6, offset: 20, file_size: 25 })
    );
    assert_eq!(
        board.check_header(&header(1, u64::MAX, u32::MAX).encode()),
        Err(ReceiveError::OutsideFile {
            chunk_id: 1,
            len: u32::MAX,
            offset: u64::MAX,
            file_size: 25
        })
    );
    assert_eq!(board.check_header(&good.encode()[..20]), Err(ReceiveError::MalformedHeader));
}

#[test]
fn checksum_decides_on_a_block() {
    let header = chunk_header(4, 40, b"123456789");
    assert_eq!(header.hash32, 0xCBF4_3926);
    assert_eq!(header.len, 9);
    assert_eq!(header.offset, 40);
    assert_eq!(
        answer_block(&header, b"123456789"),
        ChunkAckMessage { chunk_id: 4, is_nack: false }
    );
    assert_eq!(
        answer_block(&header, b"123456780"),
        ChunkAckMessage { chunk_id: 4, is_nack: true }
    );
}

#[test]
fn only_an_accepted_block_is_written_and_noted() {
    let header = chunk_header(4, 40, b"123456789");
    assert_eq!(
        judge_block(&header, b"123456789"),
        (ChunkAckMessage { chunk_id: 4, is_nack: false }, Some((40, 4)))
    );
    assert_eq!(
        judge_block(&header, b"123456780"),
        (ChunkAckMessage { chunk_id: 4, is_nack: true }, None)
    );
}

#[test]
fn refused_blocks_leave_no_trace() {
    let file = b"abcdefghij";
    let mut board = ReceiveBoard::new(2, 10);
    let mut copy = vec![0u8; 10];
    for (id, offset, data) in
        [(1u32, 5u64, b"fghiX"), (0, 0, b"abcde"), (0, 0, b"Xbcde"), (1, 5, b"fghij")]
    {
        let header = chunk_header(id, offset, &file[offset as usize..offset as usize + 5]);
        let before = (copy.clone(), board.received());
        let (answer, accepted) = judge_block(&header, data);
        if let Some((offset, chunk_id)) = accepted {
            copy[offset as usize..offset as usize + 5].copy_from_slice(data);
            board.mark(chunk_id);
        }
        assert_eq!(answer.is_nack, before == (copy.clone(), board.received()));
    }
    assert!(board.is_complete());
    assert_eq!(copy, file);
}

#[test]
fn a_block_counts_once() {
    let mut board = ReceiveBoard::new(2, 20);
    board.mark(1);
    board.mark(1);
    assert_eq!(board.received(), 1);
    assert!(!board.is_complete());
    assert!(!board.is_done());
    board.mark(0);
    assert!(board.is_complete());
    assert_eq!(board.read_failed(), Err(ReceiveError::Broken));
    board.set_done();
    assert!(board.is_done());
    assert_eq!(board.read_failed(), Ok(()));
    assert_eq!(board.received(), 2);
}

#[test]
fn a_file_is_assembled_from_blocks_in_any_order() {
    let file: Vec<u8> = (0..95u8).collect();
    let chunk = 10usize;
    let total = total_chunks(file.len() as u64, chunk);
    let mut board = ReceiveBoard::new(total, file.len() as u64);
    let mut copy = vec![0xEEu8; file.len()];
    for id in [9u32, 3, 3, 0, 1, 2, 8, 7, 0, 6, 5, 4] {
        assert!(!board.is_complete() || id == 4);
        let (offset, len) = chunk_range(id, file.len() as u64, chunk);
        let data = &file[offset as usize..offset as usize + len];
        let header = chunk_header(id, offset, data);
        let read = board.check_header(&header.encode()).unwrap();
        assert!(!answer_block(&read, data).is_nack);
        copy[offset as usize..offset as usize + len].copy_from_slice(data);
        board.mark(id);
    }
    assert!(board.is_complete());
    assert_eq!(copy, file);
}
