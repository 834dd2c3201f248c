use tcp_multi_transfer::protocol::transfer::{FileInfoMessage, HelloMessage, MessageType, StreamInfoMessage};
use tcp_multi_transfer::transfer::bench::{
    decode_frame, encode_frame, gross_bytes, net_bytes, next_io, sample_interval_ms, stream_share,
    BenchMeter, Series, AUFWAERM_BYTES, IO_BLOCK, T_GO, T_PARAMS, T_PING, T_PONG, T_RESULT,
};
use tcp_multi_transfer::transfer::bench_session::{
    BenchAction, BenchEvent, BenchReceiver, BenchSender,
};
use tcp_multi_transfer::transfer::filename::{announced_name, last_component, stored_name, PathCut};
use tcp_multi_transfer::transfer::reception::{
    read_stream_info, ReceiverAction, ReceiverEvent, ReceiverFault, ReceiverPhase, ReceiverSession,
};
use tcp_multi_transfer::transfer::session::{
    check_hello, file_info_head, file_info_name, file_info_tail, hello_len, same_digest, FileInfoFault, HelloFault,
    SenderAction, SenderEvent, SenderFault, SenderPhase, SenderSession, StreamFate,
};

fn reply(t: MessageType) -> SenderEvent {
    SenderEvent::Reply(t.to_u8())
}

#[test]
fn hello_is_checked_for_type_and_role() {
    let hello = HelloMessage { role: "receiver".to_string() }.encode();
    assert_eq!(hello_len(&hello[..5]), Ok(8));
    assert_eq!(hello_len(&[2, 0, 0, 0, 8]), Err(2));
    assert!(check_hello(&hello, "receiver").is_ok());
    match check_hello(&hello, "sender") {
        Err(HelloFault::WrongRole(role)) => assert_eq!(role, "receiver"),
        _ => panic!("the role was not checked"),
    }
    assert!(matches!(check_hello(&hello[..7], "receiver"), Err(HelloFault::Malformed)));
}

#[test]
fn file_announcement_is_read_in_two_parts() {
    let info = FileInfoMessage {
        filename: "../up/movie.mp4".to_string(),
        file_size: 77,
        sha256: [5; 32],
    };
    let bytes = info.encode();
    let (name_len, size) = file_info_head(&bytes[..13]).unwrap();
    assert_eq!((name_len, size), (15, 77));
    let read = file_info_tail(&bytes[13..], name_len, size, &PathCut::Slashes).unwrap();
    assert_eq!(read.filename, "movie.mp4");
    assert_eq!(file_info_name(&bytes[13..], name_len).unwrap(), "../up/movie.mp4");
    let own = PathCut::Platform(Some("movie".to_string()));
    assert_eq!(file_info_tail(&bytes[13..], name_len, size, &own).unwrap().filename, "movie");
    assert_eq!(read.file_size, 77);
    assert_eq!(read.sha256, [5; 32]);
}

#[test]
fn file_announcement_that_cannot_be_used() {
    let mut head = [0u8; 13];
    head[0] = 9;
    assert!(matches!(file_info_head(&head), Err(FileInfoFault::UnexpectedType(9))));
    let mut tail = vec![0u8; 34];
    tail[0] = 0xFF;
    assert!(matches!(file_info_tail(&tail, 2, 1, &PathCut::Slashes), Err(FileInfoFault::InvalidEncoding)));
    assert!(matches!(file_info_name(&tail, 2), Err(FileInfoFault::InvalidEncoding)));
    tail[0] = b'.';
    tail[1] = b'.';
    match file_info_tail(&tail, 2, 1, &PathCut::Slashes) {
        Err(FileInfoFault::UnusableName(name)) => assert_eq!(name, ".."),
        _ => panic!("a name outside the directory was accepted"),
    }
}

#[test]
fn last_component_of_a_path() {
    let name = |path: &str| last_component(path);
    assert_eq!(name("video.mp4"), Some("video.mp4".to_string()));
    assert_eq!(name("/etc/passwd"), Some("passwd".to_string()));
    assert_eq!(name("../../evil"), Some("evil".to_string()));
    assert_eq!(name("dir/"), Some("dir".to_string()));
    assert_eq!(name("dir//./"), Some("dir".to_string()));
    assert_eq!(name("a/b/.hidden"), Some(".hidden".to_string()));
    assert_eq!(name("a/..."), Some("...".to_string()));
    assert_eq!(name("ä/ö"), Some("ö".to_string()));
    for path in ["", ".", "..", "/", "///", "./", "a/..", "../", "a/../."] {
        assert_eq!(name(path), None, "{}", path);
    }
}

#[test]
fn last_component_is_that_of_std_paths() {
    let parts = ["", ".", "..", "a", "b.c", "/"];
    for x in parts {
        for y in parts {
            for z in parts {
                let path = format!("{}/{}/{}", x, y, z);
                let expected =
                    std::path::Path::new(&path).file_name().and_then(|n| n.to_str()).map(String::from);
                assert_eq!(last_component(&path), expected, "{}", path);
            }
        }
    }
}

#[test]
fn a_file_without_a_name_is_announced_as_unknown() {
    assert_eq!(announced_name("/tmp/x.bin", &PathCut::Slashes), "x.bin");
    assert_eq!(announced_name("..", &PathCut::Slashes), "unknown");
    let own = PathCut::Platform(Some("x.bin".to_string()));
    assert_eq!(announced_name("C:\\tmp\\x.bin", &own), "x.bin");
    assert_eq!(announced_name("C:\\", &PathCut::Platform(None)), "unknown");
}

#[test]
fn a_stored_name_is_local() {
    assert_eq!(stored_name("a/b", &PathCut::Slashes), Some("b".to_string()));
    assert_eq!(stored_name("a/..", &PathCut::Slashes), None);
    assert_eq!(stored_name("a\\b", &PathCut::Slashes), Some("a\\b".to_string()));
    let own = |name: &str| stored_name("a\\b", &PathCut::Platform(Some(name.to_string())));
    assert_eq!(own("b"), Some("b".to_string()));
    for name in ["", ".", ".."] {
        assert_eq!(own(name), None);
    }
    assert_eq!(own("..."), Some("...".to_string()));
    assert_eq!(stored_name("a\\b", &PathCut::Platform(None)), None);
}

#[test]
fn digests_are_compared() {
    let mut other = [1u8; 32];
    assert!(same_digest(&[1; 32], &other));
    other[31] = 2;
    assert!(!same_digest(&[1; 32], &other));
}

#[test]
fn sender_session_runs_to_the_end() {
    let mut s = SenderSession::start(1_000_000, 2, 8 * 1024 * 1024).unwrap();
    assert_eq!(s.chunk_size, 262_144);
    assert_eq!(s.total_chunks, 4);
    let first = s.step(reply(MessageType::FileInfoAck));
    assert_eq!(
        first.action,
        SenderAction::SendStreamInfo(StreamInfoMessage {
            stream_index: 0,
            total_streams: 2,
            chunk_size: 262_144
        })
    );
    let second = s.step(reply(MessageType::StreamInfoAck));
    assert_eq!(second.fate, Some(StreamFate::Keep));
    let third = s.step(SenderEvent::Broken);
    assert_eq!(third.fate, Some(StreamFate::Drop));
    assert_eq!(third.action, SenderAction::RunWorkers);
    assert_eq!(s.usable, 1);
    let fourth = s.step(SenderEvent::Workers { completed: 4, streams: 1 });
    assert_eq!(fourth.action, SenderAction::SendDone);
    assert_eq!(s.step(reply(MessageType::Ack)).action, SenderAction::Complete);
    assert_eq!(s.phase, SenderPhase::Over);
}

#[test]
fn sender_session_faults() {
    let fault = |events: &[SenderEvent]| {
        let mut s = SenderSession::start(10, 1, 65536).unwrap();
        let mut last = SenderAction::Complete;
        for e in events {
            last = s.step(*e).action;
        }
        match last {
            SenderAction::Fail(f) => f,
            _ => panic!("no fault"),
        }
    };
    let file_ack = reply(MessageType::FileInfoAck);
    let stream_ack = reply(MessageType::StreamInfoAck);
    let all = SenderEvent::Workers { completed: 1, streams: 1 };
    assert_eq!(fault(&[SenderEvent::Reply(77)]), SenderFault::NoFileInfoAck(77));
    assert_eq!(fault(&[SenderEvent::Broken]), SenderFault::Broken);
    assert_eq!(fault(&[file_ack, SenderEvent::Reply(3)]), SenderFault::NoStreamInfoAck(3));
    assert_eq!(fault(&[file_ack, SenderEvent::Broken]), SenderFault::Broken);
    assert_eq!(
        fault(&[file_ack, stream_ack, SenderEvent::Workers { completed: 0, streams: 1 }]),
        SenderFault::Incomplete
    );
    assert_eq!(
        fault(&[file_ack, stream_ack, SenderEvent::Workers { completed: 1, streams: 0 }]),
        SenderFault::NoStreamForDone
    );
    assert_eq!(fault(&[file_ack, stream_ack, all, SenderEvent::Reply(5)]), SenderFault::NoFinalAck);
    assert_eq!(fault(&[file_ack, stream_ack, all, SenderEvent::Broken]), SenderFault::Broken);
    assert_eq!(fault(&[all]), SenderFault::OutOfTurn);
    assert!(SenderSession::start(10, 0, 65536).is_none());
}

#[test]
fn stream_info_is_read_by_type() {
    let info = StreamInfoMessage { stream_index: 1, total_streams: 2, chunk_size: 3 };
    assert_eq!(read_stream_info(&info.encode()), Ok(info));
    assert_eq!(read_stream_info(&[5u8; 13]), Err(5));
}

fn info(chunk_size: u32) -> ReceiverEvent {
    ReceiverEvent::Info(StreamInfoMessage { stream_index: 0, total_streams: 1, chunk_size })
}

#[test]
fn receiver_session_answers_only_after_the_checksum() {
    let mut r = ReceiverSession::start(100, 2).unwrap();
    assert_eq!(r.phase, ReceiverPhase::Setup { index: 0 });
    assert_eq!(r.step(info(40)).action, ReceiverAction::SendStreamInfoAck { index: 0 });
    let kept = r.step(ReceiverEvent::Sent);
    assert_eq!(kept.fate, Some(StreamFate::Keep));
    assert_eq!(kept.action, ReceiverAction::ReadStreamInfo { index: 1 });
    let dropped = r.step(ReceiverEvent::BadInfo(9));
    assert_eq!(dropped.fate, Some(StreamFate::Drop));
    assert_eq!(dropped.action, ReceiverAction::PrepareFile);
    assert_eq!(
        r.step(ReceiverEvent::Prepared).action,
        ReceiverAction::RunWorkers { chunk_size: 40, total_chunks: 3 }
    );
    assert_eq!(r.step(ReceiverEvent::Workers { complete: true }).action, ReceiverAction::TakeDigest);
    assert_eq!(r.step(ReceiverEvent::Digest { same: true }).action, ReceiverAction::Rename);
    assert_eq!(r.step(ReceiverEvent::Renamed { streams: 1 }).action, ReceiverAction::SendAck);
    assert_eq!(r.step(ReceiverEvent::Sent).action, ReceiverAction::Complete);
}

#[test]
fn receiver_session_faults() {
    let fault = |events: &[ReceiverEvent]| {
        let mut s = ReceiverSession::start(100, 2).unwrap();
        let mut last = ReceiverAction::Complete;
        for e in events {
            last = s.step(*e).action;
        }
        match last {
            ReceiverAction::Fail(f) => f,
            _ => panic!("no fault"),
        }
    };
    let sent = ReceiverEvent::Sent;
    let ready = [info(40), sent, info(40), sent, ReceiverEvent::Prepared];
    let with = |more: &[ReceiverEvent]| [&ready[..], more].concat();
    assert_eq!(fault(&[ReceiverEvent::BadInfo(9)]), ReceiverFault::NoStreamInfo(9));
    assert_eq!(fault(&[ReceiverEvent::Broken]), ReceiverFault::Broken);
    assert_eq!(
        fault(&[info(40), sent, info(50), sent]),
        ReceiverFault::DifferentSizes { first: 40, other: 50 }
    );
    assert_eq!(
        fault(&[info(0), sent, ReceiverEvent::Broken, ReceiverEvent::Prepared]),
        ReceiverFault::NoBlockSize
    );
    assert_eq!(fault(&with(&[ReceiverEvent::Workers { complete: false }])), ReceiverFault::Incomplete);
    let complete = ReceiverEvent::Workers { complete: true };
    assert_eq!(
        fault(&with(&[complete, ReceiverEvent::Digest { same: false }])),
        ReceiverFault::Mismatch
    );
    assert_eq!(
        fault(&with(&[
            complete,
            ReceiverEvent::Digest { same: true },
            ReceiverEvent::Renamed { streams: 0 }
        ])),
        ReceiverFault::NoStreamForAck
    );
    assert_eq!(fault(&with(&[ReceiverEvent::Digest { same: true }])), ReceiverFault::OutOfTurn);
    assert!(ReceiverSession::start(100, 0).is_none());
}

#[test]
fn both_sides_count_the_same_blocks() {
    for size in [0u64, 1, 262_144, 5_000_000] {
        let s = SenderSession::start(size, 1, 1_048_576).unwrap();
        let mut r = ReceiverSession::start(size, 1).unwrap();
        r.step(info(s.chunk_size));
        r.step(ReceiverEvent::Sent);
        assert_eq!(
            r.step(ReceiverEvent::Prepared).action,
            ReceiverAction::RunWorkers { chunk_size: s.chunk_size, total_chunks: s.total_chunks }
        );
    }
}

#[test]
fn bench_frames() {
    assert_eq!(encode_frame(T_PING, 258), vec![0xB2, 0, 0, 0, 0, 0, 0, 1, 2]);
    assert_eq!(decode_frame(&encode_frame(T_RESULT, u64::MAX)), (0xB5, u64::MAX));
    assert_eq!((T_PARAMS, T_PONG, T_GO), (0xB1, 0xB3, 0xB4));
}

#[test]
fn bench_shares_add_up() {
    assert_eq!(stream_share(10, 3, 0), 4);
    assert_eq!(stream_share(10, 3, 1), 3);
    assert_eq!(stream_share(10, 3, 2), 3);
    for streams in 1..7u64 {
        for gross in [0u64, 1, 6, 1000, 2_097_153] {
            let sum: u64 = (0..streams).map(|i| stream_share(gross, streams, i)).sum();
            assert_eq!(sum, gross);
        }
    }
    assert_eq!(gross_bytes(5), 5 + 2 * 1024 * 1024);
    assert_eq!(net_bytes(AUFWAERM_BYTES + 5), 5);
    assert_eq!(net_bytes(3), 0);
    assert_eq!(next_io(3), 3);
    assert_eq!(next_io(1 << 40), IO_BLOCK);
    assert_eq!(sample_interval_ms(3), 10);
    assert_eq!(sample_interval_ms(250), 250);
}

#[test]
fn bench_meter_leaves_out_the_warm_up() {
    let mut m = BenchMeter::new();
    m.on_read(1_000_000, 100);
    m.on_read(1_000_000, 200);
    assert_eq!((m.first_byte_us, m.start_us), (100, 0));
    m.on_read(100_000, 300);
    m.on_read(100_000, 400);
    assert_eq!((m.read, m.first_byte_us, m.start_us), (2_200_000, 100, 300));
    assert_eq!(m.duration_us(1300), 1000);
    assert_eq!(m.duration_us(200), 0);
}

#[test]
fn bench_series_adds_up() {
    let mut s = Series::new();
    for now in [5u64, 5, 12, 100] {
        s.sample(now);
    }
    assert_eq!(s.into_samples(), vec![5, 0, 7, 88]);
}

#[test]
fn bench_sides_understand_each_other() {
    let (mut s, mut todo) = BenchSender::start(5000, 250, 2);
    let mut r = BenchReceiver::start();
    let mut inbox: Vec<(u8, u64)> = Vec::new();
    let mut log = Vec::new();
    let mut payload = false;
    for _ in 0..40 {
        match todo {
            BenchAction::Send { t, v } => {
                log.push((t, v));
                let mut answer = r.step(BenchEvent::Frame { t, v });
                if let BenchAction::Send { t, v } = answer {
                    inbox.push((t, v));
                    answer = r.step(BenchEvent::Through);
                }
                if answer == BenchAction::Payload {
                    r.measured(1000, 20, vec![7, 8]);
                }
                todo = s.step(BenchEvent::Through);
            }
            BenchAction::Payload => {
                payload = true;
                let mut answer = r.step(BenchEvent::Through);
                while let BenchAction::Send { t, v } = answer {
                    inbox.push((t, v));
                    answer = r.step(BenchEvent::Through);
                }
                assert_eq!(answer, BenchAction::Finish);
                todo = s.step(BenchEvent::Through);
            }
            BenchAction::Read => {
                let (t, v) = inbox.remove(0);
                todo = s.step(BenchEvent::Frame { t, v });
            }
            _ => break,
        }
    }
    assert!(payload);
    assert_eq!(todo, BenchAction::Finish);
    assert_eq!((r.gross(), r.sample_ms()), (5000, 250));
    assert_eq!(
        log,
        vec![(T_PARAMS, 5000), (T_PARAMS, 250), (T_PARAMS, 2), (T_PING, 0), (T_PING, 1), (T_GO, 0)]
    );
    assert_eq!(s.into_result(), (1000, 20, vec![7, 8]));
    assert_eq!(r.into_result(), (1000, 20, vec![7, 8]));
}

#[test]
fn bench_sides_refuse_wrong_frames() {
    let (mut s, _) = BenchSender::start(1, 1, 1);
    for _ in 0..4 {
        s.step(BenchEvent::Through);
    }
    assert_eq!(
        s.step(BenchEvent::Frame { t: T_GO, v: 0 }),
        BenchAction::Unexpected { expected: T_PONG, got: T_GO }
    );
    assert_eq!(s.step(BenchEvent::Through), BenchAction::OutOfTurn);
    let mut r = BenchReceiver::start();
    for v in [1u64, 1, 0] {
        r.step(BenchEvent::Frame { t: T_PARAMS, v });
    }
    assert_eq!(
        r.step(BenchEvent::Frame { t: T_PING, v: 0 }),
        BenchAction::Unexpected { expected: T_GO, got: T_PING }
    );
    let mut r = BenchReceiver::start();
    for v in [1u64, 1, 1] {
        r.step(BenchEvent::Frame { t: T_PARAMS, v });
    }
    assert_eq!(
        r.step(BenchEvent::Frame { t: T_RESULT, v: 0 }),
        BenchAction::Unexpected { expected: T_PING, got: T_RESULT }
    );
}

#[test]
fn whole_file_is_acknowledged() {
    let mut sender = SenderSession::start(100, 1, 65536).unwrap();
    let mut receiver = ReceiverSession::start(100, 1).unwrap();
    sender.step(reply(MessageType::FileInfoAck));
    receiver.step(info(sender.chunk_size));
    receiver.step(ReceiverEvent::Sent);
    sender.step(reply(MessageType::StreamInfoAck));
    receiver.step(ReceiverEvent::Prepared);
    let all = SenderEvent::Workers { completed: sender.total_chunks, streams: 1 };
    assert_eq!(sender.step(all).action, SenderAction::SendDone);
    receiver.step(ReceiverEvent::Workers { complete: true });
    receiver.step(ReceiverEvent::Digest { same: true });
    assert_eq!(
        receiver.step(ReceiverEvent::Renamed { streams: 1 }).action,
        ReceiverAction::SendAck
    );
    assert_eq!(receiver.step(ReceiverEvent::Sent).action, ReceiverAction::Complete);
    assert_eq!(sender.step(reply(MessageType::Ack)).action, SenderAction::Complete);
}
