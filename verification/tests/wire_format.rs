use tcp_multi_transfer::protocol::transfer::{
    digest_at, encode_simple, u32_at, u64_at, ChunkAckMessage, ChunkHeaderMessage,
    FileInfoMessage, HelloMessage, MessageType, StreamInfoMessage,
};
use tcp_multi_transfer::wire::{be_u64, push_be_u64};

#[test]
fn simple_message_is_its_type() {
    assert_eq!(&encode_simple(MessageType::Done)[..], &[5u8]);
    assert_eq!(&encode_simple(MessageType::Ack)[..], &[6u8]);
    assert_eq!(&encode_simple(MessageType::FileInfoAck)[..], &[3u8]);
    assert_eq!(&encode_simple(MessageType::StreamInfoAck)[..], &[9u8]);
}

#[test]
fn message_types_read_back() {
    let known = [1u8, 2, 3, 4, 5, 6, 8, 9, 10, 13, 15, 16, 17];
    for v in 0..=255u8 {
        match MessageType::from_u8(v) {
            Some(t) => {
                assert!(known.contains(&v));
                assert_eq!(t.to_u8(), v);
            }
            None => assert!(!known.contains(&v)),
        }
    }
    assert_eq!(MessageType::from_u8(7), None);
    assert_eq!(MessageType::from_u8(13), Some(MessageType::ChunkHeader));
}

#[test]
fn hello_bytes_and_back() {
    let hello = HelloMessage { role: "sender".to_string() };
    let bytes = hello.encode();
    assert_eq!(&bytes[..], b"\x01\x00\x00\x00\x06sender");
    assert_eq!(HelloMessage::decode(&bytes).unwrap().role, "sender");
    let mut longer = bytes.to_vec();
    longer.extend_from_slice(b"rest");
    assert_eq!(HelloMessage::decode(&longer).unwrap().role, "sender");
    let umlaut = HelloMessage { role: "Grüße".to_string() };
    assert_eq!(umlaut.encode().len(), 5 + 7);
    assert_eq!(HelloMessage::decode(&umlaut.encode()).unwrap().role, "Grüße");
}

#[test]
fn hello_that_is_short_or_no_text_is_refused() {
    assert!(HelloMessage::decode(b"\x01\x00\x00\x00").is_none());
    assert!(HelloMessage::decode(b"\x01\x00\x00\x00\x06sende").is_none());
    assert!(HelloMessage::decode(b"\x01\x00\x00\x00\x02\xff\xfe").is_none());
    assert!(HelloMessage::decode(b"\x01\xff\xff\xff\xffx").is_none());
    assert_eq!(HelloMessage::decode(b"\x01\x00\x00\x00\x00").unwrap().role, "");
}

#[test]
fn stream_info_has_thirteen_bytes() {
    let info = StreamInfoMessage { stream_index: 2, total_streams: 4, chunk_size: 0x0004_0000 };
    let bytes = info.encode();
    assert_eq!(&bytes[..], &[8, 0, 0, 0, 2, 0, 0, 0, 4, 0, 4, 0, 0]);
    assert_eq!(StreamInfoMessage::decode(&bytes), Some(info));
    assert_eq!(StreamInfoMessage::decode(&bytes[..12]), None);
}

#[test]
fn chunk_answer_tells_accepted_from_rejected() {
    let ack = ChunkAckMessage { chunk_id: 0x0102_0304, is_nack: false };
    let nack = ChunkAckMessage { chunk_id: 7, is_nack: true };
    assert_eq!(&ack.encode()[..], &[10, 1, 2, 3, 4]);
    assert_eq!(&nack.encode()[..], &[15, 0, 0, 0, 7]);
    assert_eq!(ChunkAckMessage::decode(&ack.encode()), Some(ack));
    assert_eq!(ChunkAckMessage::decode(&nack.encode()), Some(nack));
    assert_eq!(ChunkAckMessage::decode(&[13, 0, 0, 0, 7]), None);
    assert_eq!(ChunkAckMessage::decode(&[99, 0, 0, 0, 7]), None);
    assert_eq!(ChunkAckMessage::decode(&[10, 0, 0, 0]), None);
}

#[test]
fn chunk_header_has_twenty_one_bytes() {
    let header = ChunkHeaderMessage {
        chunk_id: 3,
        offset: 0x0102_0304_0506_0708,
        len: 65536,
        hash32: 0xDEAD_BEEF,
    };
    let bytes = header.encode();
    assert_eq!(
        &bytes[..],
        &[13, 0, 0, 0, 3, 1, 2, 3, 4, 5, 6, 7, 8, 0, 1, 0, 0, 0xDE, 0xAD, 0xBE, 0xEF]
    );
    assert_eq!(ChunkHeaderMessage::decode(&bytes), Some(header));
    assert_eq!(ChunkHeaderMessage::decode(&bytes[..20]), None);
}

#[test]
fn file_info_bytes_and_back() {
    let mut sha256 = [0u8; 32];
    for (i, b) in sha256.iter_mut().enumerate() {
        *b = i as u8;
    }
    let info = FileInfoMessage { filename: "a.txt".to_string(), file_size: 258, sha256 };
    let bytes = info.encode();
    assert_eq!(bytes.len(), 50);
    assert_eq!(&bytes[..18], b"\x02\x00\x00\x00\x05\x00\x00\x00\x00\x00\x00\x01\x02a.txt");
    assert_eq!(&bytes[18..], &sha256);
    let back = FileInfoMessage::decode(&bytes).unwrap();
    assert_eq!(back.filename, "a.txt");
    assert_eq!(back.file_size, 258);
    assert_eq!(back.sha256, sha256);
}

#[test]
fn file_info_that_is_short_or_no_text_is_refused() {
    let info = FileInfoMessage { filename: "ab".to_string(), file_size: 1, sha256: [9; 32] };
    let bytes = info.encode().to_vec();
    assert!(FileInfoMessage::decode(&bytes[..12]).is_none());
    assert!(FileInfoMessage::decode(&bytes[..bytes.len() - 1]).is_none());
    let mut broken = bytes.clone();
    broken[13] = 0xFF;
    assert!(FileInfoMessage::decode(&broken).is_none());
    let mut huge = bytes;
    huge[1] = 0xFF;
    assert!(FileInfoMessage::decode(&huge).is_none());
}

#[test]
fn messages_that_are_cut_off_are_refused() {
    let hello = HelloMessage { role: "sender".to_string() }.encode();
    for k in 0..hello.len() {
        assert!(HelloMessage::decode(&hello[..k]).is_none());
    }
    let info = FileInfoMessage { filename: "ab".to_string(), file_size: 1, sha256: [9; 32] }.encode();
    for k in 0..info.len() {
        assert!(FileInfoMessage::decode(&info[..k]).is_none());
    }
}

#[test]
fn numbers_stand_most_significant_byte_first() {
    let data = [0u8, 1, 2, 3, 4, 5, 6, 7, 8, 9];
    assert_eq!(u32_at(&data, 1), 0x0102_0304);
    assert_eq!(u64_at(&data, 2), 0x0203_0405_0607_0809);
    assert_eq!(be_u64(&data), 0x0001_0203_0405_0607);
    let mut out = vec![9u8];
    push_be_u64(&mut out, 0xF1E2_D3C4_B5A6_9788);
    assert_eq!(out, vec![9, 0xF1, 0xE2, 0xD3, 0xC4, 0xB5, 0xA6, 0x97, 0x88]);
    for v in [0u64, 1, 255, 256, u32::MAX as u64, u64::MAX] {
        let mut bytes = Vec::new();
        push_be_u64(&mut bytes, v);
        assert_eq!(bytes, v.to_be_bytes().to_vec());
        assert_eq!(be_u64(&bytes), v);
    }
    let long: Vec<u8> = (0..40).collect();
    assert_eq!(digest_at(&long, 8)[..], long[8..40]);
}
