use turbotransfer_core::protocol::error::ProtocolError;
use turbotransfer_core::protocol::frame::{decode_frame, encode_frame, end_of_stream, next_frame_len, DEFAULT_MAX_FRAME_SIZE};
use turbotransfer_core::protocol::messages::{
    ChunkAckData, HeartbeatData, Message, MessageKind, PauseData, MSG_TYPE_BATCH_CHUNK_ACK, MSG_TYPE_HEARTBEAT,
};

#[test]
fn frame_layout_is_length_type_payload() {
    let f = encode_frame(MSG_TYPE_HEARTBEAT, &[0xAA, 0xBB]);
    assert_eq!(f, vec![3, 0, 0, 0, 0x0C, 0xAA, 0xBB]);
    let (t, p) = decode_frame(&f).unwrap();
    assert_eq!(t, MSG_TYPE_HEARTBEAT);
    assert_eq!(p, vec![0xAA, 0xBB]);
}

#[test]
fn frame_round_trip_of_empty_payload() {
    let f = encode_frame(0x08, &[]);
    assert_eq!(f.len(), 5);
    assert_eq!(decode_frame(&f).unwrap(), (0x08, Vec::new()));
}

#[test]
fn decode_rejects_malformed_frames() {
    assert!(matches!(decode_frame(&[1, 0, 0]), Err(ProtocolError::TruncatedFrame { expected: 5, actual: 3 })));
    match decode_frame(&[0, 0, 0, 0, 1]) {
        Err(ProtocolError::DeserializationError(m)) => assert_eq!(m, "Invalid frame length: 0"),
        other => panic!("unexpected {:?}", other),
    }
    assert!(matches!(decode_frame(&[5, 0, 0, 0, 1, 2]), Err(ProtocolError::TruncatedFrame { expected: 9, actual: 6 })));
}

#[test]
fn stream_reader_decisions() {
    assert!(matches!(next_frame_len(&[3, 0], DEFAULT_MAX_FRAME_SIZE), Ok(None)));
    assert!(matches!(next_frame_len(&[3, 0, 0, 0, 1, 2], DEFAULT_MAX_FRAME_SIZE), Ok(None)));
    assert!(matches!(next_frame_len(&[3, 0, 0, 0, 1, 2, 3, 9], DEFAULT_MAX_FRAME_SIZE), Ok(Some(7))));
    assert!(matches!(next_frame_len(&[0xFF, 0xFF, 0, 0, 1], 100), Err(ProtocolError::FrameTooLarge(65535, 100))));
    assert!(matches!(next_frame_len(&[0, 0, 0, 0], 100), Err(ProtocolError::DeserializationError(_))));
    assert!(end_of_stream(0).is_ok());
    assert!(matches!(end_of_stream(2), Err(ProtocolError::UnexpectedEof)));
}

#[test]
fn message_type_codes() {
    for code in 1u8..=13 {
        let kind = MessageKind::from_code(code).unwrap();
        assert_eq!(kind.code(), code);
    }
    assert!(matches!(MessageKind::from_code(0), Err(ProtocolError::InvalidMessageType(0))));
    assert!(matches!(MessageKind::from_code(14), Err(ProtocolError::InvalidMessageType(14))));
    let hb = Message::Heartbeat(HeartbeatData { sequence: 1 });
    assert_eq!(hb.message_type(), MSG_TYPE_HEARTBEAT);
    assert_eq!(hb.kind(), MessageKind::Heartbeat);
    assert!(!hb.is_bulk());
    let ack = Message::ChunkAck(ChunkAckData { transfer_id: 1, chunk_id: 2, receiver_verify_us: None });
    assert_eq!(ack.message_type(), 0x06);
    assert_eq!(Message::Pause(PauseData { transfer_id: 1 }).message_type(), 0x08);
    assert_eq!(MessageKind::BatchChunkAck.code(), MSG_TYPE_BATCH_CHUNK_ACK);
}

#[test]
fn a_stream_of_frames_reads_back_in_order() {
    let mut stream = encode_frame(1, &[9, 8, 7]);
    stream.extend(encode_frame(MSG_TYPE_HEARTBEAT, &[]));
    stream.extend(encode_frame(3, &[5]));
    stream.extend([4u8, 0]);
    let mut read = Vec::new();
    let mut buf = stream.as_slice();
    while let Some(n) = next_frame_len(buf, DEFAULT_MAX_FRAME_SIZE).unwrap() {
        read.push(decode_frame(&buf[..n]).unwrap());
        buf = &buf[n..];
    }
    assert_eq!(read, vec![(1, vec![9, 8, 7]), (MSG_TYPE_HEARTBEAT, vec![]), (3, vec![5])]);
    assert_eq!(buf, &[4u8, 0][..]);
    assert!(end_of_stream(buf.len()).is_err());
}
