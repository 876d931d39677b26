use mill::protocol::{parse_frames, Flags, Frame, FrameHeader, MessageType, HEADER_SIZE, VERSION};
use mill::RpcStatus;

#[test]
fn test_header_roundtrip() {
    let header = FrameHeader {
        version: VERSION,
        flags: Flags::none(),
        message_type: MessageType::Request,
        payload_len: 42,
    };
    let encoded = header.encode();
    let decoded = FrameHeader::decode(&encoded).unwrap();
    assert_eq!(decoded.version, VERSION);
    assert_eq!(decoded.flags, Flags::none());
    assert_eq!(decoded.message_type, MessageType::Request);
    assert_eq!(decoded.payload_len, 42);
}

#[test]
fn test_request_frame_roundtrip() {
    let frame = Frame::request(123, 1, 2, vec![10, 20, 30], false);
    let bytes = frame.encode();
    let (frames, consumed) = parse_frames(&bytes).unwrap();
    assert_eq!(consumed, bytes.len());
    assert_eq!(frames.len(), 1);

    let (req_id, svc_id, method_id, args) = frames[0].parse_request_payload().unwrap();
    assert_eq!(req_id, 123);
    assert_eq!(svc_id, 1);
    assert_eq!(method_id, 2);
    assert_eq!(args, &[10, 20, 30]);
}

#[test]
fn test_response_frame_roundtrip() {
    let frame = Frame::response(456, vec![1, 2, 3]);
    let bytes = frame.encode();
    let (frames, _) = parse_frames(&bytes).unwrap();
    let (req_id, data) = frames[0].parse_response_payload().unwrap();
    assert_eq!(req_id, 456);
    assert_eq!(data, &[1, 2, 3]);
}

#[test]
fn test_multiple_frames() {
    let f1 = Frame::request(1, 0, 0, vec![0xAA], false);
    let f2 = Frame::response(1, vec![0xBB]);
    let mut bytes = f1.encode();
    bytes.extend_from_slice(&f2.encode());

    let (frames, consumed) = parse_frames(&bytes).unwrap();
    assert_eq!(consumed, bytes.len());
    assert_eq!(frames.len(), 2);
    assert_eq!(frames[0].header.message_type, MessageType::Request);
    assert_eq!(frames[1].header.message_type, MessageType::Response);
}

#[test]
fn test_partial_frame() {
    let frame = Frame::request(1, 0, 0, vec![0xAA; 100], false);
    let bytes = frame.encode();
    // Only give half the bytes
    let partial = &bytes[..bytes.len() / 2];
    let (frames, consumed) = parse_frames(partial).unwrap();
    assert_eq!(frames.len(), 0);
    assert_eq!(consumed, 0);
}

#[test]
fn test_ping_pong() {
    let ping = Frame::ping();
    let pong = Frame::pong();
    assert_eq!(ping.header.message_type, MessageType::Ping);
    assert_eq!(pong.header.message_type, MessageType::Pong);
    assert_eq!(ping.payload.len(), 0);
    assert_eq!(pong.payload.len(), 0);
}

#[test]
fn test_invalid_magic() {
    let mut buf = [0u8; HEADER_SIZE];
    buf[0] = 0xFF;
    buf[1] = 0xFF;
    assert!(FrameHeader::decode(&buf).is_err());
}

#[test]
fn test_one_way_flag() {
    let frame = Frame::request(1, 0, 0, vec![], true);
    assert!(frame.header.flags.is_one_way());

    let frame = Frame::request(1, 0, 0, vec![], false);
    assert!(!frame.header.flags.is_one_way());
}

// ---------------------------------------------------------------------------

#[test]
fn header_bytes_follow_the_documented_layout() {
    let header = FrameHeader {
        version: VERSION,
        flags: Flags::one_way(),
        message_type: MessageType::Error,
        payload_len: 0x01020304,
    };
    assert_eq!(header.encode(), [0x4D, 0x52, 1, 2, 3, 4, 3, 2, 1]);
}

#[test]
fn request_bytes_follow_the_documented_layout() {
    let frame = Frame::request(0x0102030405060708, 0x0A0B, 0x0C0D, vec![0xEE], false);
    assert_eq!(frame.payload, vec![8, 7, 6, 5, 4, 3, 2, 1, 0x0B, 0x0A, 0x0D, 0x0C, 0xEE]);
    assert_eq!(frame.header.payload_len, 13);
    assert_eq!(frame.header.flags, Flags::none());
    assert_eq!(frame.header.version, VERSION);
}

#[test]
fn invalid_magic_message_names_the_bytes() {
    let mut buf = [0u8; HEADER_SIZE];
    buf[0] = 0xFF;
    buf[1] = 0x0A;
    let err = FrameHeader::decode(&buf).unwrap_err();
    assert_eq!(err.status, RpcStatus::InvalidArgument);
    assert_eq!(err.message, "Invalid magic: [0xFF, 0x0A]");
}

#[test]
fn unsupported_version_is_rejected() {
    let buf = [0x4D, 0x52, 7, 0, 1, 0, 0, 0, 0];
    let err = FrameHeader::decode(&buf).unwrap_err();
    assert_eq!(err.status, RpcStatus::InvalidArgument);
    assert_eq!(err.message, "Unsupported version: 7");
}

#[test]
fn unknown_message_type_is_rejected() {
    let buf = [0x4D, 0x52, 1, 0, 0x2A, 0, 0, 0, 0];
    let err = FrameHeader::decode(&buf).unwrap_err();
    assert_eq!(err.message, "Unknown message type: 0x2A");
    let err = MessageType::from_u8(0).unwrap_err();
    assert_eq!(err.status, RpcStatus::InvalidArgument);
    assert_eq!(err.message, "Unknown message type: 0x00");
}

#[test]
fn oversized_payload_is_rejected() {
    let len: u32 = 16 * 1024 * 1024 + 1;
    let b = len.to_le_bytes();
    let buf = [0x4D, 0x52, 1, 0, 2, b[0], b[1], b[2], b[3]];
    let err = FrameHeader::decode(&buf).unwrap_err();
    assert_eq!(err.message, "Payload too large: 16777217 > 16777216");
    let b = (16u32 * 1024 * 1024).to_le_bytes();
    let buf = [0x4D, 0x52, 1, 0, 2, b[0], b[1], b[2], b[3]];
    assert_eq!(FrameHeader::decode(&buf).unwrap().payload_len, 16 * 1024 * 1024);
}

#[test]
fn message_type_codes_round_trip() {
    for v in 1u8..=6 {
        let t = MessageType::from_u8(v).unwrap();
        assert_eq!(t.to_u8(), v);
    }
    assert_eq!(MessageType::from_u8(3).unwrap(), MessageType::Error);
    assert!(MessageType::from_u8(7).is_err());
}

#[test]
fn flags_bits() {
    assert!(Flags(3).is_compressed());
    assert!(Flags(3).is_one_way());
    assert!(!Flags(0).is_compressed());
    assert!(Flags::compressed().is_compressed());
    assert!(!Flags::compressed().is_one_way());
}

#[test]
fn short_payloads_are_rejected() {
    let frame = Frame {
        header: FrameHeader { version: VERSION, flags: Flags::none(), message_type: MessageType::Request, payload_len: 11 },
        payload: vec![0; 11],
    };
    let err = frame.parse_request_payload().unwrap_err();
    assert_eq!(err.message, "Request payload too short");
    let err = Frame::ping().parse_response_payload().unwrap_err();
    assert_eq!(err.message, "Response payload too short");
}

#[test]
fn error_frame_round_trip() {
    let frame = Frame::error(9, vec![5, 6]);
    assert_eq!(frame.header.message_type, MessageType::Error);
    let (frames, consumed) = parse_frames(&frame.encode()).unwrap();
    assert_eq!(consumed, HEADER_SIZE + 10);
    let (id, data) = frames[0].parse_response_payload().unwrap();
    assert_eq!(id, 9);
    assert_eq!(data, &[5, 6]);
}

#[test]
fn bad_header_after_good_frame_fails_the_parse() {
    let mut bytes = Frame::ping().encode();
    bytes.extend_from_slice(&[0u8; HEADER_SIZE]);
    assert!(parse_frames(&bytes).is_err());
}

#[test]
fn trailing_partial_frame_is_left_unconsumed() {
    let mut bytes = Frame::ping().encode();
    let second = Frame::response(3, vec![1, 2, 3, 4]).encode();
    bytes.extend_from_slice(&second[..5]);
    let (frames, consumed) = parse_frames(&bytes).unwrap();
    assert_eq!(frames.len(), 1);
    assert_eq!(consumed, HEADER_SIZE);
}
