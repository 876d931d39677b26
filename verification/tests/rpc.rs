use mill::protocol::{Flags, Frame, FrameHeader, MessageType, HEADER_SIZE, VERSION};
use mill::rpc::{client_event, reply_for, server_action, CallState, ClientEvent, ServerAction, ServiceRegistry};
use mill::{Codec, CodecType, FrameBuffer, PendingCalls, RpcError, RpcStatus};

#[test]
fn feeding_in_pieces_gives_every_frame() {
    let mut bytes = Frame::request(7, 1, 2, vec![9, 9], false).encode();
    bytes.extend_from_slice(&Frame::ping().encode());
    let mut buf = FrameBuffer::new();
    let mut got = Vec::new();
    for chunk in bytes.chunks(4) {
        got.extend(buf.feed(chunk).unwrap());
    }
    assert_eq!(got.len(), 2);
    assert_eq!(got[0].header.message_type, MessageType::Request);
    assert_eq!(got[1].header.message_type, MessageType::Ping);
    assert_eq!(buf.len(), 0);
}

#[test]
fn feeding_keeps_incomplete_tail() {
    let bytes = Frame::response(1, vec![1, 2, 3]).encode();
    let mut buf = FrameBuffer::new();
    assert!(buf.feed(&bytes[..HEADER_SIZE + 1]).unwrap().is_empty());
    assert_eq!(buf.len(), HEADER_SIZE + 1);
    let frames = buf.feed(&bytes[HEADER_SIZE + 1..]).unwrap();
    assert_eq!(frames.len(), 1);
    assert_eq!(frames[0].payload, Frame::response(1, vec![1, 2, 3]).payload);
}

#[test]
fn corrupt_stream_clears_the_buffer() {
    let mut buf = FrameBuffer::new();
    let err = buf.feed(&[1, 2, 3, 4, 5, 6, 7, 8, 9, 10]).unwrap_err();
    assert_eq!(err.status, RpcStatus::InvalidArgument);
    assert_eq!(err.message, "Invalid magic: [0x01, 0x02]");
    assert_eq!(buf.len(), 0);
}

#[test]
fn server_dispatches_requests() {
    let frame = Frame::request(42, 3, 4, vec![1, 2], true);
    match server_action(&frame) {
        ServerAction::Dispatch { request_id, service_id, method_id, args, one_way } => {
            assert_eq!((request_id, service_id, method_id), (42, 3, 4));
            assert_eq!(args, vec![1, 2]);
            assert!(one_way);
        }
        _ => panic!("expected a dispatch"),
    }
}

#[test]
fn server_answers_ping_with_pong() {
    match server_action(&Frame::ping()) {
        ServerAction::Reply(f) => {
            assert_eq!(f.header.message_type, MessageType::Pong);
            assert_eq!(f.payload.len(), 0);
        }
        _ => panic!("expected a pong"),
    }
    assert!(matches!(server_action(&Frame::pong()), ServerAction::Unexpected(MessageType::Pong)));
    let cancel = Frame {
        header: FrameHeader { version: VERSION, flags: Flags::none(), message_type: MessageType::Cancel, payload_len: 0 },
        payload: vec![],
    };
    assert!(matches!(server_action(&cancel), ServerAction::IgnoreCancel));
}

#[test]
fn server_rejects_short_request() {
    let frame = Frame {
        header: FrameHeader { version: VERSION, flags: Flags::none(), message_type: MessageType::Request, payload_len: 3 },
        payload: vec![1, 2, 3],
    };
    match server_action(&frame) {
        ServerAction::Malformed(e) => assert_eq!(e.message, "Request payload too short"),
        _ => panic!("expected a malformed request"),
    }
}

#[test]
fn replies_follow_the_outcome() {
    assert!(reply_for(1, true, Ok(vec![1])).is_none());
    let ok = reply_for(5, false, Ok(vec![7])).unwrap();
    assert_eq!(ok.header.message_type, MessageType::Response);
    assert_eq!(ok.parse_response_payload().unwrap(), (5, &[7u8][..]));
    let err = reply_for(6, false, Err(vec![8, 9])).unwrap();
    assert_eq!(err.header.message_type, MessageType::Error);
    assert_eq!(err.parse_response_payload().unwrap(), (6, &[8u8, 9][..]));
}

#[test]
fn client_sorts_frames() {
    match client_event(&Frame::response(3, vec![4])) {
        ClientEvent::Reply(id, data) => {
            assert_eq!(id, 3);
            assert_eq!(data, vec![4]);
        }
        _ => panic!("expected a reply"),
    }
    match client_event(&Frame::error(4, vec![5])) {
        ClientEvent::Failure(id, data) => {
            assert_eq!(id, 4);
            assert_eq!(data, vec![5]);
        }
        _ => panic!("expected a failure"),
    }
    assert!(matches!(client_event(&Frame::pong()), ClientEvent::Pong));
    assert!(matches!(client_event(&Frame::ping()), ClientEvent::Unexpected(MessageType::Ping)));
}

#[test]
fn pending_calls_lifecycle() {
    let mut calls = PendingCalls::new();
    let a = calls.begin();
    let b = calls.begin();
    assert_eq!((a, b), (1, 2));
    assert!(matches!(calls.poll(a), CallState::Waiting));
    assert!(calls.complete(a, Ok(vec![1])));
    assert!(!calls.complete(99, Ok(vec![])));
    match calls.poll(a) {
        CallState::Done(Ok(v)) => assert_eq!(v, vec![1]),
        _ => panic!("expected a result"),
    }
    assert!(matches!(calls.poll(a), CallState::Missing));
    calls.abandon(b);
    assert!(matches!(calls.poll(b), CallState::Missing));
    assert_eq!(calls.next_oneway_id(), 3);
}

#[test]
fn rpc_error_constructors() {
    let e = RpcError::method_not_found(999);
    assert_eq!(e.status, RpcStatus::NotFound);
    assert_eq!(e.message, "Method not found: 999");
    let e = RpcError::service_not_found(0);
    assert_eq!(e.message, "Service not found: 0");
    assert_eq!(RpcError::internal("x").status, RpcStatus::Internal);
    assert_eq!(RpcError::codec_error("x").status, RpcStatus::Internal);
    assert_eq!(RpcError::invalid_argument("x").status, RpcStatus::InvalidArgument);
    assert_eq!(RpcError::not_found("x").status, RpcStatus::NotFound);
    assert_eq!(RpcError::unavailable("x").status, RpcStatus::Unavailable);
    assert_eq!(RpcError::deadline_exceeded("late").message, "late");
    assert_eq!(RpcError::new(RpcStatus::Cancelled, "gone").status, RpcStatus::Cancelled);
}

#[test]
fn rpc_error_display_text() {
    let e = RpcError::not_found("no such key");
    assert_eq!(e.to_string(), "[NOT_FOUND] no such key");
    assert_eq!(RpcStatus::Success.as_str(), "OK");
    assert_eq!(RpcStatus::DeadlineExceeded.as_str(), "DEADLINE_EXCEEDED");
    assert_eq!(RpcStatus::ResourceExhausted.as_str(), "RESOURCE_EXHAUSTED");
}

#[test]
fn codec_defaults_to_bincode() {
    assert_eq!(Codec::bincode().codec_type(), CodecType::Bincode);
    assert_eq!(Codec::default().codec_type(), CodecType::Bincode);
}

#[test]
fn services_get_ids_in_registration_order() {
    let mut reg = ServiceRegistry::new();
    assert_eq!(reg.service("calc"), 0);
    assert_eq!(reg.service("echo"), 1);
    reg.service_with_id(7, "kv");
    assert_eq!(reg.service("math"), 2);
    let table = reg.build();
    assert_eq!(*table.route(0).unwrap(), "calc");
    assert_eq!(*table.route(1).unwrap(), "echo");
    assert_eq!(*table.route(2).unwrap(), "math");
    assert_eq!(*table.route(7).unwrap(), "kv");
}

#[test]
fn later_registration_under_one_id_wins() {
    let mut reg = ServiceRegistry::new();
    reg.service("first");
    reg.service_with_id(0, "second");
    let table = reg.build();
    assert_eq!(*table.route(0).unwrap(), "second");
}

#[test]
fn unknown_service_is_not_found() {
    let mut reg = ServiceRegistry::new();
    reg.service(());
    let table = reg.build();
    let err = table.route(5).unwrap_err();
    assert_eq!(err.status, RpcStatus::NotFound);
    assert_eq!(err.message, "Service not found: 5");
}

#[test]
fn timed_out_call_leaves_the_table() {
    let mut calls = PendingCalls::new();
    assert_eq!(calls.next_request_id(), 1);
    let id = calls.begin();
    assert_eq!(calls.next_request_id(), 2);
    let e = calls.time_out(id, "Request 1 timed out");
    assert_eq!(e.status, RpcStatus::DeadlineExceeded);
    assert_eq!(e.message, "Request 1 timed out");
    assert!(matches!(calls.poll(id), CallState::Missing));
}
