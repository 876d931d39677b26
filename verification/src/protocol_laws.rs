//! Laws of the wire protocol: what the decoder and the stream parser give
//! back of what the encoders wrote.
use vstd::prelude::*;
use vstd::bytes::*;
use crate::error::RpcStatus;
use crate::protocol::{
    after_prefix, decode_header, frame_bytes, frame_is_well_formed, header_bytes, header_for,
    header_is_valid, message_type_code, message_type_of_code, parse_stream, reply_payload,
    request_payload, Flags, FrameHeader, MessageType, HEADER_SIZE, MAX_PAYLOAD_SIZE,
};

verus! {

/// The bytes of a sequence of frames, one after the other.
pub open spec fn frames_bytes(fs: Seq<(FrameHeader, Seq<u8>)>) -> Seq<u8>
    decreases fs.len(),
{
    if fs.len() == 0 {
        Seq::empty()
    } else {
        frame_bytes(fs[0]) + frames_bytes(fs.drop_first())
    }
}

proof fn lemma_code_round_trip(t: MessageType)
    ensures
        message_type_of_code(message_type_code(t)) == Some(t),
{
}

proof fn lemma_header_bytes_len(h: FrameHeader)
    ensures
        header_bytes(h).len() == HEADER_SIZE,
        header_bytes(h).subrange(5, 9) == spec_u32_to_le_bytes(h.payload_len),
{
    lemma_auto_spec_u32_to_from_le_bytes();
    assert(header_bytes(h).subrange(5, 9) =~= spec_u32_to_le_bytes(h.payload_len));
}

/// A valid header decodes to itself: decoding what `FrameHeader::encode` wrote
/// gives back the same header.
pub proof fn header_round_trip(h: FrameHeader)
    requires
        header_is_valid(h),
    ensures
        decode_header(header_bytes(h)) == Ok::<FrameHeader, (RpcStatus, Seq<char>)>(h),
{
    lemma_header_bytes_len(h);
    lemma_auto_spec_u32_to_from_le_bytes();
    lemma_code_round_trip(h.message_type);
}

/// Decoding loses nothing: nine bytes that decode to a header are exactly the
/// encoding of that header.
pub proof fn decoded_header_reencodes(b: Seq<u8>)
    requires
        b.len() == HEADER_SIZE,
        decode_header(b) is Ok,
    ensures
        header_bytes(decode_header(b)->Ok_0) == b,
        header_is_valid(decode_header(b)->Ok_0),
{
    let h = decode_header(b)->Ok_0;
    lemma_auto_spec_u32_to_from_le_bytes();
    lemma_header_bytes_len(h);
    assert(b.subrange(5, 9).len() == 4);
    assert(spec_u32_to_le_bytes(spec_u32_from_le_bytes(b.subrange(5, 9))) == b.subrange(5, 9));
    assert(message_type_code(h.message_type) == b[4]);
    assert(header_bytes(h) =~= b);
}

/// Parsing a well-formed frame followed by more bytes takes that frame off the
/// front and goes on with the rest.
proof fn lemma_parse_frame_then(f: (FrameHeader, Seq<u8>), rest: Seq<u8>)
    requires
        frame_is_well_formed(f),
    ensures
        parse_stream(frame_bytes(f) + rest) == after_prefix(
            seq![f],
            frame_bytes(f).len(),
            parse_stream(rest),
        ),
{
    let buf = frame_bytes(f) + rest;
    lemma_header_bytes_len(f.0);
    header_round_trip(f.0);
    let total = HEADER_SIZE + f.0.payload_len;
    assert(buf.subrange(0, HEADER_SIZE as int) =~= header_bytes(f.0));
    assert(buf.subrange(HEADER_SIZE as int, total as int) =~= f.1);
    assert(buf.subrange(total as int, buf.len() as int) =~= rest);
    match parse_stream(rest) {
        Ok((fs, n)) => {
            assert(seq![(f.0, buf.subrange(HEADER_SIZE as int, total as int))] + fs =~= seq![f] + fs);
        },
        Err(e) => {},
    }
}

/// Frames that are written one after another are read back, all of them and
/// in order, taking every byte.
pub proof fn frames_round_trip(fs: Seq<(FrameHeader, Seq<u8>)>)
    requires
        forall|i: int| 0 <= i < fs.len() ==> frame_is_well_formed(#[trigger] fs[i]),
    ensures
        parse_stream(frames_bytes(fs)) == Ok::<_, (RpcStatus, Seq<char>)>((fs, frames_bytes(fs).len())),
    decreases fs.len(),
{
    if fs.len() == 0 {
        assert(frames_bytes(fs) =~= Seq::<u8>::empty());
        assert(fs =~= Seq::<(FrameHeader, Seq<u8>)>::empty());
    } else {
        let rest = fs.drop_first();
        assert forall|i: int| 0 <= i < rest.len() implies frame_is_well_formed(#[trigger] rest[i]) by {
            assert(rest[i] == fs[i + 1]);
        }
        frames_round_trip(rest);
        assert(frame_is_well_formed(fs[0]));
        lemma_parse_frame_then(fs[0], frames_bytes(rest));
        assert(seq![fs[0]] + rest =~= fs);
    }
}

/// A single well-formed frame is read back from its own bytes.
pub proof fn frame_round_trip(f: (FrameHeader, Seq<u8>))
    requires
        frame_is_well_formed(f),
    ensures
        parse_stream(frame_bytes(f)) == Ok::<_, (RpcStatus, Seq<char>)>((seq![f], frame_bytes(f).len())),
{
    let fs = seq![f];
    assert(fs.drop_first() =~= Seq::<(FrameHeader, Seq<u8>)>::empty());
    assert(frames_bytes(fs.drop_first()) =~= Seq::<u8>::empty());
    assert(frames_bytes(fs) =~= frame_bytes(f));
    frames_round_trip(fs);
}

/// The bytes that a parse consumes are exactly the bytes of the frames it
/// returns, and every frame it returns is well-formed.
pub proof fn consumed_bytes_are_the_frames(buf: Seq<u8>)
    requires
        parse_stream(buf) is Ok,
    ensures
        ({
            let (fs, n) = parse_stream(buf)->Ok_0;
            &&& n <= buf.len()
            &&& frames_bytes(fs) == buf.subrange(0, n as int)
            &&& forall|i: int| 0 <= i < fs.len() ==> frame_is_well_formed(#[trigger] fs[i])
        }),
    decreases buf.len(),
{
    if buf.len() < HEADER_SIZE {
        assert(frames_bytes(Seq::<(FrameHeader, Seq<u8>)>::empty()) =~= buf.subrange(0, 0));
    } else {
        let hb = buf.subrange(0, HEADER_SIZE as int);
        let h = decode_header(hb)->Ok_0;
        decoded_header_reencodes(hb);
        let total = HEADER_SIZE + h.payload_len;
        if total > buf.len() {
            assert(frames_bytes(Seq::<(FrameHeader, Seq<u8>)>::empty()) =~= buf.subrange(0, 0));
        } else {
            let rest = buf.subrange(total as int, buf.len() as int);
            consumed_bytes_are_the_frames(rest);
            let (rfs, rn) = parse_stream(rest)->Ok_0;
            let f = (h, buf.subrange(HEADER_SIZE as int, total as int));
            let fs = seq![f] + rfs;
            assert(fs.drop_first() =~= rfs);
            assert(fs[0] == f);
            assert(frames_bytes(fs) == frame_bytes(f) + frames_bytes(rfs));
            assert(frame_bytes(f) + rest.subrange(0, rn as int) =~= buf.subrange(0, total + rn));
            assert forall|i: int| 0 <= i < fs.len() implies frame_is_well_formed(#[trigger] fs[i]) by {
                if i > 0 {
                    assert(fs[i] == rfs[i - 1]);
                }
            }
        }
    }
}

/// A frame of which only a part has arrived yields nothing yet: no frame is
/// returned and no byte is consumed.
pub proof fn incomplete_frame_yields_nothing(f: (FrameHeader, Seq<u8>), k: nat)
    requires
        frame_is_well_formed(f),
        k < frame_bytes(f).len(),
    ensures
        parse_stream(frame_bytes(f).subrange(0, k as int)) == Ok::<_, (RpcStatus, Seq<char>)>(
            (Seq::<(FrameHeader, Seq<u8>)>::empty(), 0nat),
        ),
{
    let buf = frame_bytes(f).subrange(0, k as int);
    lemma_header_bytes_len(f.0);
    if buf.len() >= HEADER_SIZE {
        header_round_trip(f.0);
        assert(buf.subrange(0, HEADER_SIZE as int) =~= header_bytes(f.0));
    }
}

/// Bytes that arrive later never change the frames already parsed: if a buffer
/// and a longer buffer beginning with it both parse, the frames of the shorter
/// come first among the frames of the longer, and no fewer bytes are consumed.
pub proof fn later_bytes_keep_parsed_frames(buf: Seq<u8>, more: Seq<u8>)
    requires
        parse_stream(buf) is Ok,
        parse_stream(buf + more) is Ok,
    ensures
        ({
            let (fs, n) = parse_stream(buf)->Ok_0;
            let (gs, m) = parse_stream(buf + more)->Ok_0;
            &&& n <= m
            &&& fs.len() <= gs.len()
            &&& gs.subrange(0, fs.len() as int) == fs
        }),
    decreases buf.len(),
{
    let all = buf + more;
    if buf.len() < HEADER_SIZE {
    } else {
        let hb = buf.subrange(0, HEADER_SIZE as int);
        assert(all.subrange(0, HEADER_SIZE as int) =~= hb);
        let h = decode_header(hb)->Ok_0;
        let total = HEADER_SIZE + h.payload_len;
        if total > buf.len() {
        } else {
            let rest = buf.subrange(total as int, buf.len() as int);
            let all_rest = all.subrange(total as int, all.len() as int);
            assert(all_rest =~= rest + more);
            assert(all.subrange(HEADER_SIZE as int, total as int) =~= buf.subrange(HEADER_SIZE as int, total as int));
            later_bytes_keep_parsed_frames(rest, more);
            let (rfs, rn) = parse_stream(rest)->Ok_0;
            let (rgs, rm) = parse_stream(all_rest)->Ok_0;
            let f = (h, buf.subrange(HEADER_SIZE as int, total as int));
            assert((seq![f] + rgs).subrange(0, (seq![f] + rfs).len() as int) =~= seq![f] + rfs) by {
                assert(rgs.subrange(0, rfs.len() as int) == rfs);
            }
        }
    }
}

/// Bytes may arrive in any pieces: parsing a buffer, keeping what it did not
/// consume and parsing that with the bytes that come next gives the same
/// frames, in the same order, as parsing everything at once.
pub proof fn split_delivery_keeps_frames(a: Seq<u8>, b: Seq<u8>)
    requires
        parse_stream(a) is Ok,
    ensures
        ({
            let (fs, n) = parse_stream(a)->Ok_0;
            &&& n <= a.len()
            &&& parse_stream(a + b) == after_prefix(fs, n, parse_stream(a.subrange(n as int, a.len() as int) + b))
        }),
    decreases a.len(),
{
    let all = a + b;
    consumed_bytes_are_the_frames(a);
    if a.len() < HEADER_SIZE {
        assert(a.subrange(0, a.len() as int) =~= a);
        match parse_stream(all) {
            Ok((gs, m)) => {
                assert(Seq::<(FrameHeader, Seq<u8>)>::empty() + gs =~= gs);
            },
            Err(e) => {},
        }
    } else {
        let hb = a.subrange(0, HEADER_SIZE as int);
        assert(all.subrange(0, HEADER_SIZE as int) =~= hb);
        let h = decode_header(hb)->Ok_0;
        let total = HEADER_SIZE + h.payload_len;
        if total > a.len() {
            assert(a.subrange(0, a.len() as int) =~= a);
            match parse_stream(all) {
                Ok((gs, m)) => {
                    assert(Seq::<(FrameHeader, Seq<u8>)>::empty() + gs =~= gs);
                },
                Err(e) => {},
            }
        } else {
            let rest = a.subrange(total as int, a.len() as int);
            split_delivery_keeps_frames(rest, b);
            let (rfs, rn) = parse_stream(rest)->Ok_0;
            let f = (h, a.subrange(HEADER_SIZE as int, total as int));
            assert(all.subrange(HEADER_SIZE as int, total as int) =~= a.subrange(HEADER_SIZE as int, total as int));
            assert(all.subrange(total as int, all.len() as int) =~= rest + b);
            assert(rest.subrange(rn as int, rest.len() as int) =~= a.subrange(total + rn, a.len() as int));
            match parse_stream(a.subrange(total + rn, a.len() as int) + b) {
                Ok((gs, m)) => {
                    assert(seq![f] + (rfs + gs) =~= (seq![f] + rfs) + gs);
                },
                Err(e) => {},
            }
        }
    }
}

/// The request id, service id, method id and arguments that `Frame::request`
/// writes are the ones that `Frame::parse_request_payload` reads back.
pub proof fn request_payload_round_trip(request_id: u64, service_id: u16, method_id: u16, args: Seq<u8>)
    ensures
        ({
            let p = request_payload(request_id, service_id, method_id, args);
            &&& p.len() == 12 + args.len()
            &&& spec_u64_from_le_bytes(p.subrange(0, 8)) == request_id
            &&& spec_u16_from_le_bytes(p.subrange(8, 10)) == service_id
            &&& spec_u16_from_le_bytes(p.subrange(10, 12)) == method_id
            &&& p.subrange(12, p.len() as int) == args
        }),
{
    lemma_auto_spec_u64_to_from_le_bytes();
    lemma_auto_spec_u16_to_from_le_bytes();
    let p = request_payload(request_id, service_id, method_id, args);
    assert(p.subrange(0, 8) =~= spec_u64_to_le_bytes(request_id));
    assert(p.subrange(8, 10) =~= spec_u16_to_le_bytes(service_id));
    assert(p.subrange(10, 12) =~= spec_u16_to_le_bytes(method_id));
    assert(p.subrange(12, p.len() as int) =~= args);
}

/// The request id and data that `Frame::response` and `Frame::error` write are
/// the ones that `Frame::parse_response_payload` reads back.
pub proof fn reply_payload_round_trip(request_id: u64, data: Seq<u8>)
    ensures
        ({
            let p = reply_payload(request_id, data);
            &&& p.len() == 8 + data.len()
            &&& spec_u64_from_le_bytes(p.subrange(0, 8)) == request_id
            &&& p.subrange(8, p.len() as int) == data
        }),
{
    lemma_auto_spec_u64_to_from_le_bytes();
    let p = reply_payload(request_id, data);
    assert(p.subrange(0, 8) =~= spec_u64_to_le_bytes(request_id));
    assert(p.subrange(8, p.len() as int) =~= data);
}

/// A frame built by the constructors is well-formed exactly when its payload
/// fits the protocol's limit.
pub proof fn built_frame_is_well_formed(t: MessageType, flags: Flags, payload: Seq<u8>)
    requires
        payload.len() <= MAX_PAYLOAD_SIZE,
    ensures
        frame_is_well_formed((header_for(t, flags, payload), payload)),
{
}

/// The one-way flag of a request reads back as it was set.
pub proof fn one_way_flag_round_trip(one_way: bool)
    ensures
        ((if one_way { Flags(2) } else { Flags(0) }).0 & 2u8 != 0) == one_way,
{
    assert(2u8 & 2u8 != 0) by (bit_vector);
    assert(0u8 & 2u8 == 0) by (bit_vector);
}


/// The wire code of each message type, as the protocol documents it: Request
/// 0x01, Response 0x02, Error 0x03, Ping 0x04, Pong 0x05, Cancel 0x06. It is
/// the fifth byte of an encoded header, after the magic "MR", the version and
/// the flags; decoding reads each code back as its type and no other byte as
/// any type.
pub proof fn message_types_have_their_wire_codes(h: FrameHeader, v: u8)
    ensures
        header_bytes(h)[0] == 0x4Du8,
        header_bytes(h)[1] == 0x52u8,
        header_bytes(h)[2] == h.version,
        header_bytes(h)[3] == h.flags.0,
        h.message_type == MessageType::Request ==> header_bytes(h)[4] == 0x01u8,
        h.message_type == MessageType::Response ==> header_bytes(h)[4] == 0x02u8,
        h.message_type == MessageType::Error ==> header_bytes(h)[4] == 0x03u8,
        h.message_type == MessageType::Ping ==> header_bytes(h)[4] == 0x04u8,
        h.message_type == MessageType::Pong ==> header_bytes(h)[4] == 0x05u8,
        h.message_type == MessageType::Cancel ==> header_bytes(h)[4] == 0x06u8,
        v == 0x01 ==> message_type_of_code(v) == Some(MessageType::Request),
        v == 0x02 ==> message_type_of_code(v) == Some(MessageType::Response),
        v == 0x03 ==> message_type_of_code(v) == Some(MessageType::Error),
        v == 0x04 ==> message_type_of_code(v) == Some(MessageType::Ping),
        v == 0x05 ==> message_type_of_code(v) == Some(MessageType::Pong),
        v == 0x06 ==> message_type_of_code(v) == Some(MessageType::Cancel),
        (v == 0 || v > 6) ==> message_type_of_code(v) is None,
{
    lemma_header_bytes_len(h);
}

} // verus!
