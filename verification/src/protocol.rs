//! Wire protocol: the frame format of Mill-RPC.
//!
//! ```text
//! +--------+--------+-------+--------+-----------+---------+
//! | Magic  | Version| Flags | MsgType| PayloadLen| Payload |
//! | 2B     | 1B     | 1B    | 1B     | 4B (LE)   | N bytes |
//! +--------+--------+-------+--------+-----------+---------+
//! ```
//!
//! Request payload:
//! ```text
//! +------------+-----------+-----------+---------+
//! | RequestID  | ServiceID | MethodID  | Args    |
//! | 8B (LE)    | 2B (LE)   | 2B (LE)   | N bytes |
//! +------------+-----------+-----------+---------+
//! ```
use vstd::prelude::*;
use vstd::bytes::*;
use crate::error::{RpcError, RpcStatus};
use crate::text::{decimal, hex2, push_decimal, push_hex2, string_of};

verus! {

/// Magic bytes identifying Mill-RPC frames ("MR").
pub const MAGIC: [u8; 2] = [0x4D, 0x52];

/// First magic byte.
pub const MAGIC_0: u8 = 0x4D;

/// Second magic byte.
pub const MAGIC_1: u8 = 0x52;

/// Current protocol version.
pub const VERSION: u8 = 1;

/// Header size in bytes (magic:2 + version:1 + flags:1 + msg_type:1 + payload_len:4 = 9).
pub const HEADER_SIZE: usize = 9;

/// Maximum payload size (16 MB).
pub const MAX_PAYLOAD_SIZE: u32 = 16777216;

/// Message types in the wire protocol.
#[derive(Debug, Clone, Copy, PartialEq, Eq, Structural)]
pub enum MessageType {
    Request,
    Response,
    Error,
    Ping,
    Pong,
    Cancel,
}

/// The wire byte of a message type.
pub open spec fn message_type_code(t: MessageType) -> u8 {
    match t {
        MessageType::Request => 1,
        MessageType::Response => 2,
        MessageType::Error => 3,
        MessageType::Ping => 4,
        MessageType::Pong => 5,
        MessageType::Cancel => 6,
    }
}

/// The message type that a wire byte names, if any.
pub open spec fn message_type_of_code(v: u8) -> Option<MessageType> {
    if v == 1 {
        Some(MessageType::Request)
    } else if v == 2 {
        Some(MessageType::Response)
    } else if v == 3 {
        Some(MessageType::Error)
    } else if v == 4 {
        Some(MessageType::Ping)
    } else if v == 5 {
        Some(MessageType::Pong)
    } else if v == 6 {
        Some(MessageType::Cancel)
    } else {
        None
    }
}

/// The message of the error for an unknown message type byte.
pub open spec fn unknown_type_message(v: u8) -> Seq<char> {
    "Unknown message type: 0x"@ + hex2(v)
}

impl MessageType {
    /// The wire byte of this message type.
    pub fn to_u8(self) -> (r: u8)
        ensures
            r == message_type_code(self),
            self == MessageType::Request ==> r == 0x01,
            self == MessageType::Response ==> r == 0x02,
            self == MessageType::Error ==> r == 0x03,
            self == MessageType::Ping ==> r == 0x04,
            self == MessageType::Pong ==> r == 0x05,
            self == MessageType::Cancel ==> r == 0x06,
    {
        match self {
            MessageType::Request => 1,
            MessageType::Response => 2,
            MessageType::Error => 3,
            MessageType::Ping => 4,
            MessageType::Pong => 5,
            MessageType::Cancel => 6,
        }
    }

    pub fn from_u8(v: u8) -> (r: Result<MessageType, RpcError>)
        ensures
            v == 0x01 ==> r == Ok::<MessageType, RpcError>(MessageType::Request),
            v == 0x02 ==> r == Ok::<MessageType, RpcError>(MessageType::Response),
            v == 0x03 ==> r == Ok::<MessageType, RpcError>(MessageType::Error),
            v == 0x04 ==> r == Ok::<MessageType, RpcError>(MessageType::Ping),
            v == 0x05 ==> r == Ok::<MessageType, RpcError>(MessageType::Pong),
            v == 0x06 ==> r == Ok::<MessageType, RpcError>(MessageType::Cancel),
            (v == 0 || v > 6) ==> (r is Err),
            match r {
                Ok(t) => message_type_of_code(v) == Some(t),
                Err(e) => message_type_of_code(v) is None && e@ == (
                    RpcStatus::InvalidArgument,
                    unknown_type_message(v),
                ),
            },
    {
        if v == 1 {
            Ok(MessageType::Request)
        } else if v == 2 {
            Ok(MessageType::Response)
        } else if v == 3 {
            Ok(MessageType::Error)
        } else if v == 4 {
            Ok(MessageType::Ping)
        } else if v == 5 {
            Ok(MessageType::Pong)
        } else if v == 6 {
            Ok(MessageType::Cancel)
        } else {
            let mut message = string_of("Unknown message type: 0x");
            push_hex2(&mut message, v);
            Err(RpcError { status: RpcStatus::InvalidArgument, message })
        }
    }
}

/// Bit flags for frame options.
#[derive(Debug, Clone, Copy, PartialEq, Eq, Structural)]
pub struct Flags(pub u8);

impl Flags {
    /// No option set.
    pub fn none() -> (r: Flags)
        ensures
            r == Flags(0),
    {
        Flags(0)
    }

    /// The payload is compressed.
    pub fn compressed() -> (r: Flags)
        ensures
            r == Flags(1),
    {
        Flags(1)
    }

    /// No response is expected.
    pub fn one_way() -> (r: Flags)
        ensures
            r == Flags(2),
    {
        Flags(2)
    }

    pub fn is_one_way(self) -> (r: bool)
        ensures
            r == (self.0 & 2u8 != 0),
    {
        self.0 & 2 != 0
    }

    pub fn is_compressed(self) -> (r: bool)
        ensures
            r == (self.0 & 1u8 != 0),
    {
        self.0 & 1 != 0
    }
}

/// Parsed frame header.
#[derive(Debug, Clone, Copy)]
pub struct FrameHeader {
    pub version: u8,
    pub flags: Flags,
    pub message_type: MessageType,
    pub payload_len: u32,
}

/// The nine bytes that encode a header.
pub open spec fn header_bytes(h: FrameHeader) -> Seq<u8> {
    seq![MAGIC_0, MAGIC_1, h.version, h.flags.0, message_type_code(h.message_type)]
        + spec_u32_to_le_bytes(h.payload_len)
}

/// A header that the decoder accepts: the current version and a payload within bounds.
pub open spec fn header_is_valid(h: FrameHeader) -> bool {
    h.version == VERSION && h.payload_len <= MAX_PAYLOAD_SIZE
}

/// The message of the error for a header with wrong magic bytes.
pub open spec fn invalid_magic_message(b0: u8, b1: u8) -> Seq<char> {
    "Invalid magic: [0x"@ + hex2(b0) + ", 0x"@ + hex2(b1) + "]"@
}

/// The message of the error for a header of another protocol version.
pub open spec fn unsupported_version_message(v: u8) -> Seq<char> {
    "Unsupported version: "@ + decimal(v as nat)
}

/// The message of the error for a header announcing too large a payload.
pub open spec fn payload_too_large_message(len: u32) -> Seq<char> {
    "Payload too large: "@ + decimal(len as nat) + " > "@ + decimal(MAX_PAYLOAD_SIZE as nat)
}

/// What decoding nine header bytes gives: the header, or the status and message of the error.
pub open spec fn decode_header(b: Seq<u8>) -> Result<FrameHeader, (RpcStatus, Seq<char>)>
    recommends
        b.len() == HEADER_SIZE,
{
    if b[0] != MAGIC_0 || b[1] != MAGIC_1 {
        Err((RpcStatus::InvalidArgument, invalid_magic_message(b[0], b[1])))
    } else if b[2] != VERSION {
        Err((RpcStatus::InvalidArgument, unsupported_version_message(b[2])))
    } else {
        match message_type_of_code(b[4]) {
            None => Err((RpcStatus::InvalidArgument, unknown_type_message(b[4]))),
            Some(t) => {
                let len = spec_u32_from_le_bytes(b.subrange(5, 9));
                if len > MAX_PAYLOAD_SIZE {
                    Err((RpcStatus::InvalidArgument, payload_too_large_message(len)))
                } else {
                    Ok(FrameHeader { version: b[2], flags: Flags(b[3]), message_type: t, payload_len: len })
                }
            },
        }
    }
}

/// The view of a decoding result.
pub open spec fn header_result_view(r: Result<FrameHeader, RpcError>) -> Result<
    FrameHeader,
    (RpcStatus, Seq<char>),
> {
    match r {
        Ok(h) => Ok(h),
        Err(e) => Err(e@),
    }
}

impl FrameHeader {
    /// Encode the header into a 9-byte array.
    pub fn encode(&self) -> (r: [u8; HEADER_SIZE])
        ensures
            r@ == header_bytes(*self),
    {
        let len = u32_to_le_bytes(self.payload_len);
        let r = [
            MAGIC_0,
            MAGIC_1,
            self.version,
            self.flags.0,
            self.message_type.to_u8(),
            len[0],
            len[1],
            len[2],
            len[3],
        ];
        assert(r@ =~= header_bytes(*self));
        r
    }

    /// Decode a header from a 9-byte array.
    pub fn decode(buf: &[u8; HEADER_SIZE]) -> (r: Result<FrameHeader, RpcError>)
        ensures
            header_result_view(r) == decode_header(buf@),
    {
        if buf[0] != MAGIC_0 || buf[1] != MAGIC_1 {
            let mut message = string_of("Invalid magic: [0x");
            push_hex2(&mut message, buf[0]);
            message.append(", 0x");
            push_hex2(&mut message, buf[1]);
            message.append("]");
            return Err(RpcError { status: RpcStatus::InvalidArgument, message });
        }
        let version = buf[2];
        if version != VERSION {
            let mut message = string_of("Unsupported version: ");
            push_decimal(&mut message, version as u64);
            return Err(RpcError { status: RpcStatus::InvalidArgument, message });
        }
        let flags = Flags(buf[3]);
        let message_type = match MessageType::from_u8(buf[4]) {
            Ok(t) => t,
            Err(e) => return Err(e),
        };
        let slice = buf.as_slice();
        let len_bytes = &slice[5..9];
        let payload_len = u32_from_le_bytes(len_bytes);
        assert(len_bytes@ == buf@.subrange(5, 9));
        if payload_len > MAX_PAYLOAD_SIZE {
            let mut message = string_of("Payload too large: ");
            push_decimal(&mut message, payload_len as u64);
            message.append(" > ");
            push_decimal(&mut message, MAX_PAYLOAD_SIZE as u64);
            return Err(RpcError { status: RpcStatus::InvalidArgument, message });
        }
        Ok(FrameHeader { version, flags, message_type, payload_len })
    }
}


/// A complete frame (header + payload).
#[derive(Debug, Clone)]
pub struct Frame {
    pub header: FrameHeader,
    pub payload: Vec<u8>,
}

impl View for Frame {
    type V = (FrameHeader, Seq<u8>);

    open spec fn view(&self) -> (FrameHeader, Seq<u8>) {
        (self.header, self.payload@)
    }
}

/// The header of a frame of the given type, flags and payload.
pub open spec fn header_for(t: MessageType, flags: Flags, payload: Seq<u8>) -> FrameHeader {
    FrameHeader { version: VERSION, flags, message_type: t, payload_len: payload.len() as u32 }
}

/// The payload of a request: request id, service id, method id, then the arguments.
pub open spec fn request_payload(request_id: u64, service_id: u16, method_id: u16, args: Seq<u8>) -> Seq<u8> {
    spec_u64_to_le_bytes(request_id) + spec_u16_to_le_bytes(service_id) + spec_u16_to_le_bytes(method_id) + args
}

/// The payload of a response or error frame: request id, then the data.
pub open spec fn reply_payload(request_id: u64, data: Seq<u8>) -> Seq<u8> {
    spec_u64_to_le_bytes(request_id) + data
}

/// The view of a response or error frame answering `request_id` with `data`.
pub open spec fn reply_frame(t: MessageType, request_id: u64, data: Seq<u8>) -> (FrameHeader, Seq<u8>) {
    (header_for(t, Flags(0), reply_payload(request_id, data)), reply_payload(request_id, data))
}

/// The bytes of a frame: its header, then its payload.
pub open spec fn frame_bytes(f: (FrameHeader, Seq<u8>)) -> Seq<u8> {
    header_bytes(f.0) + f.1
}

/// A frame that the parser gives back unchanged: a valid header that announces
/// the length of the payload it carries.
pub open spec fn frame_is_well_formed(f: (FrameHeader, Seq<u8>)) -> bool {
    header_is_valid(f.0) && f.0.payload_len == f.1.len()
}

/// Appends the bytes of `src` to `dst`.
pub(crate) fn append_slice(dst: &mut Vec<u8>, src: &[u8])
    ensures
        final(dst)@ == old(dst)@ + src@,
{
    let mut i: usize = 0;
    while i < src.len()
        invariant
            i <= src@.len(),
            dst@ == old(dst)@ + src@.subrange(0, i as int),
        decreases src@.len() - i,
    {
        dst.push(src[i]);
        i = i + 1;
        assert(dst@ =~= old(dst)@ + src@.subrange(0, i as int));
    }
    assert(src@.subrange(0, src@.len() as int) =~= src@);
}

impl Frame {
    /// Create a new request frame.
    pub fn request(request_id: u64, service_id: u16, method_id: u16, args: Vec<u8>, one_way: bool) -> (f: Frame)
        ensures
            f.payload@ == request_payload(request_id, service_id, method_id, args@),
            f.header == header_for(
                MessageType::Request,
                if one_way { Flags(2) } else { Flags(0) },
                f.payload@,
            ),
    {
        let mut args = args;
        let mut payload = u64_to_le_bytes(request_id);
        let mut sid = u16_to_le_bytes(service_id);
        let mut mid = u16_to_le_bytes(method_id);
        payload.append(&mut sid);
        payload.append(&mut mid);
        payload.append(&mut args);
        let flags = if one_way { Flags::one_way() } else { Flags::none() };
        let payload_len = payload.len() as u32;
        Frame {
            header: FrameHeader { version: VERSION, flags, message_type: MessageType::Request, payload_len },
            payload,
        }
    }

    /// Create a response frame.
    pub fn response(request_id: u64, data: Vec<u8>) -> (f: Frame)
        ensures
            f.payload@ == reply_payload(request_id, data@),
            f.header == header_for(MessageType::Response, Flags(0), f.payload@),
    {
        let mut data = data;
        let mut payload = u64_to_le_bytes(request_id);
        payload.append(&mut data);
        let payload_len = payload.len() as u32;
        Frame {
            header: FrameHeader {
                version: VERSION,
                flags: Flags::none(),
                message_type: MessageType::Response,
                payload_len,
            },
            payload,
        }
    }

    /// Create an error frame.
    pub fn error(request_id: u64, error_data: Vec<u8>) -> (f: Frame)
        ensures
            f.payload@ == reply_payload(request_id, error_data@),
            f.header == header_for(MessageType::Error, Flags(0), f.payload@),
    {
        let mut error_data = error_data;
        let mut payload = u64_to_le_bytes(request_id);
        payload.append(&mut error_data);
        let payload_len = payload.len() as u32;
        Frame {
            header: FrameHeader {
                version: VERSION,
                flags: Flags::none(),
                message_type: MessageType::Error,
                payload_len,
            },
            payload,
        }
    }

    /// Create a ping frame.
    pub fn ping() -> (f: Frame)
        ensures
            f.payload@ == Seq::<u8>::empty(),
            f.header == header_for(MessageType::Ping, Flags(0), Seq::<u8>::empty()),
    {
        Frame {
            header: FrameHeader {
                version: VERSION,
                flags: Flags::none(),
                message_type: MessageType::Ping,
                payload_len: 0,
            },
            payload: Vec::new(),
        }
    }

    /// Create a pong frame.
    pub fn pong() -> (f: Frame)
        ensures
            f.payload@ == Seq::<u8>::empty(),
            f.header == header_for(MessageType::Pong, Flags(0), Seq::<u8>::empty()),
    {
        Frame {
            header: FrameHeader {
                version: VERSION,
                flags: Flags::none(),
                message_type: MessageType::Pong,
                payload_len: 0,
            },
            payload: Vec::new(),
        }
    }

    /// Encode the full frame to bytes.
    pub fn encode(&self) -> (r: Vec<u8>)
        ensures
            r@ == frame_bytes(self@),
    {
        let header = self.header.encode();
        let mut buf: Vec<u8> = Vec::new();
        append_slice(&mut buf, header.as_slice());
        append_slice(&mut buf, self.payload.as_slice());
        assert(buf@ =~= frame_bytes(self@));
        buf
    }

    /// Parse request payload fields (request_id, service_id, method_id, args).
    pub fn parse_request_payload(&self) -> (r: Result<(u64, u16, u16, &[u8]), RpcError>)
        ensures
            match r {
                Ok((request_id, service_id, method_id, args)) => {
                    &&& self.payload@.len() >= 12
                    &&& request_id == spec_u64_from_le_bytes(self.payload@.subrange(0, 8))
                    &&& service_id == spec_u16_from_le_bytes(self.payload@.subrange(8, 10))
                    &&& method_id == spec_u16_from_le_bytes(self.payload@.subrange(10, 12))
                    &&& args@ == self.payload@.subrange(12, self.payload@.len() as int)
                },
                Err(e) => self.payload@.len() < 12 && e@ == (
                    RpcStatus::InvalidArgument,
                    "Request payload too short"@,
                ),
            },
    {
        let p = self.payload.as_slice();
        if p.len() < 12 {
            return Err(RpcError::invalid_argument("Request payload too short"));
        }
        let request_id = u64_from_le_bytes(&p[0..8]);
        let service_id = u16_from_le_bytes(&p[8..10]);
        let method_id = u16_from_le_bytes(&p[10..12]);
        let args = &p[12..p.len()];
        Ok((request_id, service_id, method_id, args))
    }

    /// Parse response payload fields (request_id, data).
    pub fn parse_response_payload(&self) -> (r: Result<(u64, &[u8]), RpcError>)
        ensures
            match r {
                Ok((request_id, data)) => {
                    &&& self.payload@.len() >= 8
                    &&& request_id == spec_u64_from_le_bytes(self.payload@.subrange(0, 8))
                    &&& data@ == self.payload@.subrange(8, self.payload@.len() as int)
                },
                Err(e) => self.payload@.len() < 8 && e@ == (
                    RpcStatus::InvalidArgument,
                    "Response payload too short"@,
                ),
            },
    {
        let p = self.payload.as_slice();
        if p.len() < 8 {
            return Err(RpcError::invalid_argument("Response payload too short"));
        }
        let request_id = u64_from_le_bytes(&p[0..8]);
        let data = &p[8..p.len()];
        Ok((request_id, data))
    }
}


/// The outcome of parsing a byte stream: the complete frames found at its
/// start and the number of bytes they take, or the error of the first bad header.
pub type ParseOutcome = Result<(Seq<(FrameHeader, Seq<u8>)>, nat), (RpcStatus, Seq<char>)>;

/// What parsing `buf` gives: complete frames are taken from the front until fewer
/// bytes than a header remain or the next frame is incomplete; a header that does
/// not decode makes the whole parse fail.
pub open spec fn parse_stream(buf: Seq<u8>) -> ParseOutcome
    decreases buf.len(),
{
    if buf.len() < HEADER_SIZE {
        Ok((Seq::empty(), 0))
    } else {
        match decode_header(buf.subrange(0, HEADER_SIZE as int)) {
            Err(e) => Err(e),
            Ok(h) => {
                let total = HEADER_SIZE + h.payload_len;
                if total > buf.len() {
                    Ok((Seq::empty(), 0))
                } else {
                    match parse_stream(buf.subrange(total as int, buf.len() as int)) {
                        Err(e) => Err(e),
                        Ok((rest, n)) => Ok((
                            seq![(h, buf.subrange(HEADER_SIZE as int, total as int))] + rest,
                            (total + n) as nat,
                        )),
                    }
                }
            },
        }
    }
}

/// The outcome of a parse after `frames` taking `offset` bytes were already taken off the front.
pub open spec fn after_prefix(frames: Seq<(FrameHeader, Seq<u8>)>, offset: nat, rest: ParseOutcome) -> ParseOutcome {
    match rest {
        Err(e) => Err(e),
        Ok((fs, n)) => Ok((frames + fs, offset + n)),
    }
}

/// The views of a sequence of frames.
pub open spec fn frames_view(v: Seq<Frame>) -> Seq<(FrameHeader, Seq<u8>)> {
    v.map_values(|f: Frame| f@)
}

/// The view of the result of `parse_frames`.
pub open spec fn parse_result_view(r: Result<(Vec<Frame>, usize), RpcError>) -> ParseOutcome {
    match r {
        Ok((frames, consumed)) => Ok((frames_view(frames@), consumed as nat)),
        Err(e) => Err(e@),
    }
}

/// Reads frames from a byte buffer. Returns parsed frames and the number of bytes consumed.
///
/// This is a streaming parser: it handles partial frames by returning only
/// complete frames and leaving remaining bytes unconsumed.
pub fn parse_frames(buf: &[u8]) -> (r: Result<(Vec<Frame>, usize), RpcError>)
    ensures
        parse_result_view(r) == parse_stream(buf@),
{
    let mut frames: Vec<Frame> = Vec::new();
    let mut offset: usize = 0;
    let len = buf.len();
    assert(buf@.subrange(0, len as int) =~= buf@);
    while len - offset >= HEADER_SIZE
        invariant
            len == buf@.len(),
            offset <= len,
            parse_stream(buf@) == after_prefix(
                frames_view(frames@),
                offset as nat,
                parse_stream(buf@.subrange(offset as int, len as int)),
            ),
        ensures
            offset <= len,
            parse_stream(buf@) == after_prefix(
                frames_view(frames@),
                offset as nat,
                parse_stream(buf@.subrange(offset as int, len as int)),
            ),
            parse_stream(buf@.subrange(offset as int, len as int)) == Ok::<_, (RpcStatus, Seq<char>)>((Seq::<(FrameHeader, Seq<u8>)>::empty(), 0nat)),
        decreases len - offset,
    {
        let ghost rest = buf@.subrange(offset as int, len as int);
        let header_slice = &buf[offset..offset + HEADER_SIZE];
        let header_bytes: [u8; HEADER_SIZE] = [
            header_slice[0],
            header_slice[1],
            header_slice[2],
            header_slice[3],
            header_slice[4],
            header_slice[5],
            header_slice[6],
            header_slice[7],
            header_slice[8],
        ];
        assert(header_bytes@ =~= rest.subrange(0, HEADER_SIZE as int));
        let header = match FrameHeader::decode(&header_bytes) {
            Ok(h) => h,
            Err(e) => {
                return Err(e);
            },
        };
        let total_frame_size = HEADER_SIZE + header.payload_len as usize;
        if total_frame_size > len - offset {
            break;
        }
        let payload_slice = &buf[offset + HEADER_SIZE..offset + total_frame_size];
        let mut payload: Vec<u8> = Vec::new();
        append_slice(&mut payload, payload_slice);
        assert(payload@ =~= rest.subrange(HEADER_SIZE as int, total_frame_size as int));
        let ghost before = frames_view(frames@);
        frames.push(Frame { header, payload });
        assert(frames_view(frames@) =~= before + seq![(header, payload@)]);
        assert(rest.subrange(total_frame_size as int, rest.len() as int)
            =~= buf@.subrange(offset + total_frame_size, len as int));
        proof {
            let new_rest = buf@.subrange(offset + total_frame_size, len as int);
            let x = (header, payload@);
            assert(parse_stream(rest) == after_prefix(seq![x], total_frame_size as nat, parse_stream(new_rest)));
            match parse_stream(new_rest) {
                Ok((fs, n)) => {
                    assert(before + (seq![x] + fs) =~= frames_view(frames@) + fs);
                },
                Err(e) => {},
            }
        }
        offset = offset + total_frame_size;
    }
    assert(frames_view(frames@) + Seq::<(FrameHeader, Seq<u8>)>::empty() =~= frames_view(frames@));
    Ok((frames, offset))
}

} // verus!
