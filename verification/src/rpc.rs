//! The decisions of the RPC server and client: reassembling frames from the
//! bytes a connection delivers, what to do with each frame, which reply a
//! request gets, and the table of calls waiting for their replies.
//!
//! The sockets, the dispatch to service implementations, the (de)serialising
//! of errors and the waiting on a condition variable live with the caller.
use std::collections::HashMap;
use vstd::prelude::*;
use crate::error::{service_not_found_message, RpcError, RpcStatus};
use crate::protocol::{
    append_slice, frames_view, parse_frames, parse_stream, reply_frame, Frame, FrameHeader, MessageType,
};

verus! {

broadcast use vstd::std_specs::hash::group_hash_axioms;

/// Client-side RPC transport: sends a request and waits for the response,
/// returning the raw response payload.
pub trait RpcTransport: Send + Sync + 'static {
    fn call(&self, service_id: u16, method_id: u16, payload: Vec<u8>) -> Result<Vec<u8>, RpcError>;
}

/// The bytes received on a connection that do not yet form a complete frame.
pub struct FrameBuffer {
    buf: Vec<u8>,
}

impl View for FrameBuffer {
    type V = Seq<u8>;

    closed spec fn view(&self) -> Seq<u8> {
        self.buf@
    }
}

impl FrameBuffer {
    pub fn new() -> (b: FrameBuffer)
        ensures
            b@ == Seq::<u8>::empty(),
    {
        FrameBuffer { buf: Vec::new() }
    }

    /// Number of buffered bytes.
    pub fn len(&self) -> (r: usize)
        ensures
            r == self@.len(),
    {
        self.buf.len()
    }

    /// Append incoming data and take off every complete frame. What is left
    /// of an incomplete frame stays buffered. A header that does not decode
    /// means the stream is corrupt: the buffer is cleared and the error returned.
    pub fn feed(&mut self, data: &[u8]) -> (r: Result<Vec<Frame>, RpcError>)
        ensures
            match parse_stream(old(self)@ + data@) {
                Ok((fs, n)) => {
                    &&& r is Ok
                    &&& frames_view(r->Ok_0@) == fs
                    &&& final(self)@ == (old(self)@ + data@).subrange(n as int, (old(self)@ + data@).len() as int)
                },
                Err(e) => {
                    &&& r is Err
                    &&& r->Err_0@ == e
                    &&& final(self)@ == Seq::<u8>::empty()
                },
            },
    {
        append_slice(&mut self.buf, data);
        match parse_frames(self.buf.as_slice()) {
            Ok((frames, consumed)) => {
                proof {
                    crate::protocol_laws::consumed_bytes_are_the_frames(self.buf@);
                }
                let mut rest: Vec<u8> = Vec::new();
                let all = self.buf.as_slice();
                append_slice(&mut rest, &all[consumed..all.len()]);
                self.buf = rest;
                Ok(frames)
            },
            Err(e) => {
                self.buf = Vec::new();
                Err(e)
            },
        }
    }
}

/// What the server does with a frame.
pub enum ServerAction {
    /// Dispatch a request to its service.
    Dispatch { request_id: u64, service_id: u16, method_id: u16, args: Vec<u8>, one_way: bool },
    /// Send this frame back (a pong for a ping).
    Reply(Frame),
    /// A cancel request: not supported yet, nothing is done.
    IgnoreCancel,
    /// A frame of a type that a server does not expect.
    Unexpected(MessageType),
    /// A request whose payload does not parse.
    Malformed(RpcError),
}

/// What the client does with a frame.
pub enum ClientEvent {
    /// The reply data of a request.
    Reply(u64, Vec<u8>),
    /// The encoded error that a request failed with.
    Failure(u64, Vec<u8>),
    /// A pong from the server.
    Pong,
    /// A frame of a type that a client does not expect.
    Unexpected(MessageType),
    /// A reply whose payload does not parse.
    Malformed(RpcError),
}

/// The request id of a reply payload, and the data after it.
pub open spec fn reply_parts(payload: Seq<u8>) -> (u64, Seq<u8>) {
    (
        vstd::bytes::spec_u64_from_le_bytes(payload.subrange(0, 8)),
        payload.subrange(8, payload.len() as int),
    )
}

/// A copy of a byte slice.
fn to_vec(s: &[u8]) -> (v: Vec<u8>)
    ensures
        v@ == s@,
{
    let mut v: Vec<u8> = Vec::new();
    append_slice(&mut v, s);
    v
}

/// Decide what the server does with a frame: requests are dispatched (or
/// rejected when their payload is too short), pings are answered with a pong,
/// cancels are ignored, anything else is unexpected.
pub fn server_action(frame: &Frame) -> (a: ServerAction)
    ensures
        match frame.header.message_type {
            MessageType::Request => if frame.payload@.len() >= 12 {
                a matches ServerAction::Dispatch { request_id, service_id, method_id, args, one_way } && {
                    &&& request_id == vstd::bytes::spec_u64_from_le_bytes(frame.payload@.subrange(0, 8))
                    &&& service_id == vstd::bytes::spec_u16_from_le_bytes(frame.payload@.subrange(8, 10))
                    &&& method_id == vstd::bytes::spec_u16_from_le_bytes(frame.payload@.subrange(10, 12))
                    &&& args@ == frame.payload@.subrange(12, frame.payload@.len() as int)
                    &&& one_way == (frame.header.flags.0 & 2u8 != 0)
                }
            } else {
                a matches ServerAction::Malformed(e) && e@ == (RpcStatus::InvalidArgument, "Request payload too short"@)
            },
            MessageType::Ping => a matches ServerAction::Reply(f) && f@ == (
                FrameHeader {
                    version: crate::protocol::VERSION,
                    flags: crate::protocol::Flags(0),
                    message_type: MessageType::Pong,
                    payload_len: 0,
                },
                Seq::<u8>::empty(),
            ),
            MessageType::Cancel => a is IgnoreCancel,
            t => a == ServerAction::Unexpected(t),
        },
{
    match frame.header.message_type {
        MessageType::Request => match frame.parse_request_payload() {
            Ok((request_id, service_id, method_id, args)) => {
                let one_way = frame.header.flags.is_one_way();
                ServerAction::Dispatch { request_id, service_id, method_id, args: to_vec(args), one_way }
            },
            Err(e) => ServerAction::Malformed(e),
        },
        MessageType::Ping => ServerAction::Reply(Frame::pong()),
        MessageType::Cancel => ServerAction::IgnoreCancel,
        t => ServerAction::Unexpected(t),
    }
}

/// The frame a request gets back: nothing for a one-way call, else a response
/// carrying the result or an error frame carrying the encoded error.
pub fn reply_for(request_id: u64, one_way: bool, outcome: Result<Vec<u8>, Vec<u8>>) -> (r: Option<Frame>)
    ensures
        one_way ==> r is None,
        !one_way ==> (r matches Some(f) && match outcome {
            Ok(data) => f@ == reply_frame(MessageType::Response, request_id, data@),
            Err(err) => f@ == reply_frame(MessageType::Error, request_id, err@),
        }),
{
    if one_way {
        return None;
    }
    match outcome {
        Ok(data) => Some(Frame::response(request_id, data)),
        Err(err) => Some(Frame::error(request_id, err)),
    }
}

/// Decide what the client does with a frame: responses and errors carry the
/// request they answer, pongs are noted, anything else is unexpected.
pub fn client_event(frame: &Frame) -> (ev: ClientEvent)
    ensures
        match frame.header.message_type {
            MessageType::Response => if frame.payload@.len() >= 8 {
                ev matches ClientEvent::Reply(id, data) && (id, data@) == reply_parts(frame.payload@)
            } else {
                ev matches ClientEvent::Malformed(e) && e@ == (RpcStatus::InvalidArgument, "Response payload too short"@)
            },
            MessageType::Error => if frame.payload@.len() >= 8 {
                ev matches ClientEvent::Failure(id, data) && (id, data@) == reply_parts(frame.payload@)
            } else {
                ev matches ClientEvent::Malformed(e) && e@ == (RpcStatus::InvalidArgument, "Response payload too short"@)
            },
            MessageType::Pong => ev is Pong,
            t => ev == ClientEvent::Unexpected(t),
        },
{
    match frame.header.message_type {
        MessageType::Response => match frame.parse_response_payload() {
            Ok((request_id, data)) => ClientEvent::Reply(request_id, to_vec(data)),
            Err(e) => ClientEvent::Malformed(e),
        },
        MessageType::Error => match frame.parse_response_payload() {
            Ok((request_id, data)) => ClientEvent::Failure(request_id, to_vec(data)),
            Err(e) => ClientEvent::Malformed(e),
        },
        MessageType::Pong => ClientEvent::Pong,
        t => ClientEvent::Unexpected(t),
    }
}

/// Where a call stands.
pub enum CallState {
    /// The reply has come: the call is over.
    Done(Result<Vec<u8>, RpcError>),
    /// Still waiting for the reply.
    Waiting,
    /// The call is not in the table (it was never made, or is over).
    Missing,
}

/// The calls that a client made and whose replies it waits for.
pub struct PendingCalls {
    pending: HashMap<u64, Option<Result<Vec<u8>, RpcError>>>,
    next_request_id: u64,
}

impl PendingCalls {
    /// The calls by request id: `None` while waiting, the result once replied.
    pub closed spec fn calls(&self) -> Map<u64, Option<Result<Vec<u8>, RpcError>>> {
        self.pending@
    }

    /// The request id the next call gets.
    pub closed spec fn next_id(&self) -> u64 {
        self.next_request_id
    }

    /// No call has an id that was not handed out yet.
    pub closed spec fn wf(&self) -> bool {
        forall|id: u64| #[trigger] self.pending@.contains_key(id) ==> id < self.next_request_id
    }

    pub fn new() -> (p: PendingCalls)
        ensures
            p.wf(),
            p.calls() == Map::<u64, Option<Result<Vec<u8>, RpcError>>>::empty(),
            p.next_id() == 1,
    {
        PendingCalls { pending: HashMap::new(), next_request_id: 1 }
    }

    /// Register a new call, waiting for its reply, under a fresh request id.
    pub fn begin(&mut self) -> (id: u64)
        requires
            old(self).wf(),
            old(self).next_id() < u64::MAX,
        ensures
            final(self).wf(),
            id == old(self).next_id(),
            !old(self).calls().contains_key(id),
            final(self).next_id() == old(self).next_id() + 1,
            final(self).calls() == old(self).calls().insert(id, None),
    {
        let id = self.next_request_id;
        self.next_request_id = id + 1;
        self.pending.insert(id, None);
        id
    }

    /// Take a request id for a one-way call, which waits for nothing.
    pub fn next_oneway_id(&mut self) -> (id: u64)
        requires
            old(self).wf(),
            old(self).next_id() < u64::MAX,
        ensures
            final(self).wf(),
            id == old(self).next_id(),
            final(self).next_id() == old(self).next_id() + 1,
            final(self).calls() == old(self).calls(),
    {
        let id = self.next_request_id;
        self.next_request_id = id + 1;
        id
    }

    /// Record the result that arrived for a call. Returns whether the call was
    /// in the table; a result for an unknown call is dropped.
    pub fn complete(&mut self, request_id: u64, result: Result<Vec<u8>, RpcError>) -> (known: bool)
        requires
            old(self).wf(),
        ensures
            final(self).wf(),
            known == old(self).calls().contains_key(request_id),
            final(self).calls() == if known {
                old(self).calls().insert(request_id, Some(result))
            } else {
                old(self).calls()
            },
            final(self).next_id() == old(self).next_id(),
    {
        if self.pending.contains_key(&request_id) {
            self.pending.insert(request_id, Some(result));
            true
        } else {
            false
        }
    }

    /// Where a call stands; a call whose reply has come leaves the table.
    pub fn poll(&mut self, request_id: u64) -> (s: CallState)
        requires
            old(self).wf(),
        ensures
            final(self).wf(),
            final(self).next_id() == old(self).next_id(),
            match s {
                CallState::Done(r) => old(self).calls().contains_key(request_id)
                    && old(self).calls()[request_id] == Some(r)
                    && final(self).calls() == old(self).calls().remove(request_id),
                CallState::Waiting => old(self).calls().contains_key(request_id)
                    && old(self).calls()[request_id] is None
                    && final(self).calls() == old(self).calls(),
                CallState::Missing => !old(self).calls().contains_key(request_id)
                    && final(self).calls() == old(self).calls(),
            },
    {
        let waiting = match self.pending.get(&request_id) {
            None => return CallState::Missing,
            Some(entry) => entry.is_none(),
        };
        if waiting {
            return CallState::Waiting;
        }
        match self.pending.remove(&request_id) {
            Some(Some(r)) => CallState::Done(r),
            _ => CallState::Missing,
        }
    }

    /// The request id the next call gets.
    pub fn next_request_id(&self) -> (r: u64)
        ensures
            r == self.next_id(),
    {
        self.next_request_id
    }

    /// Give up on a call whose deadline passed: it leaves the table, and the
    /// caller gets a deadline-exceeded error with this message.
    pub fn time_out(&mut self, request_id: u64, message: &str) -> (e: RpcError)
        requires
            old(self).wf(),
        ensures
            final(self).wf(),
            final(self).calls() == old(self).calls().remove(request_id),
            final(self).next_id() == old(self).next_id(),
            e@ == (RpcStatus::DeadlineExceeded, message@),
    {
        self.abandon(request_id);
        RpcError::deadline_exceeded(message)
    }

    /// Give up on a call (its send failed, or it timed out).
    pub fn abandon(&mut self, request_id: u64)
        requires
            old(self).wf(),
        ensures
            final(self).wf(),
            final(self).calls() == old(self).calls().remove(request_id),
            final(self).next_id() == old(self).next_id(),
    {
        self.pending.remove(&request_id);
    }
}

/// The service each id reaches after registering `regs` in order: of several
/// registrations under one id, the last one counts.
pub open spec fn service_table<S>(regs: Seq<(u16, S)>) -> Map<u16, S>
    decreases regs.len(),
{
    if regs.len() == 0 {
        Map::empty()
    } else {
        service_table(regs.drop_last()).insert(regs.last().0, regs.last().1)
    }
}

/// The services a server is configured with, in the order of registration.
/// Automatic ids count up from 0 in registration order.
pub struct ServiceRegistry<S> {
    services: Vec<(u16, S)>,
    next_service_id: u16,
}

impl<S> ServiceRegistry<S> {
    /// The registrations so far, in order: each an id and its service.
    pub closed spec fn registrations(&self) -> Seq<(u16, S)> {
        self.services@
    }

    /// The id the next automatic registration gets.
    pub closed spec fn next_id(&self) -> u16 {
        self.next_service_id
    }

    pub fn new() -> (r: Self)
        ensures
            r.registrations() == Seq::<(u16, S)>::empty(),
            r.next_id() == 0,
    {
        ServiceRegistry { services: Vec::new(), next_service_id: 0 }
    }

    /// The id the next automatic registration gets.
    pub fn next_automatic_id(&self) -> (r: u16)
        ensures
            r == self.next_id(),
    {
        self.next_service_id
    }

    /// Register a service under the next automatic id, and return that id.
    pub fn service(&mut self, svc: S) -> (id: u16)
        requires
            old(self).next_id() < u16::MAX,
        ensures
            id == old(self).next_id(),
            final(self).next_id() == id + 1,
            final(self).registrations() == old(self).registrations().push((id, svc)),
    {
        let id = self.next_service_id;
        self.next_service_id = id + 1;
        self.services.push((id, svc));
        id
    }

    /// Register a service under an explicit id; the automatic ids go on unchanged.
    pub fn service_with_id(&mut self, id: u16, svc: S)
        ensures
            final(self).next_id() == old(self).next_id(),
            final(self).registrations() == old(self).registrations().push((id, svc)),
    {
        self.services.push((id, svc));
    }

    /// The table by which requests are routed.
    pub fn build(self) -> (t: ServiceTable<S>)
        ensures
            t@ == service_table(self.registrations()),
    {
        let mut table: HashMap<u16, S> = HashMap::new();
        let ghost regs = self.services@;
        for entry in it: self.services.into_iter()
            invariant
                it.seq() == regs,
                table@ == service_table(regs.take(it.index() as int)),
        {
            proof {
                assert(regs.take(it.index() as int + 1).drop_last() =~= regs.take(it.index() as int));
            }
            let (id, svc) = entry;
            table.insert(id, svc);
        }
        proof {
            assert(regs.take(regs.len() as int) =~= regs);
        }
        ServiceTable { services: table }
    }
}

/// The services of a running server, by id.
pub struct ServiceTable<S> {
    services: HashMap<u16, S>,
}

impl<S> View for ServiceTable<S> {
    type V = Map<u16, S>;

    closed spec fn view(&self) -> Map<u16, S> {
        self.services@
    }
}

impl<S> ServiceTable<S> {
    /// The service a request for `service_id` goes to, or the error that an
    /// unknown service is answered with.
    pub fn route(&self, service_id: u16) -> (r: Result<&S, RpcError>)
        ensures
            match r {
                Ok(svc) => self@.contains_key(service_id) && *svc == self@[service_id],
                Err(e) => !self@.contains_key(service_id) && e@ == (
                    RpcStatus::NotFound,
                    service_not_found_message(service_id),
                ),
            },
    {
        match self.services.get(&service_id) {
            Some(svc) => Ok(svc),
            None => Err(RpcError::service_not_found(service_id)),
        }
    }
}

} // verus!
