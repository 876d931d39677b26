//! Verified core of the Mill event loop and of its RPC framework.
//!
//! - [`protocol`]: the binary frame format of the RPC layer, its encoder and
//!   its streaming parser, with their laws in [`protocol_laws`].
//! - [`rpc`]: what the server and the client decide about each frame, the
//!   reassembly of frames from a byte stream, the table of pending calls and
//!   the routing of requests to registered services.
//! - [`error`], [`codec`]: RPC status codes, errors and codec selection.
//! - [`timer_wheel`]: the hierarchical timer wheel of the event loop.
//! - [`compute`]: the priority queue and metrics of the compute pool.
//! - [`service`]: what a service definition decides: the sides it generates,
//!   the parameters it accepts, and the names and ids of what it generates,
//!   with the case conversions of names in [`naming`].
pub mod codec;
pub mod compute;
pub mod error;
pub mod naming;
pub mod protocol;
pub mod protocol_laws;
pub mod rpc;
pub mod service;
pub mod text;
pub mod timer_wheel;

pub use codec::{Codec, CodecType};
pub use compute::{ComputePoolMetrics, ComputeQueue, TaskPriority};
pub use error::{RpcError, RpcStatus};
pub use protocol::{parse_frames, Flags, Frame, FrameHeader, MessageType};
pub use rpc::{FrameBuffer, PendingCalls, RpcTransport};
pub use timer_wheel::{TimerId, TimerWheel};
