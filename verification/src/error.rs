//! Status codes and the structured error of the RPC layer.
use vstd::prelude::*;
use vstd::string::*;
use crate::text::{decimal, push_decimal, string_of};

verus! {

/// RPC status codes (after gRPC's).
#[derive(Debug, Clone, Copy, PartialEq, Eq, Structural)]
pub enum RpcStatus {
    Success,
    Cancelled,
    InvalidArgument,
    NotFound,
    AlreadyExists,
    PermissionDenied,
    Unauthenticated,
    ResourceExhausted,
    Internal,
    Unavailable,
    DeadlineExceeded,
}

impl RpcStatus {
    /// The display name of a status.
    pub open spec fn spec_name(self) -> Seq<char> {
        match self {
            RpcStatus::Success => "OK"@,
            RpcStatus::Cancelled => "CANCELLED"@,
            RpcStatus::InvalidArgument => "INVALID_ARGUMENT"@,
            RpcStatus::NotFound => "NOT_FOUND"@,
            RpcStatus::AlreadyExists => "ALREADY_EXISTS"@,
            RpcStatus::PermissionDenied => "PERMISSION_DENIED"@,
            RpcStatus::Unauthenticated => "UNAUTHENTICATED"@,
            RpcStatus::ResourceExhausted => "RESOURCE_EXHAUSTED"@,
            RpcStatus::Internal => "INTERNAL"@,
            RpcStatus::Unavailable => "UNAVAILABLE"@,
            RpcStatus::DeadlineExceeded => "DEADLINE_EXCEEDED"@,
        }
    }

    /// The display name of this status, such as `NOT_FOUND`.
    pub fn as_str(&self) -> (r: &'static str)
        ensures
            r@ == self.spec_name(),
    {
        match self {
            RpcStatus::Success => "OK",
            RpcStatus::Cancelled => "CANCELLED",
            RpcStatus::InvalidArgument => "INVALID_ARGUMENT",
            RpcStatus::NotFound => "NOT_FOUND",
            RpcStatus::AlreadyExists => "ALREADY_EXISTS",
            RpcStatus::PermissionDenied => "PERMISSION_DENIED",
            RpcStatus::Unauthenticated => "UNAUTHENTICATED",
            RpcStatus::ResourceExhausted => "RESOURCE_EXHAUSTED",
            RpcStatus::Internal => "INTERNAL",
            RpcStatus::Unavailable => "UNAVAILABLE",
            RpcStatus::DeadlineExceeded => "DEADLINE_EXCEEDED",
        }
    }
}

/// Structured RPC error with status code and message.
#[derive(Debug, Clone)]
pub struct RpcError {
    pub status: RpcStatus,
    pub message: String,
}

impl View for RpcError {
    type V = (RpcStatus, Seq<char>);

    open spec fn view(&self) -> (RpcStatus, Seq<char>) {
        (self.status, self.message@)
    }
}

/// The message of the error for an unknown method.
pub open spec fn method_not_found_message(method_id: u16) -> Seq<char> {
    "Method not found: "@ + decimal(method_id as nat)
}

/// The message of the error for an unknown service.
pub open spec fn service_not_found_message(service_id: u16) -> Seq<char> {
    "Service not found: "@ + decimal(service_id as nat)
}

impl RpcError {
    pub fn new(status: RpcStatus, message: &str) -> (r: RpcError)
        ensures
            r@ == (status, message@),
    {
        RpcError { status, message: string_of(message) }
    }

    pub fn internal(message: &str) -> (r: RpcError)
        ensures
            r@ == (RpcStatus::Internal, message@),
    {
        Self::new(RpcStatus::Internal, message)
    }

    pub fn invalid_argument(message: &str) -> (r: RpcError)
        ensures
            r@ == (RpcStatus::InvalidArgument, message@),
    {
        Self::new(RpcStatus::InvalidArgument, message)
    }

    pub fn not_found(message: &str) -> (r: RpcError)
        ensures
            r@ == (RpcStatus::NotFound, message@),
    {
        Self::new(RpcStatus::NotFound, message)
    }

    pub fn method_not_found(method_id: u16) -> (r: RpcError)
        ensures
            r@ == (RpcStatus::NotFound, method_not_found_message(method_id)),
    {
        let mut message = string_of("Method not found: ");
        push_decimal(&mut message, method_id as u64);
        RpcError { status: RpcStatus::NotFound, message }
    }

    pub fn service_not_found(service_id: u16) -> (r: RpcError)
        ensures
            r@ == (RpcStatus::NotFound, service_not_found_message(service_id)),
    {
        let mut message = string_of("Service not found: ");
        push_decimal(&mut message, service_id as u64);
        RpcError { status: RpcStatus::NotFound, message }
    }

    pub fn codec_error(message: &str) -> (r: RpcError)
        ensures
            r@ == (RpcStatus::Internal, message@),
    {
        Self::new(RpcStatus::Internal, message)
    }

    pub fn unavailable(message: &str) -> (r: RpcError)
        ensures
            r@ == (RpcStatus::Unavailable, message@),
    {
        Self::new(RpcStatus::Unavailable, message)
    }

    pub fn deadline_exceeded(message: &str) -> (r: RpcError)
        ensures
            r@ == (RpcStatus::DeadlineExceeded, message@),
    {
        Self::new(RpcStatus::DeadlineExceeded, message)
    }

    /// The display text `[STATUS] message`.
    pub fn to_string(&self) -> (r: String)
        ensures
            r@ == "["@ + self.status.spec_name() + "] "@ + self.message@,
    {
        let mut s = string_of("[");
        s.append(self.status.as_str());
        s.append("] ");
        s.append(self.message.as_str());
        s
    }
}

} // verus!
