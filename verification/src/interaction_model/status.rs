//! Status codes and opcodes of the interaction model.

use vstd::prelude::*;
use crate::error::Error;

verus! {

/// The status codes that a response carries.
#[derive(Debug, PartialEq, Eq, Clone, Copy, Structural)]
pub enum IMStatusCode {
    Sucess,
    Failure,
    InvalidSubscription,
    UnsupportedAccess,
    UnsupportedEndpoint,
    InvalidAction,
    UnsupportedCommand,
    InvalidCommand,
    UnsupportedAttribute,
    ConstraintError,
    UnsupportedWrite,
    ResourceExhausted,
    NotFound,
    UnreportableAttribute,
    InvalidDataType,
    UnsupportedRead,
    DataVersionMismatch,
    Timeout,
    Busy,
    UnsupportedCluster,
    NoUpstreamSubscription,
    NeedsTimedInteraction,
}

impl IMStatusCode {
    /// The number of the status code on the wire.
    pub open spec fn number(self) -> u16 {
        match self {
            IMStatusCode::Sucess => 0,
            IMStatusCode::Failure => 1,
            IMStatusCode::InvalidSubscription => 0x7d,
            IMStatusCode::UnsupportedAccess => 0x7e,
            IMStatusCode::UnsupportedEndpoint => 0x7f,
            IMStatusCode::InvalidAction => 0x80,
            IMStatusCode::UnsupportedCommand => 0x81,
            IMStatusCode::InvalidCommand => 0x85,
            IMStatusCode::UnsupportedAttribute => 0x86,
            IMStatusCode::ConstraintError => 0x87,
            IMStatusCode::UnsupportedWrite => 0x88,
            IMStatusCode::ResourceExhausted => 0x89,
            IMStatusCode::NotFound => 0x8b,
            IMStatusCode::UnreportableAttribute => 0x8c,
            IMStatusCode::InvalidDataType => 0x8d,
            IMStatusCode::UnsupportedRead => 0x8f,
            IMStatusCode::DataVersionMismatch => 0x92,
            IMStatusCode::Timeout => 0x94,
            IMStatusCode::Busy => 0x9c,
            IMStatusCode::UnsupportedCluster => 0xc3,
            IMStatusCode::NoUpstreamSubscription => 0xc5,
            IMStatusCode::NeedsTimedInteraction => 0xc6,
        }
    }

    /// The number of the status code on the wire.
    pub fn to_u16(self) -> (n: u16)
        ensures
            n == self.number(),
    {
        match self {
            IMStatusCode::Sucess => 0,
            IMStatusCode::Failure => 1,
            IMStatusCode::InvalidSubscription => 0x7d,
            IMStatusCode::UnsupportedAccess => 0x7e,
            IMStatusCode::UnsupportedEndpoint => 0x7f,
            IMStatusCode::InvalidAction => 0x80,
            IMStatusCode::UnsupportedCommand => 0x81,
            IMStatusCode::InvalidCommand => 0x85,
            IMStatusCode::UnsupportedAttribute => 0x86,
            IMStatusCode::ConstraintError => 0x87,
            IMStatusCode::UnsupportedWrite => 0x88,
            IMStatusCode::ResourceExhausted => 0x89,
            IMStatusCode::NotFound => 0x8b,
            IMStatusCode::UnreportableAttribute => 0x8c,
            IMStatusCode::InvalidDataType => 0x8d,
            IMStatusCode::UnsupportedRead => 0x8f,
            IMStatusCode::DataVersionMismatch => 0x92,
            IMStatusCode::Timeout => 0x94,
            IMStatusCode::Busy => 0x9c,
            IMStatusCode::UnsupportedCluster => 0xc3,
            IMStatusCode::NoUpstreamSubscription => 0xc5,
            IMStatusCode::NeedsTimedInteraction => 0xc6,
        }
    }
}

/// The status code that an error of the data model is reported as: a
/// missing endpoint, cluster, attribute or command as unsupported, a
/// custom attribute as unsupported, a busy fail-safe as busy, anything
/// else as a failure.
pub open spec fn status_of(e: Error) -> IMStatusCode {
    match e {
        Error::EndpointNotFound => IMStatusCode::UnsupportedEndpoint,
        Error::ClusterNotFound => IMStatusCode::UnsupportedCluster,
        Error::AttributeNotFound => IMStatusCode::UnsupportedAttribute,
        Error::CommandNotFound => IMStatusCode::UnsupportedCommand,
        _ => IMStatusCode::Failure,
    }
}

/// The status code that an error of the data model is reported as.
pub fn status_of_error(e: Error) -> (s: IMStatusCode)
    ensures
        s == status_of(e),
{
    match e {
        Error::EndpointNotFound => IMStatusCode::UnsupportedEndpoint,
        Error::ClusterNotFound => IMStatusCode::UnsupportedCluster,
        Error::AttributeNotFound => IMStatusCode::UnsupportedAttribute,
        Error::CommandNotFound => IMStatusCode::UnsupportedCommand,
        _ => IMStatusCode::Failure,
    }
}

/// The opcodes of the interaction model.
#[derive(Debug, PartialEq, Eq, Clone, Copy, Structural)]
pub enum OpCode {
    Reserved,
    StatusResponse,
    ReadRequest,
    SubscribeRequest,
    SubscriptResponse,
    ReportData,
    WriteRequest,
    WriteResponse,
    InvokeRequest,
    InvokeResponse,
    TimedRequest,
}

impl OpCode {
    /// The number of the opcode on the wire.
    pub open spec fn number(self) -> u8 {
        match self {
            OpCode::Reserved => 0,
            OpCode::StatusResponse => 1,
            OpCode::ReadRequest => 2,
            OpCode::SubscribeRequest => 3,
            OpCode::SubscriptResponse => 4,
            OpCode::ReportData => 5,
            OpCode::WriteRequest => 6,
            OpCode::WriteResponse => 7,
            OpCode::InvokeRequest => 8,
            OpCode::InvokeResponse => 9,
            OpCode::TimedRequest => 10,
        }
    }

    /// The number of the opcode on the wire.
    pub fn to_u8(self) -> (n: u8)
        ensures
            n == self.number(),
    {
        match self {
            OpCode::Reserved => 0,
            OpCode::StatusResponse => 1,
            OpCode::ReadRequest => 2,
            OpCode::SubscribeRequest => 3,
            OpCode::SubscriptResponse => 4,
            OpCode::ReportData => 5,
            OpCode::WriteRequest => 6,
            OpCode::WriteResponse => 7,
            OpCode::InvokeRequest => 8,
            OpCode::InvokeResponse => 9,
            OpCode::TimedRequest => 10,
        }
    }

    /// The opcode with the given number, if there is one.
    pub fn from_u8(n: u8) -> (r: Option<OpCode>)
        ensures
            match r {
                Some(op) => op.number() == n,
                None => n > 10,
            },
    {
        match n {
            0 => Some(OpCode::Reserved),
            1 => Some(OpCode::StatusResponse),
            2 => Some(OpCode::ReadRequest),
            3 => Some(OpCode::SubscribeRequest),
            4 => Some(OpCode::SubscriptResponse),
            5 => Some(OpCode::ReportData),
            6 => Some(OpCode::WriteRequest),
            7 => Some(OpCode::WriteResponse),
            8 => Some(OpCode::InvokeRequest),
            9 => Some(OpCode::InvokeResponse),
            10 => Some(OpCode::TimedRequest),
            _ => None,
        }
    }
}

} // verus!
