//! Status reports of the secure channel.

use vstd::prelude::*;
use crate::error::Error;
use crate::interaction_model::handlers::Packet;
use crate::tlv::writer::write_outcome;
use crate::utils::bytes::{le_bytes, push_le};

verus! {

/// The protocol identifier of the secure channel.
pub const PROTO_ID_SECURE_CHANNEL: u16 = 0x00;

pub const OPCODE_CASE_SIGMA1: u8 = 0x30;
pub const OPCODE_CASE_SIGMA2: u8 = 0x31;
pub const OPCODE_CASE_SIGMA3: u8 = 0x32;
pub const OPCODE_STATUS_REPORT: u8 = 0x40;

/// The status codes of the secure channel.
#[derive(Debug, PartialEq, Eq, Clone, Copy, Structural)]
pub enum SCStatusCodes {
    SessionEstablishmentSuccess,
    NoSharedTrustRoots,
    InvalidParameter,
    CloseSession,
    Busy,
    SessionNotFound,
}

impl SCStatusCodes {
    /// The number of the status code on the wire.
    pub open spec fn number(self) -> u16 {
        match self {
            SCStatusCodes::SessionEstablishmentSuccess => 0,
            SCStatusCodes::NoSharedTrustRoots => 1,
            SCStatusCodes::InvalidParameter => 2,
            SCStatusCodes::CloseSession => 3,
            SCStatusCodes::Busy => 4,
            SCStatusCodes::SessionNotFound => 5,
        }
    }

    /// The general code that goes with the status code: success for the
    /// establishment and the closing of a session, failure for the rest.
    pub open spec fn general(self) -> u16 {
        match self {
            SCStatusCodes::SessionEstablishmentSuccess => 0,
            SCStatusCodes::CloseSession => 0,
            _ => 1,
        }
    }

    /// The number of the status code on the wire.
    pub fn to_u16(self) -> (n: u16)
        ensures
            n == self.number(),
    {
        match self {
            SCStatusCodes::SessionEstablishmentSuccess => 0,
            SCStatusCodes::NoSharedTrustRoots => 1,
            SCStatusCodes::InvalidParameter => 2,
            SCStatusCodes::CloseSession => 3,
            SCStatusCodes::Busy => 4,
            SCStatusCodes::SessionNotFound => 5,
        }
    }
}

/// The eight bytes of a status report of the secure channel: the general
/// code, the protocol identifier and the status code, each least
/// significant byte first.
pub open spec fn sc_status_report_bytes(status_code: SCStatusCodes) -> Seq<u8> {
    le_bytes(status_code.general() as nat, 2) + le_bytes(PROTO_ID_SECURE_CHANNEL as nat, 4)
        + le_bytes(status_code.number() as nat, 2)
}

/// Makes `proto_tx` a status report of the secure channel. Where the
/// eight bytes do not fit it fails with `NoSpace` and writes nothing.
pub fn create_sc_status_report(proto_tx: &mut Packet, status_code: SCStatusCodes) -> (r: Result<
    (),
    Error,
>)
    ensures
        final(proto_tx).proto_id == PROTO_ID_SECURE_CHANNEL,
        final(proto_tx).proto_opcode == OPCODE_STATUS_REPORT,
        final(proto_tx).tw.capacity() == old(proto_tx).tw.capacity(),
        write_outcome(
            old(proto_tx).tw@,
            old(proto_tx).tw.capacity(),
            sc_status_report_bytes(status_code),
            r,
            final(proto_tx).tw@,
        ),
{
    let general_code: u16 = match status_code {
        SCStatusCodes::SessionEstablishmentSuccess => 0,
        SCStatusCodes::CloseSession => 0,
        _ => 1,
    };
    proto_tx.set_proto_id(PROTO_ID_SECURE_CHANNEL);
    proto_tx.set_proto_opcode(OPCODE_STATUS_REPORT);
    let mut bytes: Vec<u8> = Vec::new();
    push_le(&mut bytes, general_code as u64, 2);
    push_le(&mut bytes, PROTO_ID_SECURE_CHANNEL as u64, 4);
    push_le(&mut bytes, status_code.to_u16() as u64, 2);
    assert(bytes@ =~= sc_status_report_bytes(status_code));
    proto_tx.tw.put_raw(bytes.as_slice())
}

} // verus!
