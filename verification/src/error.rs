//! The error type shared by every layer of the node.

use vstd::prelude::*;

verus! {

/// What can go wrong anywhere in the node.
#[derive(Debug, PartialEq, Eq, Clone, Copy, Structural)]
pub enum Error {
    AttributeNotFound,
    AttributeIsCustom,
    ClusterNotFound,
    CommandNotFound,
    EndpointNotFound,
    Crypto,
    TLSStack,
    MdnsError,
    Network,
    NoCommand,
    NoEndpoint,
    NoExchange,
    NoFabricId,
    NoHandler,
    NoNetworkInterface,
    NoNodeId,
    NoSession,
    NoSpace,
    NoSpaceAckTable,
    NoSpaceRetransTable,
    NoTagFound,
    NotFound,
    PacketPoolExhaust,
    StdIoError,
    SysTimeFail,
    Invalid,
    InvalidAAD,
    InvalidData,
    InvalidKeyLength,
    InvalidOpcode,
    InvalidPeerAddr,
    /// The authority key of a certificate does not name its parent.
    InvalidAuthKey,
    InvalidSignature,
    InvalidState,
    RwLock,
    TruncatedPacket,
    /// An accessor was used on a TLV element of another type.
    TLVTypeMismatch,
}

} // verus!
