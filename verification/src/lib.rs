//! Core of a Matter smart-home protocol node: the TLV codec, DER emission,
//! the certificate model, the data model tree and the secure-channel
//! handshake.

pub mod bits;
pub mod error;
pub mod fabric;
pub mod interaction_model;
pub mod secure_channel;
pub mod utils;
pub mod transport;
pub mod tlv;
pub mod cert;
pub mod crypto;
pub mod data_model;
