//! The interaction model: read, write and invoke requests over TLV.

pub mod handlers;
pub mod messages;
pub mod requests;
pub mod status;
