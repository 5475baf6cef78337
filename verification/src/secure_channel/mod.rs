//! The secure channel: status reports and the CASE handshake.

pub mod case;
pub mod common;
