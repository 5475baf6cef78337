//! Message headers, exchanges and sessions.

pub mod exchange;
pub mod plain_hdr;
pub mod session;
