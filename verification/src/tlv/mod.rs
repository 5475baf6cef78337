//! The Matter tag-length-value encoding.

pub mod laws;
pub mod model;
pub mod parser;
pub mod record;
pub mod writer;
