//! Byte buffers for reading and writing wire formats.

pub mod bytes;
pub mod parsebuf;
pub mod writebuf;
