//! Command framing, row encoding and transmission chunking for a small
//! thermal receipt printer that speaks a vendor binary protocol.
pub mod device;
pub mod image;
pub mod line;
pub mod protocol;
pub mod transmit;
