//! Encoding and decoding of the E1.31 (streaming ACN) data packet.
pub mod packet;
pub mod text;
pub mod wire;

pub use packet::e1_31_pkt;
