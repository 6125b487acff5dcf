//! Packetized elementary streams.
pub use crate::pes::packet::{PesHeader, PesPacket};

pub mod laws;
pub mod operations;
pub mod packet;
