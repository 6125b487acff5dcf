//! Transport streams.
pub use crate::ts::cc::{CcChecker, CcStatus};
pub use crate::ts::packet::{
    AdaptationField, ContinuityCounter, Pid, TransportScramblingControl, TsHeader, TsPacket,
    TsPayload,
};
pub use crate::ts::reader::TsPacketReader;

pub mod cc;
pub mod laws;
pub mod operations;
pub mod packet;
pub mod payload;
pub mod reader;
