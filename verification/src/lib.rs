//! Elements of MPEG-2 transport streams (ISO/IEC 13818-1), verified with Verus.
//!
//! - [`time`]: timestamps and clock references with their wire encodings.
//! - [`es`]: elementary stream identifiers.
//! - [`pes`]: packetized elementary stream headers.
//! - [`ts`]: transport packets and continuity counter checking.
//! - [`bytes`]: big-endian integers on byte strings, and a reader over a byte slice.
//! - [`text`]: the digits in which numbers appear in error messages.
//! - [`error`]: the error type of the library.
//!
//! The `operations` modules state of each operation what its arguments and results have to do with
//! each other, in literal bytes and bits. The `laws` modules relate the encodings to each other.
pub mod bytes;
pub mod error;
pub mod es;
pub mod pes;
pub mod text;
pub mod time;
pub mod ts;
