//! Elementary stream identifiers.
use crate::error::{invalid_input_error, is_invalid_input, outcome, Error};
use crate::text::{decimal, push_decimal};
use vstd::prelude::*;

verus! {

/// Stream identifier of a PES packet.
///
/// Its view is the identifier's byte.
#[derive(Debug, Clone, Copy, PartialEq, Eq, Structural, Hash, PartialOrd, Ord)]
pub struct StreamId(u8);

impl View for StreamId {
    type V = u8;

    closed spec fn view(&self) -> u8 {
        self.0
    }
}

impl StreamId {
    /// `program_stream_map`.
    pub const PROGRAM_STREAM_MAP: u8 = 0b1011_1100;

    /// `padding_stream`.
    pub const PADDING_STREAM: u8 = 0b1011_1110;

    /// `private_stream_2`.
    pub const PRIVATE_STREAM_2: u8 = 0b1011_1111;

    /// The lowest identifier of an audio stream.
    pub const AUDIO_MIN: u8 = 0b1100_0000;

    /// The highest identifier of an audio stream.
    pub const AUDIO_MAX: u8 = 0b1101_1111;

    /// `ECM_stream`.
    pub const ECM_STREAM: u8 = 0b1111_0000;

    /// `EMM_stream`.
    pub const EMM_STREAM: u8 = 0b1111_0001;

    /// `DSMCC_stream`.
    pub const DSM_CC: u8 = 0b1111_0010;

    /// ITU-T Rec. H.222.1 type E.
    pub const H222_1_TYPE_E: u8 = 0b1111_1000;

    /// `program_stream_directory`.
    pub const PROGRAM_STREAM_DIRECTORY: u8 = 0b1111_1111;

    /// Makes a new `StreamId` instance.
    pub fn new(id: u8) -> (s: Self)
        ensures
            s@ == id,
    {
        StreamId(id)
    }

    /// Makes a new `StreamId` instance for an audio stream.
    ///
    /// # Errors
    ///
    /// If `id` is not between `AUDIO_MIN` and `AUDIO_MAX`, it will return an
    /// `ErrorKind::InvalidInput` error.
    pub fn new_audio(id: u8) -> (r: Result<Self, Error>)
        ensures
            outcome(r) == (if StreamId::AUDIO_MIN <= id <= StreamId::AUDIO_MAX {
                Ok(id)
            } else {
                Err(invalid_input_error("Not an audio stream ID: "@ + decimal(id as nat)))
            }),
    {
        if id < Self::AUDIO_MIN || Self::AUDIO_MAX < id {
            let mut reason: String = "Not an audio stream ID: ".to_owned();
            push_decimal(&mut reason, id as u64);
            return Err(Error::invalid_input(reason));
        }
        Ok(StreamId(id))
    }

    /// Returns the byte of the identifier.
    pub fn as_u8(&self) -> (id: u8)
        ensures
            id == self@,
    {
        self.0
    }
}

/// Stream identifiers of the same byte are equal.
pub proof fn stream_id_is_its_byte(a: StreamId, b: StreamId)
    requires
        a@ == b@,
    ensures
        a == b,
{
}

/// The streams that are named have the identifiers that the standard assigns to them.
pub proof fn named_streams_have_their_identifiers()
    ensures
        StreamId::PROGRAM_STREAM_MAP == 0xBC,
        StreamId::PADDING_STREAM == 0xBE,
        StreamId::PRIVATE_STREAM_2 == 0xBF,
        StreamId::AUDIO_MIN == 0xC0,
        StreamId::AUDIO_MAX == 0xDF,
        StreamId::ECM_STREAM == 0xF0,
        StreamId::EMM_STREAM == 0xF1,
        StreamId::DSM_CC == 0xF2,
        StreamId::H222_1_TYPE_E == 0xF8,
        StreamId::PROGRAM_STREAM_DIRECTORY == 0xFF,
{
}

/// A stream identifier keeps the byte that it is made of.
pub proof fn stream_id_keeps_its_byte(id: u8, stream_id: StreamId, byte: u8)
    requires
        call_ensures(StreamId::new, (id,), stream_id),
        call_ensures(StreamId::as_u8, (&stream_id,), byte),
    ensures
        byte == id,
{
}

/// An identifier is that of an audio stream if and only if its three highest bits are `110`; it
/// keeps its byte, and any other is refused.
pub proof fn audio_stream_ids_begin_with_their_bits(id: u8, r: Result<StreamId, Error>)
    requires
        call_ensures(StreamId::new_audio, (id,), r),
    ensures
        match r {
            Ok(stream_id) => id / 32 == 6 && stream_id@ == id,
            Err(e) => id / 32 != 6 && is_invalid_input(
                e,
                "Not an audio stream ID: "@ + decimal(id as nat),
            ),
        },
{
}

} // verus!
