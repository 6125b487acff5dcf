//! PES packets and their headers.
use crate::bytes::{
    be_bytes, be_value, behind, consume_stuffing_bytes, field, flag, is_stuffing, lemma_flags,
    stuffing_error, taken, where_present, write_uint, ByteReader,
};
use crate::error::{
    eof_error, invalid_input_error, outcome, unsupported_error, Error, ErrorModel,
};
use crate::es::StreamId;
use crate::text::{decimal, hexadecimal, push_decimal, push_hexadecimal};
use crate::time::{
    clock_value, escr_at, escr_encoding, timestamp_at, timestamp_encoding, timestamp_value,
    ClockReference, Timestamp,
};
use vstd::prelude::*;

verus! {

const PACKET_START_CODE_PREFIX: u64 = 0x00_0001;

/// PES packet.
#[derive(Debug, Clone)]
pub struct PesPacket<B> {
    pub header: PesHeader,
    pub data: B,
}

/// PES packet header.
///
/// Note that `PesHeader` contains the fields that belong to the optional PES header.
#[derive(Debug, Clone, PartialEq, Eq, Hash)]
pub struct PesHeader {
    pub stream_id: StreamId,
    pub priority: bool,
    /// `true` indicates that the PES packet header is immediately followed by
    /// the video start code or audio syncword.
    pub data_alignment_indicator: bool,
    /// `true` implies copyrighted.
    pub copyright: bool,
    /// `true` implies original.
    pub original_or_copy: bool,
    pub pts: Option<Timestamp>,
    pub dts: Option<Timestamp>,
    /// Elementary stream clock reference.
    pub escr: Option<ClockReference>,
}

/// The model of a [`PesHeader`]: its fields, each time by its value.
pub struct PesHeaderModel {
    pub stream_id: u8,
    pub priority: bool,
    pub data_alignment_indicator: bool,
    pub copyright: bool,
    pub original_or_copy: bool,
    pub pts: Option<nat>,
    pub dts: Option<nat>,
    pub escr: Option<nat>,
}

impl View for PesHeader {
    type V = PesHeaderModel;

    open spec fn view(&self) -> PesHeaderModel {
        PesHeaderModel {
            stream_id: self.stream_id@,
            priority: self.priority,
            data_alignment_indicator: self.data_alignment_indicator,
            copyright: self.copyright,
            original_or_copy: self.original_or_copy,
            pts: timestamp_value(self.pts),
            dts: timestamp_value(self.dts),
            escr: clock_value(self.escr),
        }
    }
}

/// Whether packets of the stream carry an optional header after the packet length.
pub open spec fn carries_optional_header(stream_id: u8) -> bool {
    &&& stream_id != StreamId::PROGRAM_STREAM_MAP
    &&& stream_id != StreamId::PADDING_STREAM
    &&& stream_id != StreamId::PRIVATE_STREAM_2
    &&& stream_id != StreamId::ECM_STREAM
    &&& stream_id != StreamId::EMM_STREAM
    &&& stream_id != StreamId::PROGRAM_STREAM_DIRECTORY
    &&& stream_id != StreamId::DSM_CC
    &&& stream_id != StreamId::H222_1_TYPE_E
}

/// The header of a packet without an optional header.
pub open spec fn bare_header(stream_id: u8) -> PesHeaderModel {
    PesHeaderModel {
        stream_id,
        priority: false,
        data_alignment_indicator: false,
        copyright: false,
        original_or_copy: false,
        pts: None,
        dts: None,
        escr: None,
    }
}

/// The size of the optional header: three bytes of flags and length, then the fields present.
pub open spec fn optional_size(h: PesHeaderModel) -> nat {
    let pts: nat = if h.pts is Some { 5 } else { 0 };
    let dts: nat = if h.dts is Some { 5 } else { 0 };
    let escr: nat = if h.escr is Some { 6 } else { 0 };
    3 + pts + dts + escr
}

/// The size of the elementary stream payload that a packet length field leaves for a header:
/// none is told by zero; otherwise what is left of it after the optional header.
pub open spec fn payload_size(h: PesHeaderModel, pes_packet_len: u16) -> Result<
    Option<usize>,
    ErrorModel,
> {
    if pes_packet_len == 0 {
        Ok(None)
    } else if pes_packet_len < optional_size(h) {
        Err(
            invalid_input_error(
                "pes.pes_packet_len="@ + decimal(pes_packet_len as nat) + ", optional_header_len="@
                    + decimal(optional_size(h)),
            ),
        )
    } else {
        Ok(Some((pes_packet_len - optional_size(h)) as usize))
    }
}

/// The error for a packet that does not begin with the start code prefix.
pub open spec fn prefix_error(prefix: nat) -> ErrorModel {
    invalid_input_error(
        "Expected packet start code prefix 0x"@ + hexadecimal(1, 6) + ", got 0x"@ + hexadecimal(
            prefix,
            6,
        ),
    )
}

/// The fault, if any, in the first byte of an optional header: the marker `10`, two bits of
/// scrambling control, four flags.
pub open spec fn first_byte_fault(b: u8) -> Option<ErrorModel> {
    if field(b as nat, 6, 2) != 2 {
        Some(invalid_input_error("Unexpected marker bits"@))
    } else if field(b as nat, 4, 2) != 0 {
        Some(unsupported_error("Scrambling control is not supported"@))
    } else {
        None
    }
}

/// The fault, if any, in the second byte of an optional header: the flags that tell which fields
/// are present.
pub open spec fn second_byte_fault(b: u8) -> Option<ErrorModel> {
    if flag(b, 6) && !flag(b, 7) {
        Some(invalid_input_error("DTS cannot be present without PTS"@))
    } else if flag(b, 4) {
        Some(unsupported_error("ES rate flag is not supported"@))
    } else if flag(b, 3) {
        Some(unsupported_error("DSM trick mode flag is not supported"@))
    } else if flag(b, 2) {
        Some(unsupported_error("Additional copy info flag is not supported"@))
    } else if flag(b, 1) {
        Some(unsupported_error("CRC flag is not supported"@))
    } else if flag(b, 0) {
        Some(unsupported_error("Extension flag is not supported"@))
    } else {
        None
    }
}

/// The check bits of a PTS, which tell whether a DTS follows.
pub open spec fn pts_check_bits(dts_follows: bool) -> nat {
    if dts_follows {
        3
    } else {
        2
    }
}

/// The check bits of a DTS.
pub open spec fn dts_check_bits() -> nat {
    1
}

/// What the field bytes `s` of an optional header denote under the flags `b`: PTS, DTS and ESCR,
/// as far as they are present, with stuffing behind them.
pub open spec fn optional_fields_at(b: u8, s: Seq<u8>) -> Result<
    (Option<nat>, Option<nat>, Option<nat>),
    ErrorModel,
> {
    let s_dts = behind(flag(b, 7), s, 5);
    let s_escr = behind(flag(b, 6), s_dts, 5);
    let s_stuffing = behind(flag(b, 5), s_escr, 6);
    match where_present(flag(b, 7), timestamp_at(s, pts_check_bits(flag(b, 6)))) {
        Err(e) => Err(e),
        Ok(pts) => match where_present(flag(b, 6), timestamp_at(s_dts, dts_check_bits())) {
            Err(e) => Err(e),
            Ok(dts) => match where_present(flag(b, 5), escr_at(s_escr)) {
                Err(e) => Err(e),
                Ok(escr) => if is_stuffing(s_stuffing) {
                    Ok((pts, dts, escr))
                } else {
                    Err(stuffing_error())
                },
            },
        },
    }
}

/// The model of the optional fields that were read, or of the error in them.
pub open spec fn optional_values(
    r: Result<(Option<Timestamp>, Option<Timestamp>, Option<ClockReference>), Error>,
) -> Result<(Option<nat>, Option<nat>, Option<nat>), ErrorModel> {
    match r {
        Ok((pts, dts, escr)) => Ok((timestamp_value(pts), timestamp_value(dts), clock_value(escr))),
        Err(e) => Err(e@),
    }
}

/// Where the PTS ends among the fields of an optional header with the flags `b`.
pub open spec fn pts_end(b: u8) -> nat {
    if flag(b, 7) {
        5
    } else {
        0
    }
}

/// Where the DTS ends among the fields of an optional header with the flags `b`.
pub open spec fn dts_end(b: u8) -> nat {
    pts_end(b) + (if flag(b, 6) {
        5nat
    } else {
        0
    })
}

/// Where the ESCR ends among the fields of an optional header with the flags `b`.
pub open spec fn escr_end(b: u8) -> nat {
    dts_end(b) + (if flag(b, 5) {
        6nat
    } else {
        0
    })
}

/// Whether the PTS that the flags `b` announce at the front of `s` cannot be read.
pub open spec fn is_pts_faulty(b: u8, s: Seq<u8>) -> bool {
    flag(b, 7) && timestamp_at(s, pts_check_bits(flag(b, 6))) is Err
}

/// Whether the DTS that the flags `b` announce behind the PTS cannot be read.
pub open spec fn is_dts_faulty(b: u8, s: Seq<u8>) -> bool {
    flag(b, 6) && timestamp_at(s.skip(pts_end(b) as int), dts_check_bits()) is Err
}

/// Whether the ESCR that the flags `b` announce behind the DTS cannot be read.
pub open spec fn is_escr_faulty(b: u8, s: Seq<u8>) -> bool {
    flag(b, 5) && escr_at(s.skip(dts_end(b) as int)) is Err
}

/// How many of the field bytes `s` of an optional header reading them under the flags `b` takes:
/// those up to the end of the first field that cannot be read, or all if there is none.
pub open spec fn fields_span(b: u8, s: Seq<u8>) -> int {
    if is_pts_faulty(b, s) {
        taken(s, pts_end(b))
    } else if is_dts_faulty(b, s) {
        taken(s, dts_end(b))
    } else if is_escr_faulty(b, s) {
        taken(s, escr_end(b))
    } else {
        s.len() as int
    }
}

/// How many bytes are missing up to `end`, or up to `limit` if that comes first, where `have` are
/// there.
pub open spec fn missing_up_to(end: nat, limit: nat, have: nat) -> nat {
    if end <= limit {
        (end - have) as nat
    } else {
        (limit - have) as nat
    }
}

/// How many more field bytes of an optional header with the flags `b` a reader that has read `s`
/// of its `limit` field bytes has to fetch before it knows more about them: those up to the end
/// of the next field, or of the stuffing; none when a field cannot be read.
pub open spec fn missing_field_bytes(b: u8, limit: nat, s: Seq<u8>) -> nat {
    if s.len() < pts_end(b) {
        missing_up_to(pts_end(b), limit, s.len())
    } else if is_pts_faulty(b, s) {
        0
    } else if s.len() < dts_end(b) {
        missing_up_to(dts_end(b), limit, s.len())
    } else if is_dts_faulty(b, s) {
        0
    } else if s.len() < escr_end(b) {
        missing_up_to(escr_end(b), limit, s.len())
    } else if is_escr_faulty(b, s) {
        0
    } else {
        (limit - s.len()) as nat
    }
}

/// The bytes of `bytes` that hold the fields of the optional header: as many as the ninth byte
/// tells, or all that are left if there are fewer.
pub open spec fn field_bytes(bytes: Seq<u8>) -> Seq<u8> {
    bytes.skip(9).take(taken(bytes.skip(9), bytes[8] as nat))
}

/// What `bytes` denotes as a PES header: the header and the packet length.
pub open spec fn header_at(bytes: Seq<u8>) -> Result<(PesHeaderModel, u16), ErrorModel> {
    if bytes.len() < 3 {
        Err(eof_error())
    } else if be_value(bytes.take(3)) != 1 {
        Err(prefix_error(be_value(bytes.take(3))))
    } else if bytes.len() < 6 {
        Err(eof_error())
    } else if !carries_optional_header(bytes[3]) {
        Ok((bare_header(bytes[3]), packet_length(bytes)))
    } else if bytes.len() < 7 {
        Err(eof_error())
    } else if first_byte_fault(bytes[6]) is Some {
        Err(first_byte_fault(bytes[6])->0)
    } else if bytes.len() < 8 {
        Err(eof_error())
    } else if second_byte_fault(bytes[7]) is Some {
        Err(second_byte_fault(bytes[7])->0)
    } else if bytes.len() < 9 {
        Err(eof_error())
    } else {
        match optional_fields_at(bytes[7], field_bytes(bytes)) {
            Err(e) => Err(e),
            Ok((pts, dts, escr)) => Ok(
                (
                    PesHeaderModel {
                        stream_id: bytes[3],
                        priority: flag(bytes[6], 3),
                        data_alignment_indicator: flag(bytes[6], 2),
                        copyright: flag(bytes[6], 1),
                        original_or_copy: flag(bytes[6], 0),
                        pts,
                        dts,
                        escr,
                    },
                    packet_length(bytes),
                ),
            ),
        }
    }
}

/// The packet length field of a PES header.
pub open spec fn packet_length(bytes: Seq<u8>) -> u16 {
    be_value(bytes.subrange(4, 6)) as u16
}

/// How many bytes of `bytes` reading a PES header takes. Where it fails, that is up to the end of
/// the element in which the fault shows.
pub open spec fn header_span(bytes: Seq<u8>) -> int {
    if bytes.len() < 3 {
        bytes.len() as int
    } else if be_value(bytes.take(3)) != 1 {
        3
    } else if bytes.len() < 6 {
        bytes.len() as int
    } else if !carries_optional_header(bytes[3]) {
        6
    } else if bytes.len() < 7 {
        6
    } else if first_byte_fault(bytes[6]) is Some {
        7
    } else if bytes.len() < 8 {
        7
    } else if second_byte_fault(bytes[7]) is Some {
        8
    } else if bytes.len() < 9 {
        8
    } else {
        9 + fields_span(bytes[7], field_bytes(bytes))
    }
}

/// How many more bytes a reader that has read `bytes` from a stream has to fetch before it knows
/// more about the PES header there; zero when it has what there is to know.
pub open spec fn missing(bytes: Seq<u8>) -> nat {
    if bytes.len() < 3 {
        (3 - bytes.len()) as nat
    } else if be_value(bytes.take(3)) != 1 {
        0
    } else if bytes.len() < 6 {
        (6 - bytes.len()) as nat
    } else if !carries_optional_header(bytes[3]) {
        0
    } else if bytes.len() < 7 {
        1
    } else if first_byte_fault(bytes[6]) is Some {
        0
    } else if bytes.len() < 8 {
        1
    } else if second_byte_fault(bytes[7]) is Some {
        0
    } else if bytes.len() < 9 {
        1
    } else {
        missing_field_bytes(bytes[7], bytes[8] as nat, field_bytes(bytes))
    }
}

/// The six bytes that every PES header begins with: start code prefix, stream identifier and
/// packet length.
pub open spec fn fixed_encoding(stream_id: u8, packet_len: u16) -> Seq<u8> {
    be_bytes(1, 3) + seq![stream_id] + be_bytes(packet_len as nat, 2)
}

/// The bit of weight `weight` if `set`.
pub open spec fn weighted(set: bool, weight: int) -> int {
    if set {
        weight
    } else {
        0
    }
}

/// The first byte of the optional header.
pub open spec fn first_byte(h: PesHeaderModel) -> u8 {
    (0x80 + weighted(h.priority, 8) + weighted(h.data_alignment_indicator, 4) + weighted(
        h.copyright,
        2,
    ) + weighted(h.original_or_copy, 1)) as u8
}

/// The second byte of the optional header.
pub open spec fn second_byte(h: PesHeaderModel) -> u8 {
    (weighted(h.pts is Some, 0x80) + weighted(h.dts is Some, 0x40) + weighted(h.escr is Some, 0x20))
        as u8
}

/// The bytes of the PTS field, if any.
pub open spec fn pts_encoding(h: PesHeaderModel) -> Seq<u8> {
    match h.pts {
        Some(t) => timestamp_encoding(t, pts_check_bits(h.dts is Some)),
        None => Seq::empty(),
    }
}

/// The bytes of the DTS field, if any.
pub open spec fn dts_encoding(h: PesHeaderModel) -> Seq<u8> {
    match h.dts {
        Some(t) => timestamp_encoding(t, dts_check_bits()),
        None => Seq::empty(),
    }
}

/// The bytes of the ESCR field, if any.
pub open spec fn escr_field_encoding(h: PesHeaderModel) -> Seq<u8> {
    match h.escr {
        Some(c) => escr_encoding(c),
        None => Seq::empty(),
    }
}

/// The bytes of the optional header.
pub open spec fn optional_encoding(h: PesHeaderModel) -> Seq<u8> {
    seq![first_byte(h), second_byte(h), (optional_size(h) - 3) as u8] + pts_encoding(h)
        + dts_encoding(h) + escr_field_encoding(h)
}

/// The bytes of a PES header.
pub open spec fn header_encoding(h: PesHeaderModel, packet_len: u16) -> Seq<u8> {
    if carries_optional_header(h.stream_id) {
        fixed_encoding(h.stream_id, packet_len) + optional_encoding(h)
    } else {
        fixed_encoding(h.stream_id, packet_len)
    }
}

/// Whether a header can be written: one with an optional header has no DTS without a PTS.
pub open spec fn is_writable(h: PesHeaderModel) -> bool {
    carries_optional_header(h.stream_id) && h.dts is Some ==> h.pts is Some
}

impl PesHeader {
    /// Returns the length in bytes of the optional header.
    pub fn optional_header_len(&self) -> (n: u16)
        ensures
            n == optional_size(self@),
    {
        let pts: u16 = if self.pts.is_some() { 5 } else { 0 };
        let dts: u16 = if self.dts.is_some() { 5 } else { 0 };
        let escr: u16 = if self.escr.is_some() { 6 } else { 0 };
        3 + pts + dts + escr
    }

    /// Calculates the length in bytes of the elementary stream payload carried
    /// by a PES packet that has this header.
    ///
    /// Per ISO/IEC 13818-1, `PES_packet_length` is the 16-bit field following
    /// the `stream_id` in the PES header, and it specifies the number of bytes
    /// in the PES packet **following the final byte of the field itself**,
    /// i.e., it counts both the optional PES header *and* the ES payload.
    /// The ES payload length is therefore `pes_packet_len` reduced by the
    /// optional header length (`optional_header_len()`).
    ///
    /// A `pes_packet_len` of `0` means the PES packet length is unbounded
    /// (only permitted for video elementary streams in transport streams),
    /// in which case `Ok(None)` is returned.
    ///
    /// # Errors
    ///
    /// If `pes_packet_len` is nonzero but smaller than the optional header
    /// length, the PES packet is malformed and an `ErrorKind::InvalidInput`
    /// error is returned.
    pub fn es_payload_len(&self, pes_packet_len: u16) -> (r: Result<Option<usize>, Error>)
        ensures
            outcome(r) == payload_size(self@, pes_packet_len),
    {
        if pes_packet_len == 0 {
            return Ok(None);
        }
        let optional_header_len: u16 = self.optional_header_len();
        if pes_packet_len < optional_header_len {
            let mut reason: String = "pes.pes_packet_len=".to_owned();
            push_decimal(&mut reason, pes_packet_len as u64);
            reason.append(", optional_header_len=");
            push_decimal(&mut reason, optional_header_len as u64);
            return Err(Error::invalid_input(reason));
        }
        Ok(Some((pes_packet_len - optional_header_len) as usize))
    }

    /// Reads a PES header and returns it with the packet length.
    ///
    /// # Errors
    ///
    /// If the input is not a PES header, it will return an `ErrorKind::InvalidInput` error; if
    /// the header uses a feature that is not handled, an `ErrorKind::Unsupported` error; if the
    /// input ends within the header, an `ErrorKind::UnexpectedEof` error.
    pub fn read_from(reader: &mut ByteReader) -> (r: Result<(Self, u16), Error>)
        ensures
            outcome(r) == header_at(old(reader)@),
            final(reader)@ == old(reader)@.skip(header_span(old(reader)@)),
    {
        let ghost bytes = reader@;
        let packet_start_code_prefix: u64 = match reader.read_uint::<3>() {
            Ok(n) => n,
            Err(e) => return Err(e),
        };
        if packet_start_code_prefix != PACKET_START_CODE_PREFIX {
            let mut reason: String = "Expected packet start code prefix 0x".to_owned();
            push_hexadecimal(&mut reason, PACKET_START_CODE_PREFIX, 6);
            reason.append(", got 0x");
            push_hexadecimal(&mut reason, packet_start_code_prefix, 6);
            return Err(Error::invalid_input(reason));
        }
        let stream_id: StreamId = match reader.read_u8() {
            Ok(b) => StreamId::new(b),
            Err(e) => return Err(e),
        };
        assert(reader@ =~= bytes.skip(4));
        let packet_len: u16 = match reader.read_u16() {
            Ok(n) => n,
            Err(e) => {
                assert(reader@ =~= bytes.skip(bytes.len() as int));
                return Err(e);
            },
        };
        assert(bytes.skip(4).take(2) =~= bytes.subrange(4, 6));
        assert(reader@ =~= bytes.skip(6));
        if !has_optional_header(stream_id) {
            let header: PesHeader = PesHeader {
                stream_id,
                priority: false,
                data_alignment_indicator: false,
                copyright: false,
                original_or_copy: false,
                pts: None,
                dts: None,
                escr: None,
            };
            return Ok((header, packet_len));
        }
        let b: u8 = match reader.read_u8() {
            Ok(b) => b,
            Err(e) => return Err(e),
        };
        assert(reader@ =~= bytes.skip(7));
        proof {
            lemma_flags(b);
        }
        match check_first_byte(b) {
            Ok(_) => {},
            Err(e) => return Err(e),
        }
        let priority: bool = (b & 0b0000_1000) != 0;
        let data_alignment_indicator: bool = (b & 0b0000_0100) != 0;
        let copyright: bool = (b & 0b0000_0010) != 0;
        let original_or_copy: bool = (b & 0b0000_0001) != 0;
        let b: u8 = match reader.read_u8() {
            Ok(b) => b,
            Err(e) => return Err(e),
        };
        assert(reader@ =~= bytes.skip(8));
        match check_second_byte(b) {
            Ok(_) => {},
            Err(e) => return Err(e),
        }
        let pes_header_len: u8 = match reader.read_u8() {
            Ok(b) => b,
            Err(e) => return Err(e),
        };
        assert(reader@ =~= bytes.skip(9));
        let result = read_limited_fields(b, pes_header_len, reader);
        assert(reader@ =~= bytes.skip(header_span(bytes)));
        let (pts, dts, escr) = match result {
            Ok(values) => values,
            Err(e) => return Err(e),
        };
        let header: PesHeader = PesHeader {
            stream_id,
            priority,
            data_alignment_indicator,
            copyright,
            original_or_copy,
            pts,
            dts,
            escr,
        };
        Ok((header, packet_len))
    }

    /// Writes the PES header to the given writer. The packet length field gets the value
    /// `pes_header_len`.
    ///
    /// # Errors
    ///
    /// If there is a DTS but no PTS, it will return an `ErrorKind::InvalidInput` error when it
    /// has written the first byte of the optional header.
    pub fn write_to(&self, writer: &mut Vec<u8>, pes_header_len: u16) -> (r: Result<(), Error>)
        ensures
            outcome(r) == (if is_writable(self@) {
                Ok(())
            } else {
                Err(invalid_input_error("DTS cannot be present without PTS"@))
            }),
            final(writer)@ == old(writer)@ + (if is_writable(self@) {
                header_encoding(self@, pes_header_len)
            } else {
                fixed_encoding(self@.stream_id, pes_header_len) + seq![first_byte(self@)]
            }),
    {
        let ghost h = self@;
        let ghost start = writer@;
        write_uint::<3>(writer, PACKET_START_CODE_PREFIX);
        writer.push(self.stream_id.as_u8());
        write_uint::<2>(writer, pes_header_len as u64);
        let ghost fixed = fixed_encoding(h.stream_id, pes_header_len);
        assert(writer@ =~= start + fixed);
        if !has_optional_header(self.stream_id) {
            return Ok(());
        }
        writer.push(self.first_optional_byte());
        assert(writer@ =~= start + (fixed + seq![first_byte(h)]));
        if self.dts.is_some() && self.pts.is_none() {
            return Err(Error::invalid_input("DTS cannot be present without PTS".to_owned()));
        }
        writer.push(self.second_optional_byte());
        let optional_fields_len: u8 = self.optional_header_len() as u8 - 3;
        writer.push(optional_fields_len);
        let ghost leading = seq![first_byte(h), second_byte(h), (optional_size(h) - 3) as u8];
        assert(writer@ =~= start + fixed + leading);
        self.write_optional_fields(writer)?;
        assert(writer@ =~= start + (fixed + optional_encoding(h)));
        Ok(())
    }

    /// Returns the first byte of the optional header.
    fn first_optional_byte(&self) -> (n: u8)
        ensures
            n == first_byte(self@),
    {
        let priority: u8 = if self.priority { 1 } else { 0 };
        let data_alignment_indicator: u8 = if self.data_alignment_indicator { 1 } else { 0 };
        let copyright: u8 = if self.copyright { 1 } else { 0 };
        let original_or_copy: u8 = if self.original_or_copy { 1 } else { 0 };
        let n: u8 = 0b1000_0000 | (priority << 3) | (data_alignment_indicator << 2) | (copyright
            << 1) | original_or_copy;
        assert(n == 0x80 + priority * 8 + data_alignment_indicator * 4 + copyright * 2
            + original_or_copy) by (bit_vector)
            requires
                n == 0b1000_0000 | (priority << 3) | (data_alignment_indicator << 2) | (copyright
                    << 1) | original_or_copy,
                priority <= 1,
                data_alignment_indicator <= 1,
                copyright <= 1,
                original_or_copy <= 1,
        ;
        n
    }

    /// Returns the second byte of the optional header.
    fn second_optional_byte(&self) -> (n: u8)
        ensures
            n == second_byte(self@),
    {
        let pts: u8 = if self.pts.is_some() { 1 } else { 0 };
        let dts: u8 = if self.dts.is_some() { 1 } else { 0 };
        let escr: u8 = if self.escr.is_some() { 1 } else { 0 };
        let n: u8 = (pts << 7) | (dts << 6) | (escr << 5);
        assert(n == pts * 0x80 + dts * 0x40 + escr * 0x20) by (bit_vector)
            requires
                n == (pts << 7) | (dts << 6) | (escr << 5),
                pts <= 1,
                dts <= 1,
                escr <= 1,
        ;
        n
    }

    /// Writes the fields of the optional header that are present.
    fn write_optional_fields(&self, writer: &mut Vec<u8>) -> (r: Result<(), Error>)
        ensures
            r is Ok,
            final(writer)@ == old(writer)@ + (pts_encoding(self@) + dts_encoding(self@)
                + escr_field_encoding(self@)),
    {
        if let Some(x) = self.pts {
            let check_bits: u8 = if self.dts.is_some() { 3 } else { 2 };
            x.write_to(writer, check_bits)?;
        }
        assert(writer@ =~= old(writer)@ + pts_encoding(self@));
        if let Some(x) = self.dts {
            x.write_to(writer, 1)?;
        }
        assert(writer@ =~= old(writer)@ + (pts_encoding(self@) + dts_encoding(self@)));
        if let Some(x) = self.escr {
            x.write_escr_to(writer)?;
        }
        assert(writer@ =~= old(writer)@ + (pts_encoding(self@) + dts_encoding(self@)
            + escr_field_encoding(self@)));
        Ok(())
    }

    /// Tells how many more bytes to fetch from a stream of which `bytes` has been read, in order
    /// to read the PES header there: zero when [`PesHeader::read_from`][Self::read_from] can be
    /// called on `bytes`.
    pub fn missing_bytes(bytes: &[u8]) -> (n: usize)
        ensures
            n == missing(bytes@),
    {
        let len: usize = bytes.len();
        if len < 3 {
            return 3 - len;
        }
        let mut reader: ByteReader = ByteReader::new(bytes);
        match reader.read_uint::<3>() {
            Ok(n) => if n != PACKET_START_CODE_PREFIX {
                return 0;
            },
            Err(_) => return 0,
        }
        if len < 6 {
            return 6 - len;
        }
        if !has_optional_header(StreamId::new(bytes[3])) {
            return 0;
        }
        if len < 7 {
            return 1;
        }
        if check_first_byte(bytes[6]).is_err() {
            return 0;
        }
        if len < 8 {
            return 1;
        }
        if check_second_byte(bytes[7]).is_err() {
            return 0;
        }
        if len < 9 {
            return 1;
        }
        let limit: usize = bytes[8] as usize;
        let mut rest: ByteReader = ByteReader::new(bytes);
        rest.take(9);
        let fields: ByteReader = rest.take(limit);
        count_missing_field_bytes(bytes[7], limit, fields)
    }
}

/// Reads the fields of an optional header with the flags `b`, and the stuffing behind them.
fn read_optional_fields(b: u8, fields: &mut ByteReader) -> (r: Result<
    (Option<Timestamp>, Option<Timestamp>, Option<ClockReference>),
    Error,
>)
    requires
        second_byte_fault(b) is None,
    ensures
        optional_fields_at(b, old(fields)@) == optional_values(r),
        final(fields)@ == old(fields)@.skip(fields_span(b, old(fields)@)),
{
    let ghost s = fields@;
    proof {
        lemma_flags(b);
    }
    let pts_flag: bool = (b & 0b1000_0000) != 0;
    let dts_flag: bool = (b & 0b0100_0000) != 0;
    let escr_flag: bool = (b & 0b0010_0000) != 0;
    let pts: Option<Timestamp> = if pts_flag {
        let check_bits: u8 = if dts_flag { 3 } else { 2 };
        match Timestamp::read_from(fields, check_bits) {
            Ok(t) => Some(t),
            Err(e) => return Err(e),
        }
    } else {
        None
    };
    assert(fields@ =~= s.skip(pts_end(b) as int));
    let dts: Option<Timestamp> = if dts_flag {
        match Timestamp::read_from(fields, 1) {
            Ok(t) => Some(t),
            Err(e) => {
                assert(fields@ =~= s.skip(taken(s, dts_end(b))));
                return Err(e);
            },
        }
    } else {
        None
    };
    assert(fields@ =~= s.skip(dts_end(b) as int));
    let escr: Option<ClockReference> = if escr_flag {
        match ClockReference::read_escr_from(fields) {
            Ok(c) => Some(c),
            Err(e) => {
                assert(fields@ =~= s.skip(taken(s, escr_end(b))));
                return Err(e);
            },
        }
    } else {
        None
    };
    assert(fields@ =~= s.skip(escr_end(b) as int));
    match consume_stuffing_bytes(fields) {
        Ok(_) => Ok((pts, dts, escr)),
        Err(e) => Err(e),
    }
}

/// Reads the fields of an optional header with the flags `b` from the next `limit` bytes, and moves
/// the reader by what this took.
fn read_limited_fields(b: u8, limit: u8, reader: &mut ByteReader) -> (r: Result<
    (Option<Timestamp>, Option<Timestamp>, Option<ClockReference>),
    Error,
>)
    requires
        second_byte_fault(b) is None,
    ensures
        ({
            let s = old(reader)@.take(taken(old(reader)@, limit as nat));
            &&& optional_fields_at(b, s) == optional_values(r)
            &&& final(reader)@ == old(reader)@.skip(fields_span(b, s))
        }),
{
    let mut ahead: ByteReader = *reader;
    let mut fields: ByteReader = ahead.take(limit as usize);
    let fields_len: usize = fields.remaining().len();
    let result = read_optional_fields(b, &mut fields);
    reader.take(fields_len - fields.remaining().len());
    result
}

/// Counts the field bytes that are missing where those of `fields` have been read and `limit` are
/// announced.
fn count_missing_field_bytes(b: u8, limit: usize, fields: ByteReader) -> (n: usize)
    requires
        fields@.len() <= limit,
    ensures
        n == missing_field_bytes(b, limit as nat, fields@),
{
    let ghost s = fields@;
    proof {
        lemma_flags(b);
    }
    let have: usize = fields.remaining().len();
    let mut reader: ByteReader = fields;
    let mut end: usize = 0;
    if (b & 0b1000_0000) != 0 {
        end = 5;
        if have < end {
            return count_missing_up_to(end, limit, have);
        }
        let check_bits: u8 = if (b & 0b0100_0000) != 0 { 3 } else { 2 };
        if Timestamp::read_from(&mut reader, check_bits).is_err() {
            return 0;
        }
    }
    assert(reader@ =~= s.skip(pts_end(b) as int));
    if (b & 0b0100_0000) != 0 {
        end = end + 5;
        if have < end {
            return count_missing_up_to(end, limit, have);
        }
        if Timestamp::read_from(&mut reader, 1).is_err() {
            return 0;
        }
    }
    assert(reader@ =~= s.skip(dts_end(b) as int));
    if (b & 0b0010_0000) != 0 {
        end = end + 6;
        if have < end {
            return count_missing_up_to(end, limit, have);
        }
        if ClockReference::read_escr_from(&mut reader).is_err() {
            return 0;
        }
    }
    limit - have
}

/// Counts the bytes that are missing up to `end`, or up to `limit` if that comes first.
fn count_missing_up_to(end: usize, limit: usize, have: usize) -> (n: usize)
    requires
        have <= end,
        have <= limit,
    ensures
        n == missing_up_to(end as nat, limit as nat, have as nat),
{
    if end <= limit {
        end - have
    } else {
        limit - have
    }
}

/// Makes sure that the first byte of an optional header has no fault.
fn check_first_byte(b: u8) -> (r: Result<(), Error>)
    ensures
        outcome(r) == (match first_byte_fault(b) {
            None => Ok(()),
            Some(e) => Err(e),
        }),
{
    proof {
        lemma_flags(b);
    }
    if (b & 0b1100_0000) != 0b1000_0000 {
        return Err(Error::invalid_input("Unexpected marker bits".to_owned()));
    }
    let scrambling_control: u8 = (b & 0b0011_0000) >> 4;
    if scrambling_control != 0 {
        return Err(Error::unsupported("Scrambling control is not supported".to_owned()));
    }
    Ok(())
}

/// Makes sure that the second byte of an optional header has no fault.
fn check_second_byte(b: u8) -> (r: Result<(), Error>)
    ensures
        outcome(r) == (match second_byte_fault(b) {
            None => Ok(()),
            Some(e) => Err(e),
        }),
{
    proof {
        lemma_flags(b);
    }
    let pts_flag: bool = (b & 0b1000_0000) != 0;
    let dts_flag: bool = (b & 0b0100_0000) != 0;
    if !pts_flag && dts_flag {
        return Err(Error::invalid_input("DTS cannot be present without PTS".to_owned()));
    }
    let es_rate_flag: bool = (b & 0b0001_0000) != 0;
    let dsm_trick_mode_flag: bool = (b & 0b0000_1000) != 0;
    let additional_copy_info_flag: bool = (b & 0b0000_0100) != 0;
    let crc_flag: bool = (b & 0b0000_0010) != 0;
    let extension_flag: bool = (b & 0b0000_0001) != 0;
    if es_rate_flag {
        return Err(Error::unsupported("ES rate flag is not supported".to_owned()));
    }
    if dsm_trick_mode_flag {
        return Err(Error::unsupported("DSM trick mode flag is not supported".to_owned()));
    }
    if additional_copy_info_flag {
        return Err(Error::unsupported("Additional copy info flag is not supported".to_owned()));
    }
    if crc_flag {
        return Err(Error::unsupported("CRC flag is not supported".to_owned()));
    }
    if extension_flag {
        return Err(Error::unsupported("Extension flag is not supported".to_owned()));
    }
    Ok(())
}

/// Tells whether packets of the stream carry an optional header.
fn has_optional_header(stream_id: StreamId) -> (b: bool)
    ensures
        b == carries_optional_header(stream_id@),
{
    let id: u8 = stream_id.as_u8();
    !(id == StreamId::PROGRAM_STREAM_MAP || id == StreamId::PADDING_STREAM || id
        == StreamId::PRIVATE_STREAM_2 || id == StreamId::ECM_STREAM || id == StreamId::EMM_STREAM
        || id == StreamId::PROGRAM_STREAM_DIRECTORY || id == StreamId::DSM_CC || id
        == StreamId::H222_1_TYPE_E)
}

} // verus!
