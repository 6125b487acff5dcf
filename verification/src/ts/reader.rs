//! Reading transport packets.
use crate::bytes::{
    be_value, behind, consume_stuffing_bytes, field, flag, is_stuffing, lemma_flags,
    stuffing_error, taken, where_present, ByteReader,
};
use crate::error::{eof_error, invalid_input_error, outcome, Error, ErrorModel};
use crate::time::{clock_value, pcr_at, ClockReference};
use crate::ts::packet::{
    bytes_value, AdaptationField, AdaptationFieldModel, ContinuityCounter, Pid,
    TransportScramblingControl, TsHeader, TsPacket, TsPacketModel, TsPayload,
};
use crate::ts::payload::{copied, Bytes};
use vstd::arithmetic::power2::lemma2_to64;
use vstd::prelude::*;

verus! {

/// The bytes that follow a length byte at the front of `s`, as many as it tells.
pub open spec fn counted_at(s: Seq<u8>) -> Result<Seq<u8>, ErrorModel> {
    if s.len() == 0 || s.len() < counted_size(s) {
        Err(eof_error())
    } else {
        Ok(s.subrange(1, counted_size(s)))
    }
}

/// The size of the length byte at the front of `s` and the bytes that it counts.
pub open spec fn counted_size(s: Seq<u8>) -> int {
    1 + s[0]
}

/// What the byte at the front of `s` denotes as a signed number.
pub open spec fn signed_byte_at(s: Seq<u8>) -> Result<i8, ErrorModel> {
    if s.len() == 0 {
        Err(eof_error())
    } else if s[0] < 0x80 {
        Ok(s[0] as i8)
    } else {
        Ok((s[0] - 0x100) as i8)
    }
}

/// What the bytes `s` behind the length of an adaptation field denote: a byte of flags, the fields
/// that they tell to be present, and stuffing.
pub open spec fn adaptation_field_at(s: Seq<u8>) -> Result<AdaptationFieldModel, ErrorModel> {
    let b = s[0];
    let s_pcr = s.skip(1);
    let s_opcr = behind(flag(b, 4), s_pcr, 6);
    let s_splice = behind(flag(b, 3), s_opcr, 6);
    let s_data = behind(flag(b, 2), s_splice, 1);
    let s_extension = behind(flag(b, 1), s_data, counted_size(s_data));
    let s_stuffing = behind(flag(b, 0), s_extension, counted_size(s_extension));
    if s.len() == 0 {
        Err(eof_error())
    } else {
        match where_present(flag(b, 4), pcr_at(s_pcr)) {
            Err(e) => Err(e),
            Ok(pcr) => match where_present(flag(b, 3), pcr_at(s_opcr)) {
                Err(e) => Err(e),
                Ok(opcr) => match where_present(flag(b, 2), signed_byte_at(s_splice)) {
                    Err(e) => Err(e),
                    Ok(splice_countdown) => match where_present(flag(b, 1), counted_at(s_data)) {
                        Err(e) => Err(e),
                        Ok(data) => match where_present(flag(b, 0), counted_at(s_extension)) {
                            Err(e) => Err(e),
                            Ok(extension) => if is_stuffing(s_stuffing) {
                                Ok(
                                    AdaptationFieldModel {
                                        discontinuity_indicator: flag(b, 7),
                                        random_access_indicator: flag(b, 6),
                                        es_priority_indicator: flag(b, 5),
                                        pcr,
                                        opcr,
                                        splice_countdown,
                                        transport_private_data: match data {
                                            Some(data) => data,
                                            None => Seq::empty(),
                                        },
                                        extension,
                                    },
                                )
                            } else {
                                Err(stuffing_error())
                            },
                        },
                    },
                },
            },
        }
    }
}

/// What two bits of transport scrambling control denote.
pub open spec fn scrambling_of(n: nat) -> Result<TransportScramblingControl, ErrorModel> {
    if n == 0 {
        Ok(TransportScramblingControl::NotScrambled)
    } else if n == 2 {
        Ok(TransportScramblingControl::ScrambledWithEvenKey)
    } else if n == 3 {
        Ok(TransportScramblingControl::ScrambledWithOddKey)
    } else {
        Err(invalid_input_error("Unexpected transport scrambling control"@))
    }
}

/// The bytes of the adaptation field of packet `p` behind its length.
pub open spec fn adaptation_bytes(p: Seq<u8>) -> Seq<u8> {
    p.skip(5).take(taken(p.skip(5), p[4] as nat))
}

/// The adaptation field of packet `p`, if the adaptation field control tells that there is one
/// and it is not empty.
pub open spec fn packet_adaptation_field(p: Seq<u8>) -> Result<
    Option<AdaptationFieldModel>,
    ErrorModel,
> {
    where_present(
        field(p[3] as nat, 5, 1) == 1 && p[4] > 0,
        adaptation_field_at(adaptation_bytes(p)),
    )
}

/// The payload of packet `p`, if the adaptation field control tells that there is one: all bytes
/// behind the header and the adaptation field.
pub open spec fn packet_payload(p: Seq<u8>) -> Option<Seq<u8>> {
    if field(p[3] as nat, 4, 1) == 1 {
        if field(p[3] as nat, 5, 1) == 1 {
            Some(p.skip(5 + adaptation_bytes(p).len() as int))
        } else {
            Some(p.skip(4))
        }
    } else {
        None
    }
}

/// What the first 188 bytes of `bytes` denote as a transport packet.
pub open spec fn packet_at(bytes: Seq<u8>) -> Result<TsPacketModel, ErrorModel> {
    let p = bytes.take(TsPacket::SIZE as int);
    if bytes.len() < TsPacket::SIZE {
        Err(eof_error())
    } else if p[0] != TsPacket::SYNC_BYTE {
        Err(invalid_input_error("Unexpected sync byte"@))
    } else {
        match scrambling_of(field(p[3] as nat, 6, 2)) {
            Err(e) => Err(e),
            Ok(transport_scrambling_control) => if field(p[3] as nat, 4, 2) == 0 {
                Err(invalid_input_error("Unexpected adaptation field control"@))
            } else {
                match packet_adaptation_field(p) {
                    Err(e) => Err(e),
                    Ok(adaptation_field) => Ok(
                        TsPacketModel {
                            transport_error_indicator: flag(p[1], 7),
                            transport_priority: flag(p[1], 5),
                            pid: field(be_value(p.subrange(1, 3)), 0, 13) as u16,
                            transport_scrambling_control,
                            continuity_counter: field(p[3] as nat, 0, 4) as u8,
                            adaptation_field,
                            payload: packet_payload(p),
                        },
                    ),
                }
            },
        }
    }
}

/// Reads, where it is present, a length byte and as many bytes as it tells.
fn read_counted_where(present: bool, reader: &mut ByteReader) -> (r: Result<Option<Vec<u8>>, Error>)
    ensures
        where_present(present, counted_at(old(reader)@)) == (match r {
            Ok(v) => Ok::<Option<Seq<u8>>, ErrorModel>(bytes_value(v)),
            Err(e) => Err(e@),
        }),
        r is Ok ==> final(reader)@ == behind(
            present,
            old(reader)@,
            counted_size(old(reader)@),
        ),
{
    if !present {
        return Ok(None);
    }
    let n: u8 = match reader.read_u8() {
        Ok(n) => n,
        Err(e) => return Err(e),
    };
    let bytes: &[u8] = reader.take(n as usize).remaining();
    if bytes.len() < n as usize {
        return Err(Error::unexpected_eof());
    }
    assert(reader@ =~= old(reader)@.skip(counted_size(old(reader)@)));
    let v: Vec<u8> = copied(bytes);
    assert(v@ =~= old(reader)@.subrange(1, counted_size(old(reader)@)));
    Ok(Some(v))
}

/// Reads a signed byte where it is present.
fn read_i8_where(present: bool, reader: &mut ByteReader) -> (r: Result<Option<i8>, Error>)
    ensures
        outcome(r) == where_present(present, signed_byte_at(old(reader)@)),
        r is Ok ==> final(reader)@ == behind(present, old(reader)@, 1),
{
    if !present {
        return Ok(None);
    }
    match reader.read_u8() {
        Ok(b) => if b < 0x80 {
            Ok(Some(b as i8))
        } else {
            Ok(Some((b as i16 - 0x100) as i8))
        },
        Err(e) => Err(e),
    }
}

/// Reads a PCR where it is present.
fn read_pcr_where(present: bool, reader: &mut ByteReader) -> (r: Result<
    Option<ClockReference>,
    Error,
>)
    ensures
        where_present(present, pcr_at(old(reader)@)) == (match r {
            Ok(c) => Ok::<Option<nat>, ErrorModel>(clock_value(c)),
            Err(e) => Err(e@),
        }),
        r is Ok ==> final(reader)@ == behind(present, old(reader)@, 6),
{
    if !present {
        return Ok(None);
    }
    match ClockReference::read_pcr_from(reader) {
        Ok(c) => Ok(Some(c)),
        Err(e) => Err(e),
    }
}

/// Reads an adaptation field from the bytes behind its length.
fn read_adaptation_field(reader: &mut ByteReader) -> (r: Result<AdaptationField, Error>)
    ensures
        outcome(r) == adaptation_field_at(old(reader)@),
{
    let b: u8 = match reader.read_u8() {
        Ok(b) => b,
        Err(e) => return Err(e),
    };
    proof {
        lemma_flags(b);
    }
    let pcr: Option<ClockReference> = match read_pcr_where((b & 0b0001_0000) != 0, reader) {
        Ok(pcr) => pcr,
        Err(e) => return Err(e),
    };
    let opcr: Option<ClockReference> = match read_pcr_where((b & 0b0000_1000) != 0, reader) {
        Ok(opcr) => opcr,
        Err(e) => return Err(e),
    };
    let splice_countdown: Option<i8> = match read_i8_where((b & 0b0000_0100) != 0, reader) {
        Ok(splice_countdown) => splice_countdown,
        Err(e) => return Err(e),
    };
    let data: Option<Vec<u8>> = match read_counted_where((b & 0b0000_0010) != 0, reader) {
        Ok(data) => data,
        Err(e) => return Err(e),
    };
    let extension: Option<Vec<u8>> = match read_counted_where((b & 0b0000_0001) != 0, reader) {
        Ok(extension) => extension,
        Err(e) => return Err(e),
    };
    match consume_stuffing_bytes(reader) {
        Ok(_) => {},
        Err(e) => return Err(e),
    }
    Ok(
        AdaptationField {
            discontinuity_indicator: (b & 0b1000_0000) != 0,
            random_access_indicator: (b & 0b0100_0000) != 0,
            es_priority_indicator: (b & 0b0010_0000) != 0,
            pcr,
            opcr,
            splice_countdown,
            transport_private_data: match data {
                Some(data) => data,
                None => Vec::new(),
            },
            extension,
        },
    )
}

/// Reads transport packets from a byte slice, one after another. Payloads are not interpreted.
///
/// Its view is the string of bytes not yet read.
#[derive(Debug, Clone, Copy)]
pub struct TsPacketReader<'a> {
    stream: ByteReader<'a>,
}

impl<'a> View for TsPacketReader<'a> {
    type V = Seq<u8>;

    closed spec fn view(&self) -> Seq<u8> {
        self.stream@
    }
}

impl<'a> TsPacketReader<'a> {
    /// Makes a new `TsPacketReader` instance.
    pub fn new(bytes: &'a [u8]) -> (r: Self)
        ensures
            r@ == bytes@,
    {
        TsPacketReader { stream: ByteReader::new(bytes) }
    }

    /// Reads a transport packet. At the end of the stream it returns `None`.
    ///
    /// # Errors
    ///
    /// If the next bytes are not a transport packet, it will return an `ErrorKind::InvalidInput`
    /// error; if the stream ends within the packet, or a field runs over the end of the
    /// adaptation field, an `ErrorKind::UnexpectedEof` error.
    pub fn read_ts_packet(&mut self) -> (r: Result<Option<TsPacket>, Error>)
        ensures
            match r {
                Ok(None) => old(self)@.len() == 0,
                Ok(Some(packet)) => old(self)@.len() > 0 && packet_at(old(self)@) == Ok::<
                    TsPacketModel,
                    ErrorModel,
                >(packet@),
                Err(e) => old(self)@.len() > 0 && packet_at(old(self)@) == Err::<
                    TsPacketModel,
                    ErrorModel,
                >(e@),
            },
            final(self)@ == old(self)@.skip(taken(old(self)@, TsPacket::SIZE as nat)),
    {
        let bytes: &[u8] = self.stream.take(TsPacket::SIZE).remaining();
        if bytes.len() == 0 {
            return Ok(None);
        }
        if bytes.len() < TsPacket::SIZE {
            return Err(Error::unexpected_eof());
        }
        assert(bytes@.take(TsPacket::SIZE as int) =~= old(self)@.take(TsPacket::SIZE as int));
        match read_packet(bytes) {
            Ok(packet) => Ok(Some(packet)),
            Err(e) => Err(e),
        }
    }
}

/// Reads the packet that `bytes` holds.
fn read_packet(bytes: &[u8]) -> (r: Result<TsPacket, Error>)
    requires
        bytes@.len() == TsPacket::SIZE,
    ensures
        outcome(r) == packet_at(bytes@),
{
    assert(bytes@.take(TsPacket::SIZE as int) =~= bytes@);
    if bytes[0] != TsPacket::SYNC_BYTE {
        return Err(Error::invalid_input("Unexpected sync byte".to_owned()));
    }
    let b: u8 = bytes[1];
    let c: u8 = bytes[3];
    proof {
        lemma_flags(b);
        lemma_control_bits(c);
    }
    let transport_scrambling_control: TransportScramblingControl = match c >> 6 {
        0 => TransportScramblingControl::NotScrambled,
        2 => TransportScramblingControl::ScrambledWithEvenKey,
        3 => TransportScramblingControl::ScrambledWithOddKey,
        _ => return Err(
            Error::invalid_input("Unexpected transport scrambling control".to_owned()),
        ),
    };
    if (c >> 4) & 0b11 == 0 {
        return Err(Error::invalid_input("Unexpected adaptation field control".to_owned()));
    }
    let mut payload_start: usize = 4;
    let mut adaptation_field: Option<AdaptationField> = None;
    if (c & 0b0010_0000) != 0 {
        let mut fields: ByteReader = ByteReader::new(&bytes[5..bytes.len()]).take(
            bytes[4] as usize,
        );
        assert(bytes@.subrange(5, bytes@.len() as int) =~= bytes@.skip(5));
        payload_start = 5 + fields.remaining().len();
        if bytes[4] > 0 {
            match read_adaptation_field(&mut fields) {
                Ok(af) => adaptation_field = Some(af),
                Err(e) => return Err(e),
            }
        }
    }
    let payload: Option<TsPayload> = if (c & 0b0001_0000) != 0 {
        assert(bytes@.subrange(payload_start as int, bytes@.len() as int) =~= bytes@.skip(
            payload_start as int,
        ));
        match Bytes::new(&bytes[payload_start..bytes.len()]) {
            Ok(payload) => Some(TsPayload::Raw(payload)),
            Err(e) => return Err(e),
        }
    } else {
        None
    };
    let n: u16 = (((b & 0x1F) as u16) << 8) | bytes[2] as u16;
    proof {
        lemma_pid_bits(b, bytes[2], n);
        assert(bytes@.subrange(1, 3) =~= seq![b, bytes@[2]]);
    }
    let pid: Pid = match Pid::new(n) {
        Ok(pid) => pid,
        Err(e) => return Err(e),
    };
    let continuity_counter: ContinuityCounter = match ContinuityCounter::from_u8(c & 0x0F) {
        Ok(counter) => counter,
        Err(e) => return Err(e),
    };
    let header: TsHeader = TsHeader {
        transport_error_indicator: (b & 0b1000_0000) != 0,
        transport_priority: (b & 0b0010_0000) != 0,
        pid,
        transport_scrambling_control,
        continuity_counter,
    };
    Ok(TsPacket { header, adaptation_field, payload })
}

/// The bits of the last byte of a packet header.
proof fn lemma_control_bits(c: u8)
    ensures
        c >> 6 == field(c as nat, 6, 2),
        (c >> 4) & 0b11 == field(c as nat, 4, 2),
        (c & 0b0010_0000 != 0) == (field(c as nat, 5, 1) == 1),
        (c & 0b0001_0000 != 0) == (field(c as nat, 4, 1) == 1),
        c & 0x0F == field(c as nat, 0, 4),
        c & 0x0F < 16,
{
    lemma2_to64();
    lemma_flags(c);
    assert(c >> 6 == c / 64 % 4 && (c >> 4) & 0b11 == c / 16 % 4 && c & 0x0F == c % 16)
        by (bit_vector);
}

/// The bits of a PID in the second and third byte of a packet.
proof fn lemma_pid_bits(high: u8, low: u8, n: u16)
    requires
        n == (((high & 0x1F) as u16) << 8) | low as u16,
    ensures
        n == field(be_value(seq![high, low]), 0, 13),
        n <= Pid::MAX,
{
    lemma2_to64();
    assert(n == (high * 256 + low) % 0x2000) by (bit_vector)
        requires
            n == (((high & 0x1F) as u16) << 8) | low as u16,
    ;
    let s = seq![high, low];
    assert(s.drop_last() =~= seq![high]);
    assert(seq![high].drop_last() =~= Seq::empty());
    reveal_with_fuel(be_value, 3);
}

} // verus!
