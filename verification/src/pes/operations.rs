//! What the operations on PES headers do, stated of their arguments and results.
use crate::bytes::operations::{lemma_three_bytes, lemma_two_bytes};
use crate::bytes::{be_value, behind, field, flag, is_stuffing, ByteReader};
use crate::error::{
    eof_error, invalid_input_error, is_eof, is_invalid_input, is_unsupported, unsupported_error,
    Error, ErrorModel,
};
use crate::es::stream_id_is_its_byte;
use crate::pes::laws::{
    header_is_its_model, is_in_range, lemma_field_sizes, lemma_fixed_encoding,
    lemma_leading_bytes, lemma_optional_bytes, missing_bytes_are_of_the_header,
    nothing_missing_is_final,
};
use crate::pes::packet::{
    carries_optional_header, dts_check_bits, dts_encoding, dts_end, escr_end, escr_field_encoding,
    field_bytes, fields_span, first_byte, first_byte_fault, fixed_encoding, header_at,
    header_encoding, header_span, optional_fields_at, pts_check_bits, pts_encoding, pts_end,
    second_byte, second_byte_fault, PesHeader, PesHeaderModel,
};
use crate::text::{decimal, hexadecimal};
use crate::time::operations::{
    are_escr_bytes, escr_base_bits, escr_extension_bits, has_escr_markers, has_timestamp_markers,
    lemma_escr_at, lemma_escr_bytes, lemma_timestamp_at, lemma_timestamp_bytes, timestamp_bits,
};
use crate::time::{escr_at, timestamp_at};
use vstd::arithmetic::power2::lemma2_to64;
use vstd::prelude::*;

verus! {

/// Whether packets of the stream have no optional header: the program stream map and directory, the
/// padding stream, private stream 2, ECM, EMM, DSM-CC and H.222.1 type E.
pub open spec fn is_bare(stream_id: u8) -> bool {
    ||| stream_id == 0xBC
    ||| stream_id == 0xBE
    ||| stream_id == 0xBF
    ||| stream_id == 0xF0
    ||| stream_id == 0xF1
    ||| stream_id == 0xF2
    ||| stream_id == 0xF8
    ||| stream_id == 0xFF
}

/// The size of a PTS where the flags `b` announce one.
pub open spec fn pts_size(b: u8) -> int {
    if b / 128 == 1 {
        5
    } else {
        0
    }
}

/// The size of a DTS where the flags `b` announce one.
pub open spec fn dts_size(b: u8) -> int {
    if b / 64 % 2 == 1 {
        5
    } else {
        0
    }
}

/// The size of an ESCR where the flags `b` announce one.
pub open spec fn escr_size(b: u8) -> int {
    if b / 32 % 2 == 1 {
        6
    } else {
        0
    }
}

/// Where the field bytes of an optional header end in `s`: as far on as the ninth byte tells, or at
/// the end if that comes first.
pub open spec fn fields_end(s: Seq<u8>) -> int {
    if 9 + s[8] <= s.len() {
        9 + s[8]
    } else {
        s.len() as int
    }
}

/// Whether the bytes of `s` from `from` up to `to` are all ones.
pub open spec fn are_ones(s: Seq<u8>, from: int, to: int) -> bool {
    forall|i: int| from <= i < to ==> s[i] == 0xFF
}

/// Whether `s` begins with an optional header behind the six fixed bytes, as far as its first nine
/// bytes tell: start code prefix, a stream that has one, marker bits and flags without a fault.
pub open spec fn announces_fields(s: Seq<u8>) -> bool {
    &&& s.len() >= 9
    &&& s[0] == 0 && s[1] == 0 && s[2] == 1
    &&& !is_bare(s[3])
    &&& s[6] / 16 == 8
    &&& s[7] / 64 != 1
    &&& s[7] % 32 == 0
}

/// The values of PTS, DTS and ESCR, as far as they are present.
pub type Times = (Option<nat>, Option<nat>, Option<nat>);

/// Exactly the packets of eight streams have no optional header.
pub proof fn eight_streams_have_no_optional_header(stream_id: u8)
    ensures
        carries_optional_header(stream_id) <==> !(stream_id == 0xBC || stream_id == 0xBE
            || stream_id == 0xBF || stream_id == 0xF0 || stream_id == 0xF1 || stream_id == 0xF2
            || stream_id == 0xF8 || stream_id == 0xFF),
{
}

/// Whenever a header is read, its parts are those of the bytes: the fourth byte tells the stream,
/// the next two the packet length, high byte first. Of a stream without an optional header nothing
/// else is read and no field is set. Otherwise the seventh byte holds the four flags, the eighth
/// tells which times are present, and they stand one behind the other from the tenth byte on, PTS,
/// DTS and ESCR, each in its own bits, with nothing but ones behind them up to the end of the
/// fields. The reader stops there.
pub proof fn read_header_is_that_of_the_bytes(
    reader: &mut ByteReader,
    r: Result<(PesHeader, u16), Error>,
)
    requires
        call_ensures(PesHeader::read_from, (reader,), r),
        r is Ok,
    ensures
        ({
            let s = old(reader)@;
            let (h, packet_len) = r->Ok_0;
            &&& s.len() >= 6
            &&& s[0] == 0 && s[1] == 0 && s[2] == 1
            &&& h.stream_id@ == s[3]
            &&& packet_len == s[4] * 256 + s[5]
            &&& is_bare(s[3]) ==> {
                &&& !h.priority && !h.data_alignment_indicator
                &&& !h.copyright && !h.original_or_copy
                &&& h.pts is None && h.dts is None && h.escr is None
                &&& final(reader)@ == s.skip(6)
            }
            &&& !is_bare(s[3]) ==> {
                let at_dts = 9 + pts_size(s[7]);
                let at_escr = at_dts + dts_size(s[7]);
                let at_stuffing = at_escr + escr_size(s[7]);
                &&& announces_fields(s)
                &&& h.priority == (s[6] / 8 % 2 == 1)
                &&& h.data_alignment_indicator == (s[6] / 4 % 2 == 1)
                &&& h.copyright == (s[6] / 2 % 2 == 1)
                &&& h.original_or_copy == (s[6] % 2 == 1)
                &&& match h.pts {
                    Some(t) => {
                        &&& s[7] / 128 == 1
                        &&& s[9] / 16 == (if h.dts is Some { 3int } else { 2 })
                        &&& has_timestamp_markers(s, 9)
                        &&& t@ == timestamp_bits(s, 9)
                    },
                    None => s[7] / 128 == 0,
                }
                &&& match h.dts {
                    Some(t) => {
                        &&& s[7] / 64 == 3
                        &&& s[at_dts] / 16 == 1
                        &&& has_timestamp_markers(s, at_dts)
                        &&& t@ == timestamp_bits(s, at_dts)
                    },
                    None => s[7] / 64 % 2 == 0,
                }
                &&& match h.escr {
                    Some(c) => {
                        &&& s[7] / 32 % 2 == 1
                        &&& s[at_escr] < 64
                        &&& has_escr_markers(s, at_escr)
                        &&& c@ == escr_base_bits(s, at_escr) * 300 + escr_extension_bits(s, at_escr)
                    },
                    None => s[7] / 32 % 2 == 0,
                }
                &&& at_stuffing <= fields_end(s)
                &&& are_ones(s, at_stuffing, fields_end(s))
                &&& final(reader)@ == s.skip(fields_end(s))
            }
        }),
{
    let s = old(reader)@;
    lemma_fixed_bytes(s);
    if !is_bare(s[3]) {
        lemma_first_byte_fault(s[6]);
        lemma_second_byte_fault(s[7]);
        lemma_first_flags(s[6]);
        lemma_fields(s);
    }
}

/// Up to the flags of the optional header, a header is refused for the first fault that shows, with
/// the error of that fault, and the reader has taken the bytes up to the end of the faulty element.
/// A stream without an optional header has no fault behind its first six bytes.
pub proof fn faults_before_the_fields_are_told(
    reader: &mut ByteReader,
    r: Result<(PesHeader, u16), Error>,
)
    requires
        call_ensures(PesHeader::read_from, (reader,), r),
    ensures
        ({
            let s = old(reader)@;
            let rest = final(reader)@;
            if s.len() < 3 {
                (r matches Err(e) && is_eof(e)) && rest.len() == 0
            } else if !(s[0] == 0 && s[1] == 0 && s[2] == 1) {
                (r matches Err(e) && is_invalid_input(
                    e,
                    "Expected packet start code prefix 0x000001, got 0x"@ + hexadecimal(
                        (s[0] * 0x1_0000 + s[1] * 0x100 + s[2]) as nat,
                        6,
                    ),
                )) && rest == s.skip(3)
            } else if s.len() < 6 {
                (r matches Err(e) && is_eof(e)) && rest.len() == 0
            } else if is_bare(s[3]) {
                r is Ok && rest == s.skip(6)
            } else if s.len() < 7 {
                (r matches Err(e) && is_eof(e)) && rest.len() == 0
            } else if s[6] / 64 != 2 {
                (r matches Err(e) && is_invalid_input(e, "Unexpected marker bits"@)) && rest
                    == s.skip(7)
            } else if s[6] / 16 % 4 != 0 {
                (r matches Err(e) && is_unsupported(e, "Scrambling control is not supported"@))
                    && rest == s.skip(7)
            } else if s.len() < 8 {
                (r matches Err(e) && is_eof(e)) && rest.len() == 0
            } else if s[7] / 64 == 1 {
                (r matches Err(e) && is_invalid_input(e, "DTS cannot be present without PTS"@))
                    && rest == s.skip(8)
            } else if s[7] / 16 % 2 == 1 {
                (r matches Err(e) && is_unsupported(e, "ES rate flag is not supported"@)) && rest
                    == s.skip(8)
            } else if s[7] / 8 % 2 == 1 {
                (r matches Err(e) && is_unsupported(e, "DSM trick mode flag is not supported"@))
                    && rest == s.skip(8)
            } else if s[7] / 4 % 2 == 1 {
                (r matches Err(e) && is_unsupported(
                    e,
                    "Additional copy info flag is not supported"@,
                )) && rest == s.skip(8)
            } else if s[7] / 2 % 2 == 1 {
                (r matches Err(e) && is_unsupported(e, "CRC flag is not supported"@)) && rest
                    == s.skip(8)
            } else if s[7] % 2 == 1 {
                (r matches Err(e) && is_unsupported(e, "Extension flag is not supported"@)) && rest
                    == s.skip(8)
            } else if s.len() < 9 {
                (r matches Err(e) && is_eof(e)) && rest.len() == 0
            } else {
                announces_fields(s)
            }
        }),
{
    let s = old(reader)@;
    lemma_fixed_bytes(s);
    lemma_prefix_text();
    if s.len() >= 7 {
        lemma_first_byte_fault(s[6]);
    }
    if s.len() >= 8 {
        lemma_second_byte_fault(s[7]);
    }
}

/// A header whose first nine bytes are sound is read if and only if each time that is announced
/// is there before the fields end, begins with its prefix and has its marker bits, and only ones
/// follow. Otherwise it is refused for the first time that is at fault, or for the stuffing, and
/// the reader has taken the bytes up to the end of that element.
pub proof fn faults_of_the_fields_are_told(
    reader: &mut ByteReader,
    r: Result<(PesHeader, u16), Error>,
)
    requires
        call_ensures(PesHeader::read_from, (reader,), r),
        announces_fields(old(reader)@),
    ensures
        ({
            let s = old(reader)@;
            let rest = final(reader)@;
            let has_pts = s[7] / 128 == 1;
            let has_dts = s[7] / 64 % 2 == 1;
            let has_escr = s[7] / 32 % 2 == 1;
            let at_dts = 9 + pts_size(s[7]);
            let at_escr = at_dts + dts_size(s[7]);
            let at_stuffing = at_escr + escr_size(s[7]);
            let end = fields_end(s);
            if has_pts && end < at_dts {
                (r matches Err(e) && is_eof(e)) && rest == s.skip(end)
            } else if has_pts && s[9] / 16 != (if has_dts { 3int } else { 2 }) {
                (r matches Err(e) && is_invalid_input(
                    e,
                    "Expected check_bits: "@ + decimal(if has_dts { 3nat } else { 2 }) + ", got: "@
                        + decimal((s[9] / 16) as nat),
                )) && rest == s.skip(at_dts)
            } else if has_pts && !has_timestamp_markers(s, 9) {
                (r matches Err(e) && is_invalid_input(e, "Unexpected marker bit"@)) && rest
                    == s.skip(at_dts)
            } else if has_dts && end < at_escr {
                (r matches Err(e) && is_eof(e)) && rest == s.skip(end)
            } else if has_dts && s[at_dts] / 16 != 1 {
                (r matches Err(e) && is_invalid_input(
                    e,
                    "Expected check_bits: "@ + decimal(1) + ", got: "@ + decimal(
                        (s[at_dts] / 16) as nat,
                    ),
                )) && rest == s.skip(at_escr)
            } else if has_dts && !has_timestamp_markers(s, at_dts) {
                (r matches Err(e) && is_invalid_input(e, "Unexpected marker bit"@)) && rest
                    == s.skip(at_escr)
            } else if has_escr && end < at_stuffing {
                (r matches Err(e) && is_eof(e)) && rest == s.skip(end)
            } else if has_escr && s[at_escr] >= 64 {
                (r matches Err(e) && is_invalid_input(e, "Expected zero in reserved bits"@)) && rest
                    == s.skip(at_stuffing)
            } else if has_escr && !has_escr_markers(s, at_escr) {
                (r matches Err(e) && is_invalid_input(e, "Unexpected marker bit"@)) && rest
                    == s.skip(at_stuffing)
            } else if !are_ones(s, at_stuffing, end) {
                (r matches Err(e) && is_invalid_input(e, "Unexpected stuffing byte"@)) && rest
                    == s.skip(end)
            } else {
                r is Ok && rest == s.skip(end)
            }
        }),
{
    let s = old(reader)@;
    lemma_fixed_bytes(s);
    lemma_first_byte_fault(s[6]);
    lemma_second_byte_fault(s[7]);
    lemma_fields(s);
}

/// The times of a header are in the range of their types.
pub open spec fn has_times_in_range(h: PesHeader) -> bool {
    &&& h.pts matches Some(t) ==> t@ < 0x2_0000_0000
    &&& h.dts matches Some(t) ==> t@ < 0x2_0000_0000
    &&& h.escr matches Some(c) ==> c@ <= 0x1_FFFF_FFFF * 300 + 0x1FF
}

/// The weight `weight` if `set`, and zero otherwise.
pub open spec fn weight_if(set: bool, weight: int) -> int {
    if set {
        weight
    } else {
        0
    }
}

/// Writing a header leaves what stood before and appends the start code prefix, the stream
/// identifier and the given length, high byte first. For a stream without an optional header that
/// is all. Otherwise the flags of the header, the flags of the times that are present and the size
/// of these follow, then the times themselves, PTS, DTS and ESCR, each in its own bits; nothing
/// stands behind them. A DTS without a PTS is refused when the flags of the header are written.
pub proof fn header_is_written_in_its_bytes(
    h: PesHeader,
    writer: &mut Vec<u8>,
    n: u16,
    r: Result<(), Error>,
)
    requires
        has_times_in_range(h),
        call_ensures(PesHeader::write_to, (&h, writer, n), r),
    ensures
        ({
            let s = final(writer)@.skip(old(writer)@.len() as int);
            &&& final(writer)@.len() >= old(writer)@.len()
            &&& final(writer)@.take(old(writer)@.len() as int) == old(writer)@
            &&& s.len() >= 6
            &&& s[0] == 0 && s[1] == 0 && s[2] == 1
            &&& s[3] == h.stream_id@
            &&& s[4] == n / 256 && s[5] == n % 256
            &&& is_bare(h.stream_id@) ==> r is Ok && s.len() == 6
            &&& !is_bare(h.stream_id@) ==> s.len() >= 7 && s[6] == 0x80 + weight_if(h.priority, 8)
                + weight_if(h.data_alignment_indicator, 4) + weight_if(h.copyright, 2) + weight_if(
                h.original_or_copy,
                1,
            )
            &&& !is_bare(h.stream_id@) && h.dts is Some && h.pts is None ==> {
                &&& r matches Err(e) && is_invalid_input(e, "DTS cannot be present without PTS"@)
                &&& s.len() == 7
            }
            &&& !is_bare(h.stream_id@) && !(h.dts is Some && h.pts is None) ==> {
                let at_dts = 9 + weight_if(h.pts is Some, 5);
                let at_escr = at_dts + weight_if(h.dts is Some, 5);
                &&& r is Ok
                &&& s.len() == at_escr + weight_if(h.escr is Some, 6)
                &&& s[7] == weight_if(h.pts is Some, 0x80) + weight_if(h.dts is Some, 0x40)
                    + weight_if(h.escr is Some, 0x20)
                &&& s[8] == s.len() - 9
                &&& h.pts matches Some(t) ==> {
                    &&& s[9] / 16 == (if h.dts is Some { 3int } else { 2 })
                    &&& has_timestamp_markers(s, 9)
                    &&& timestamp_bits(s, 9) == t@
                }
                &&& h.dts matches Some(t) ==> {
                    &&& s[at_dts] / 16 == 1
                    &&& has_timestamp_markers(s, at_dts)
                    &&& timestamp_bits(s, at_dts) == t@
                }
                &&& h.escr matches Some(c) ==> are_escr_bytes(s, at_escr, c@)
            }
        }),
{
    let s = final(writer)@.skip(old(writer)@.len() as int);
    lemma_fixed_encoding(h.stream_id@, n);
    if !is_bare(h.stream_id@) && h.dts is Some && h.pts is None {
        let fixed = fixed_encoding(h.stream_id@, n);
        assert(s =~= fixed + seq![first_byte(h@)]);
        assert(s.take(3) =~= fixed.take(3));
        assert(s.subrange(4, 6) =~= fixed.subrange(4, 6));
    } else {
        assert(s =~= header_encoding(h@, n));
        lemma_written_start(h@, n);
        if !is_bare(h.stream_id@) {
            lemma_written_times(h@, n);
        }
    }
    lemma_three_bytes(s.take(3));
    lemma_two_bytes(s.subrange(4, 6));
}

/// Stuffing has no part in a header. A header that was written is read back as it was, with the
/// length that was given, also when any number of ones that the ninth byte can count is put behind
/// its fields and counted there; the reader stops behind them, whatever follows.
pub proof fn written_header_is_read_back_behind_any_stuffing(
    h: PesHeader,
    writer: &mut Vec<u8>,
    n: u16,
    written: Result<(), Error>,
    stuffing: nat,
    rest: Seq<u8>,
    reader: &mut ByteReader,
    r: Result<(PesHeader, u16), Error>,
)
    requires
        has_times_in_range(h),
        !is_bare(h.stream_id@),
        h.dts is Some ==> h.pts is Some,
        old(writer)@.len() == 0,
        call_ensures(PesHeader::write_to, (&h, writer, n), written),
        final(writer)@[8] + stuffing <= 255,
        old(reader)@ == final(writer)@.update(8, (final(writer)@[8] + stuffing) as u8) + Seq::new(
            stuffing,
            |i: int| 0xFFu8,
        ) + rest,
        call_ensures(PesHeader::read_from, (reader,), r),
    ensures
        written is Ok,
        r == Ok::<(PesHeader, u16), Error>((h, n)),
        final(reader)@ == rest,
{
    assert(final(writer)@ =~= header_encoding(h@, n));
    stuffing_has_no_part_in_a_header(h@, n, stuffing, rest);
    header_is_its_model(r->Ok_0.0, h);
}

/// Stuffing has no part in the header that is read of its encoding, nor in what follows it.
pub proof fn stuffing_has_no_part_in_a_header(h: PesHeaderModel, n: u16, stuffing: nat, rest: Seq<u8>)
    requires
        is_in_range(h),
        carries_optional_header(h.stream_id),
        h.dts is Some ==> h.pts is Some,
        header_encoding(h, n)[8] + stuffing <= 255,
    ensures
        ({
            let s = header_encoding(h, n);
            let t = s.update(8, (s[8] + stuffing) as u8) + Seq::new(stuffing, |i: int| 0xFFu8)
                + rest;
            &&& header_at(t) == Ok::<(PesHeaderModel, u16), ErrorModel>((h, n))
            &&& t.skip(header_span(t)) == rest
        }),
{
    let s = header_encoding(h, n);
    let t = s.update(8, (s[8] + stuffing) as u8) + Seq::new(stuffing, |i: int| 0xFFu8) + rest;
    lemma_written_start(h, n);
    lemma_written_times(h, n);
    assert(t.take(3) =~= s.take(3));
    assert(t.subrange(4, 6) =~= s.subrange(4, 6));
    assert(t[3] == s[3] && t[6] == s[6] && t[7] == s[7]);
    lemma_stuffed_fields(h, n, s, t, stuffing);
    lemma_leading_bytes(h);
    assert(t.skip((s.len() + stuffing) as int) =~= rest);
}

/// What is read of the fields of a written header with stuffing behind them.
proof fn lemma_stuffed_fields(h: PesHeaderModel, n: u16, s: Seq<u8>, t: Seq<u8>, stuffing: nat)
    requires
        is_in_range(h),
        carries_optional_header(h.stream_id),
        h.dts is Some ==> h.pts is Some,
        s == header_encoding(h, n),
        t.len() >= s.len() + stuffing,
        t[7] == s[7],
        t[8] == s[8] + stuffing,
        forall|i: int| 9 <= i < s.len() ==> #[trigger] t[i] == s[i],
        forall|i: int| s.len() <= i < s.len() + stuffing ==> #[trigger] t[i] == 0xFF,
    ensures
        optional_fields_at(t[7], field_bytes(t)) == Ok::<Times, ErrorModel>(
            (h.pts, h.dts, h.escr),
        ),
        9 + fields_span(t[7], field_bytes(t)) == s.len() + stuffing,
{
    lemma_written_times(h, n);
    lemma_leading_bytes(h);
    lemma_second_flags(s[7]);
    lemma_second_byte_fault(s[7]);
    lemma_same_times(s, t, h);
    lemma_fields(t);
}

/// Of a written header of a stream without an optional header the identifier and the length are
/// read back, and the reader stops behind it, whatever follows.
pub proof fn written_bare_header_is_read_back(
    h: PesHeader,
    writer: &mut Vec<u8>,
    n: u16,
    written: Result<(), Error>,
    rest: Seq<u8>,
    reader: &mut ByteReader,
    r: Result<(PesHeader, u16), Error>,
)
    requires
        is_bare(h.stream_id@),
        old(writer)@.len() == 0,
        call_ensures(PesHeader::write_to, (&h, writer, n), written),
        old(reader)@ == final(writer)@ + rest,
        call_ensures(PesHeader::read_from, (reader,), r),
    ensures
        written is Ok,
        r matches Ok((g, m)) && g.stream_id == h.stream_id && m == n,
        final(reader)@ == rest,
{
    let s = header_encoding(h@, n);
    let t = old(reader)@;
    assert(final(writer)@ =~= s);
    lemma_written_start(h@, n);
    assert(t.take(3) =~= s.take(3));
    assert(t.subrange(4, 6) =~= s.subrange(4, 6));
    assert(t[3] == s[3]);
    assert(t.skip(6) =~= rest);
    stream_id_is_its_byte(r->Ok_0.0.stream_id, h.stream_id);
}

/// The times of a written header stand in the same places where stuffing was put behind them.
proof fn lemma_same_times(s: Seq<u8>, t: Seq<u8>, h: PesHeaderModel)
    requires
        9 <= s.len() <= t.len(),
        s.len() == 9 + weight_if(h.pts is Some, 5) + weight_if(h.dts is Some, 5) + weight_if(
            h.escr is Some,
            6,
        ),
        forall|i: int| 9 <= i < s.len() ==> #[trigger] t[i] == s[i],
    ensures
        ({
            let at_dts = 9 + weight_if(h.pts is Some, 5);
            let at_escr = at_dts + weight_if(h.dts is Some, 5);
            &&& h.pts is Some ==> {
                &&& t[9] == s[9]
                &&& has_timestamp_markers(t, 9) == has_timestamp_markers(s, 9)
                &&& timestamp_bits(t, 9) == timestamp_bits(s, 9)
            }
            &&& h.dts is Some ==> {
                &&& t[at_dts] == s[at_dts]
                &&& has_timestamp_markers(t, at_dts) == has_timestamp_markers(s, at_dts)
                &&& timestamp_bits(t, at_dts) == timestamp_bits(s, at_dts)
            }
            &&& h.escr is Some ==> {
                &&& t[at_escr] == s[at_escr]
                &&& has_escr_markers(t, at_escr) == has_escr_markers(s, at_escr)
                &&& escr_base_bits(t, at_escr) == escr_base_bits(s, at_escr)
                &&& escr_extension_bits(t, at_escr) == escr_extension_bits(s, at_escr)
            }
        }),
{
}

/// The elementary stream payload is what a packet length leaves behind the optional header, whose
/// size is three bytes, five more for each of PTS and DTS and six for the ESCR. A length of zero
/// tells nothing of it, and a smaller one is refused.
pub proof fn payload_is_what_the_optional_header_leaves(
    h: PesHeader,
    n: u16,
    size: u16,
    r: Result<Option<usize>, Error>,
)
    requires
        call_ensures(PesHeader::optional_header_len, (&h,), size),
        call_ensures(PesHeader::es_payload_len, (&h, n), r),
    ensures
        size == 3 + weight_if(h.pts is Some, 5) + weight_if(h.dts is Some, 5) + weight_if(
            h.escr is Some,
            6,
        ),
        match r {
            Ok(None) => n == 0,
            Ok(Some(payload)) => n != 0 && size + payload == n,
            Err(e) => 0 < n < size && is_invalid_input(
                e,
                "pes.pes_packet_len="@ + decimal(n as nat) + ", optional_header_len="@ + decimal(
                    size as nat,
                ),
            ),
        },
{
}

/// The six bytes that a written header begins with.
proof fn lemma_written_start(h: PesHeaderModel, n: u16)
    ensures
        header_encoding(h, n).len() >= 6,
        header_encoding(h, n)[3] == h.stream_id,
        be_value(header_encoding(h, n).take(3)) == 1,
        be_value(header_encoding(h, n).subrange(4, 6)) == n,
        !carries_optional_header(h.stream_id) ==> header_encoding(h, n).len() == 6,
{
    let s = header_encoding(h, n);
    let fixed = fixed_encoding(h.stream_id, n);
    lemma_fixed_encoding(h.stream_id, n);
    assert(s.take(3) =~= fixed.take(3));
    assert(s.subrange(4, 6) =~= fixed.subrange(4, 6));
}

/// The bytes of a written optional header.
proof fn lemma_written_times(h: PesHeaderModel, n: u16)
    requires
        is_in_range(h),
        carries_optional_header(h.stream_id),
    ensures
        ({
            let s = header_encoding(h, n);
            let at_dts = 9 + weight_if(h.pts is Some, 5);
            let at_escr = at_dts + weight_if(h.dts is Some, 5);
            &&& s.len() == at_escr + weight_if(h.escr is Some, 6)
            &&& s[6] == first_byte(h)
            &&& s[7] == second_byte(h)
            &&& s[8] == s.len() - 9
            &&& h.pts matches Some(t) ==> {
                &&& s[9] / 16 == (if h.dts is Some { 3int } else { 2 })
                &&& has_timestamp_markers(s, 9)
                &&& timestamp_bits(s, 9) == t
            }
            &&& h.dts matches Some(t) ==> {
                &&& s[at_dts] / 16 == 1
                &&& has_timestamp_markers(s, at_dts)
                &&& timestamp_bits(s, at_dts) == t
            }
            &&& h.escr matches Some(c) ==> are_escr_bytes(s, at_escr, c)
        }),
{
    let s = header_encoding(h, n);
    let at_dts = 9 + weight_if(h.pts is Some, 5);
    let at_escr = at_dts + weight_if(h.dts is Some, 5);
    lemma_field_sizes(h);
    lemma_fixed_encoding(h.stream_id, n);
    assert(s + Seq::<u8>::empty() =~= s);
    lemma_optional_bytes(h, n, Seq::empty());
    let f = field_bytes(s);
    assert(f =~= s.skip(9));
    if let Some(t) = h.pts {
        let bytes = pts_encoding(h);
        lemma_timestamp_bytes(t, pts_check_bits(h.dts is Some));
        assert(s.subrange(9, 14) =~= bytes);
        assert forall|i: int| 0 <= i < 5 implies #[trigger] s[9 + i] == bytes[i] by {
            assert(s.subrange(9, 14)[i] == bytes[i]);
        }
        assert(s[9int + 0] == bytes[0]);
    }
    if let Some(t) = h.dts {
        let bytes = dts_encoding(h);
        lemma_timestamp_bytes(t, dts_check_bits());
        assert(s.subrange(at_dts, at_dts + 5) =~= bytes);
        assert forall|i: int| 0 <= i < 5 implies #[trigger] s[at_dts + i] == bytes[i] by {
            assert(s.subrange(at_dts, at_dts + 5)[i] == bytes[i]);
        }
        assert(s[at_dts + 0] == bytes[0]);
    }
    if let Some(c) = h.escr {
        let bytes = escr_field_encoding(h);
        lemma_escr_bytes(c);
        assert(s.subrange(at_escr, at_escr + 6) =~= bytes);
        assert forall|i: int| 0 <= i < 6 implies #[trigger] s[at_escr + i] == bytes[i] by {
            assert(s.subrange(at_escr, at_escr + 6)[i] == bytes[i]);
        }
        assert(s[at_escr + 0] == bytes[0]);
    }
}

/// The six fixed bytes.
proof fn lemma_fixed_bytes(s: Seq<u8>)
    ensures
        s.len() >= 3 ==> be_value(s.take(3)) == s[0] * 0x1_0000 + s[1] * 0x100 + s[2],
        s.len() >= 6 ==> be_value(s.subrange(4, 6)) == s[4] * 0x100 + s[5],
{
    if s.len() >= 3 {
        lemma_three_bytes(s.take(3));
    }
    if s.len() >= 6 {
        lemma_two_bytes(s.subrange(4, 6));
    }
}

/// The prefix that is due, in the reason for one that is not there.
proof fn lemma_prefix_text()
    ensures
        "Expected packet start code prefix 0x"@ + hexadecimal(1, 6) + ", got 0x"@
            == "Expected packet start code prefix 0x000001, got 0x"@,
{
    reveal_strlit("Expected packet start code prefix 0x");
    reveal_strlit(", got 0x");
    reveal_strlit("Expected packet start code prefix 0x000001, got 0x");
    reveal_strlit("0123456789abcdef");
    reveal_with_fuel(hexadecimal, 7);
}

/// The bits of the first byte of an optional header.
proof fn lemma_first_flags(b: u8)
    ensures
        field(b as nat, 6, 2) == b / 64,
        field(b as nat, 4, 2) == b / 16 % 4,
        flag(b, 3) == (b / 8 % 2 == 1),
        flag(b, 2) == (b / 4 % 2 == 1),
        flag(b, 1) == (b / 2 % 2 == 1),
        flag(b, 0) == (b % 2 == 1),
{
    lemma2_to64();
}

/// The bits of the second byte of an optional header.
proof fn lemma_second_flags(b: u8)
    ensures
        flag(b, 7) == (b / 128 == 1),
        flag(b, 6) == (b / 64 % 2 == 1),
        flag(b, 5) == (b / 32 % 2 == 1),
        flag(b, 4) == (b / 16 % 2 == 1),
        flag(b, 3) == (b / 8 % 2 == 1),
        flag(b, 2) == (b / 4 % 2 == 1),
        flag(b, 1) == (b / 2 % 2 == 1),
        flag(b, 0) == (b % 2 == 1),
{
    lemma2_to64();
}

/// The faults of the first byte of an optional header.
proof fn lemma_first_byte_fault(b: u8)
    ensures
        first_byte_fault(b) == (if b / 64 != 2 {
            Some(invalid_input_error("Unexpected marker bits"@))
        } else if b / 16 % 4 != 0 {
            Some(unsupported_error("Scrambling control is not supported"@))
        } else {
            None
        }),
        first_byte_fault(b) is None <==> b / 16 == 8,
{
    lemma_first_flags(b);
}

/// The faults of the second byte of an optional header.
proof fn lemma_second_byte_fault(b: u8)
    ensures
        second_byte_fault(b) == (if b / 64 == 1 {
            Some(invalid_input_error("DTS cannot be present without PTS"@))
        } else if b / 16 % 2 == 1 {
            Some(unsupported_error("ES rate flag is not supported"@))
        } else if b / 8 % 2 == 1 {
            Some(unsupported_error("DSM trick mode flag is not supported"@))
        } else if b / 4 % 2 == 1 {
            Some(unsupported_error("Additional copy info flag is not supported"@))
        } else if b / 2 % 2 == 1 {
            Some(unsupported_error("CRC flag is not supported"@))
        } else if b % 2 == 1 {
            Some(unsupported_error("Extension flag is not supported"@))
        } else {
            None
        }),
        second_byte_fault(b) is None <==> b / 64 != 1 && b % 32 == 0,
{
    lemma_second_flags(b);
}

/// Once nothing is missing of a header, what follows in the stream has no part in what is read, nor
/// in how many bytes are taken.
pub proof fn header_is_final_once_nothing_is_missing<'a, 'b>(
    bytes: &[u8],
    reader: &mut ByteReader<'a>,
    r: Result<(PesHeader, u16), Error>,
    longer: &mut ByteReader<'b>,
    q: Result<(PesHeader, u16), Error>,
)
    requires
        call_ensures(PesHeader::missing_bytes, (bytes,), 0usize),
        old(reader)@ == bytes@,
        call_ensures(PesHeader::read_from, (reader,), r),
        bytes@ == old(longer)@.take(bytes@.len() as int),
        bytes@.len() <= old(longer)@.len(),
        call_ensures(PesHeader::read_from, (longer,), q),
    ensures
        match (r, q) {
            (Ok(a), Ok(b)) => a == b,
            (Err(e), Err(f)) => e.kind == f.kind && e.reason@ == f.reason@,
            _ => false,
        },
        old(reader)@.len() - final(reader)@.len() == old(longer)@.len() - final(longer)@.len(),
{
    let rest = old(longer)@.skip(bytes@.len() as int);
    assert(old(longer)@ =~= bytes@ + rest);
    nothing_missing_is_final(bytes@, rest);
    if let Ok((g, _)) = r {
        header_is_its_model(g, q->Ok_0.0);
    }
}

/// The bytes that are missing are bytes of the header: where the stream has them, reading the
/// header takes them.
pub proof fn missing_bytes_are_taken_by_reading(
    bytes: &[u8],
    n: usize,
    reader: &mut ByteReader,
    r: Result<(PesHeader, u16), Error>,
)
    requires
        call_ensures(PesHeader::missing_bytes, (bytes,), n),
        n > 0,
        bytes@.len() + n <= old(reader)@.len(),
        bytes@ == old(reader)@.take(bytes@.len() as int),
        call_ensures(PesHeader::read_from, (reader,), r),
    ensures
        old(reader)@.len() - final(reader)@.len() >= bytes@.len() + n,
{
    missing_bytes_are_of_the_header(old(reader)@, bytes@.len());
}

/// Up to the flags of the optional header, the bytes that are missing are those up to the end of
/// the element that is being read: start code prefix, stream identifier and packet length together,
/// then one byte after the other. None is missing behind a fault, nor behind the six bytes of a
/// stream without an optional header.
pub proof fn missing_bytes_lead_to_the_fields(bytes: &[u8], n: usize)
    requires
        call_ensures(PesHeader::missing_bytes, (bytes,), n),
    ensures
        ({
            let s = bytes@;
            if s.len() < 3 {
                n == 3 - s.len()
            } else if !(s[0] == 0 && s[1] == 0 && s[2] == 1) {
                n == 0
            } else if s.len() < 6 {
                n == 6 - s.len()
            } else if is_bare(s[3]) {
                n == 0
            } else if s.len() < 7 {
                n == 1
            } else if s[6] / 16 != 8 {
                n == 0
            } else if s.len() < 8 {
                n == 1
            } else if s[7] / 64 == 1 || s[7] % 32 != 0 {
                n == 0
            } else if s.len() < 9 {
                n == 1
            } else {
                announces_fields(s)
            }
        }),
{
    let s = bytes@;
    lemma_fixed_bytes(s);
    if s.len() >= 7 {
        lemma_first_byte_fault(s[6]);
    }
    if s.len() >= 8 {
        lemma_second_byte_fault(s[7]);
    }
}

/// Among the fields, the bytes that are missing are those up to the end of the next time that is
/// announced, or else of the stuffing, and never one from behind the fields. None is missing behind
/// a time that is at fault.
pub proof fn missing_bytes_lead_through_the_fields(bytes: &[u8], n: usize)
    requires
        call_ensures(PesHeader::missing_bytes, (bytes,), n),
        announces_fields(bytes@),
    ensures
        ({
            let s = bytes@;
            let has_pts = s[7] / 128 == 1;
            let has_dts = s[7] / 64 % 2 == 1;
            let has_escr = s[7] / 32 % 2 == 1;
            let at_dts = 9 + pts_size(s[7]);
            let at_escr = at_dts + dts_size(s[7]);
            let at_stuffing = at_escr + escr_size(s[7]);
            let end = 9 + s[8];
            if s.len() >= end {
                n == 0
            } else if has_pts && s.len() < at_dts {
                n == lesser(at_dts, end) - s.len()
            } else if has_pts && !(s[9] / 16 == (if has_dts { 3int } else { 2 })
                && has_timestamp_markers(s, 9)) {
                n == 0
            } else if has_dts && s.len() < at_escr {
                n == lesser(at_escr, end) - s.len()
            } else if has_dts && !(s[at_dts] / 16 == 1 && has_timestamp_markers(s, at_dts)) {
                n == 0
            } else if has_escr && s.len() < at_stuffing {
                n == lesser(at_stuffing, end) - s.len()
            } else if has_escr && !(s[at_escr] < 64 && has_escr_markers(s, at_escr)) {
                n == 0
            } else {
                n == end - s.len()
            }
        }),
{
    let s = bytes@;
    let b = s[7];
    lemma_fixed_bytes(s);
    lemma_first_byte_fault(s[6]);
    lemma_second_byte_fault(b);
    lemma_second_flags(b);
    lemma_places(s);
    lemma_timestamp_in_fields(s, 0, pts_check_bits(flag(b, 6)));
    let at_dts = 9 + pts_size(b);
    let at_escr = at_dts + dts_size(b);
    if at_dts <= fields_end(s) {
        lemma_timestamp_in_fields(s, at_dts - 9, 1);
    }
    if at_escr <= fields_end(s) {
        lemma_escr_in_fields(s, at_escr - 9);
    }
}

/// The lesser of two numbers.
pub open spec fn lesser(a: int, b: int) -> int {
    if a <= b {
        a
    } else {
        b
    }
}

/// The timestamp `k` bytes behind the start of the fields.
proof fn lemma_timestamp_in_fields(s: Seq<u8>, k: int, check_bits: nat)
    requires
        s.len() >= 9,
        0 <= k,
        9 + k <= fields_end(s),
    ensures
        timestamp_at(field_bytes(s).skip(k), check_bits) == (if fields_end(s) < 9 + k + 5 {
            Err::<nat, ErrorModel>(eof_error())
        } else if s[9 + k] / 16 != check_bits {
            Err(
                invalid_input_error(
                    "Expected check_bits: "@ + decimal(check_bits) + ", got: "@ + decimal(
                        (s[9 + k] / 16) as nat,
                    ),
                ),
            )
        } else if has_timestamp_markers(s, 9 + k) {
            Ok(timestamp_bits(s, 9 + k) as nat)
        } else {
            Err(invalid_input_error("Unexpected marker bit"@))
        }),
        fields_end(s) >= 9 + k + 5 ==> timestamp_bits(s, 9 + k) >= 0,
{
    let t = field_bytes(s).skip(k);
    if fields_end(s) >= 9 + k + 5 {
        lemma_timestamp_at(t, check_bits);
        assert(t[0] == s[9 + k] && t[1] == s[9 + k + 1] && t[2] == s[9 + k + 2] && t[3] == s[9 + k
            + 3] && t[4] == s[9 + k + 4]);
    }
}

/// The ESCR `k` bytes behind the start of the fields.
proof fn lemma_escr_in_fields(s: Seq<u8>, k: int)
    requires
        s.len() >= 9,
        0 <= k,
        9 + k <= fields_end(s),
    ensures
        escr_at(field_bytes(s).skip(k)) == (if fields_end(s) < 9 + k + 6 {
            Err::<nat, ErrorModel>(eof_error())
        } else if s[9 + k] >= 64 {
            Err(invalid_input_error("Expected zero in reserved bits"@))
        } else if has_escr_markers(s, 9 + k) {
            Ok((escr_base_bits(s, 9 + k) * 300 + escr_extension_bits(s, 9 + k)) as nat)
        } else {
            Err(invalid_input_error("Unexpected marker bit"@))
        }),
        fields_end(s) >= 9 + k + 6 ==> escr_base_bits(s, 9 + k) * 300 + escr_extension_bits(
            s,
            9 + k,
        ) >= 0,
{
    let t = field_bytes(s).skip(k);
    if fields_end(s) >= 9 + k + 6 {
        lemma_escr_at(t);
        assert(t[0] == s[9 + k] && t[1] == s[9 + k + 1] && t[2] == s[9 + k + 2] && t[3] == s[9 + k
            + 3] && t[4] == s[9 + k + 4] && t[5] == s[9 + k + 5]);
    }
}

/// Where the fields of an optional header stand.
proof fn lemma_places(s: Seq<u8>)
    requires
        s.len() >= 9,
    ensures
        ({
            let b = s[7];
            let f = field_bytes(s);
            let end = fields_end(s);
            let at_dts = 9 + pts_size(b);
            let at_escr = at_dts + dts_size(b);
            let at_stuffing = at_escr + escr_size(b);
            let f_dts = behind(flag(b, 7), f, 5);
            let f_escr = behind(flag(b, 6), f_dts, 5);
            let f_stuffing = behind(flag(b, 5), f_escr, 6);
            &&& f.len() == end - 9
            &&& f == f.skip(0)
            &&& pts_end(b) == at_dts - 9
            &&& dts_end(b) == at_escr - 9
            &&& escr_end(b) == at_stuffing - 9
            &&& at_dts <= end ==> f_dts == f.skip(at_dts - 9)
            &&& at_escr <= end ==> f_escr == f.skip(at_escr - 9)
            &&& at_stuffing <= end ==> f_stuffing == f.skip(at_stuffing - 9)
            &&& at_stuffing <= end ==> (is_stuffing(f_stuffing) <==> are_ones(s, at_stuffing, end))
        }),
{
    let b = s[7];
    let f = field_bytes(s);
    let end = fields_end(s);
    lemma_second_flags(b);
    assert(f == f.skip(0));
    let at_dts = 9 + pts_size(b);
    let at_escr = at_dts + dts_size(b);
    let at_stuffing = at_escr + escr_size(b);
    let f_dts = behind(flag(b, 7), f, 5);
    let f_escr = behind(flag(b, 6), f_dts, 5);
    let f_stuffing = behind(flag(b, 5), f_escr, 6);
    if at_dts <= end {
        assert(f_dts =~= f.skip(at_dts - 9));
    }
    if at_escr <= end {
        assert(f_escr =~= f.skip(at_escr - 9));
    }
    if at_stuffing <= end {
        assert(f_stuffing =~= f.skip(at_stuffing - 9));
        if is_stuffing(f_stuffing) {
            assert forall|i: int| at_stuffing <= i < end implies s[i] == 0xFF by {
                assert(f_stuffing[i - at_stuffing] == 0xFF);
            }
        }
        if are_ones(s, at_stuffing, end) {
            assert forall|i: int| 0 <= i < f_stuffing.len() implies f_stuffing[i] == 0xFF by {
                assert(f_stuffing[i] == s[at_stuffing + i]);
            }
        }
    }
}

/// What the fields of an optional header denote, and how many of their bytes reading them takes.
proof fn lemma_fields(s: Seq<u8>)
    requires
        s.len() >= 9,
        s[7] / 64 != 1,
    ensures
        ({
            let has_pts = s[7] / 128 == 1;
            let has_dts = s[7] / 64 % 2 == 1;
            let has_escr = s[7] / 32 % 2 == 1;
            let at_dts = 9 + pts_size(s[7]);
            let at_escr = at_dts + dts_size(s[7]);
            let at_stuffing = at_escr + escr_size(s[7]);
            let end = fields_end(s);
            let fields = optional_fields_at(s[7], field_bytes(s));
            let span = 9 + fields_span(s[7], field_bytes(s));
            let prefix: nat = if has_dts { 3 } else { 2 };
            let no_marker = invalid_input_error("Unexpected marker bit"@);
            if has_pts && end < at_dts {
                fields == Err::<Times, ErrorModel>(eof_error()) && span == end
            } else if has_pts && s[9] / 16 != prefix {
                fields == Err::<Times, ErrorModel>(
                    invalid_input_error(
                        "Expected check_bits: "@ + decimal(prefix) + ", got: "@ + decimal(
                            (s[9] / 16) as nat,
                        ),
                    ),
                ) && span == at_dts
            } else if has_pts && !has_timestamp_markers(s, 9) {
                fields == Err::<Times, ErrorModel>(no_marker) && span == at_dts
            } else if has_dts && end < at_escr {
                fields == Err::<Times, ErrorModel>(eof_error()) && span == end
            } else if has_dts && s[at_dts] / 16 != 1 {
                fields == Err::<Times, ErrorModel>(
                    invalid_input_error(
                        "Expected check_bits: "@ + decimal(1) + ", got: "@ + decimal(
                            (s[at_dts] / 16) as nat,
                        ),
                    ),
                ) && span == at_escr
            } else if has_dts && !has_timestamp_markers(s, at_dts) {
                fields == Err::<Times, ErrorModel>(no_marker) && span == at_escr
            } else if has_escr && end < at_stuffing {
                fields == Err::<Times, ErrorModel>(eof_error()) && span == end
            } else if has_escr && s[at_escr] >= 64 {
                fields == Err::<Times, ErrorModel>(
                    invalid_input_error("Expected zero in reserved bits"@),
                ) && span == at_stuffing
            } else if has_escr && !has_escr_markers(s, at_escr) {
                fields == Err::<Times, ErrorModel>(no_marker) && span == at_stuffing
            } else if !are_ones(s, at_stuffing, end) {
                fields == Err::<Times, ErrorModel>(
                    invalid_input_error("Unexpected stuffing byte"@),
                ) && span == end
            } else {
                &&& at_stuffing <= end
                &&& fields == Ok::<Times, ErrorModel>(
                    (
                        if has_pts {
                            Some(timestamp_bits(s, 9) as nat)
                        } else {
                            None
                        },
                        if has_dts {
                            Some(timestamp_bits(s, at_dts) as nat)
                        } else {
                            None
                        },
                        if has_escr {
                            Some(
                                (escr_base_bits(s, at_escr) * 300 + escr_extension_bits(s, at_escr))
                                    as nat,
                            )
                        } else {
                            None
                        },
                    ),
                )
                &&& has_pts ==> timestamp_bits(s, 9) >= 0
                &&& has_dts ==> timestamp_bits(s, at_dts) >= 0
                &&& has_escr ==> escr_base_bits(s, at_escr) * 300 + escr_extension_bits(s, at_escr)
                    >= 0
                &&& span == end
            }
        }),
{
    let b = s[7];
    let end = fields_end(s);
    let at_dts = 9 + pts_size(b);
    let at_escr = at_dts + dts_size(b);
    lemma_second_flags(b);
    lemma_places(s);
    lemma_timestamp_in_fields(s, 0, pts_check_bits(flag(b, 6)));
    if at_dts <= end {
        lemma_timestamp_in_fields(s, at_dts - 9, 1);
    }
    if at_escr <= end {
        lemma_escr_in_fields(s, at_escr - 9);
    }
}

} // verus!
