//! Laws of PES headers.
use crate::bytes::{
    be_bytes, be_value, behind, flag, lemma_be_bytes_len, lemma_be_value_of_be_bytes,
    lemma_byte_spans,
};
use crate::error::ErrorModel;
use crate::es::stream_id_is_its_byte;
use crate::pes::packet::{
    bare_header, carries_optional_header, dts_check_bits, dts_encoding, dts_end, escr_end,
    escr_field_encoding, field_bytes, fields_span, first_byte, first_byte_fault, fixed_encoding,
    header_at, header_encoding, header_span, is_dts_faulty, is_escr_faulty, is_pts_faulty,
    is_writable, missing, missing_field_bytes, optional_encoding, optional_fields_at, optional_size,
    payload_size, pts_check_bits, pts_encoding, pts_end, second_byte, second_byte_fault, PesHeader,
    PesHeaderModel,
};
use crate::time::laws::{
    escr_in_range, escr_round_trip, timestamp_in_range, timestamp_round_trip,
};
use crate::time::{
    clock_reference_is_its_value, escr_word, timestamp_is_its_value, timestamp_word, ClockReference,
    Timestamp,
};
use vstd::arithmetic::power2::lemma2_to64;
use vstd::prelude::*;

verus! {

/// Whether the times of a header are in the range of their types.
pub open spec fn is_in_range(h: PesHeaderModel) -> bool {
    &&& h.pts matches Some(t) ==> t <= Timestamp::MAX
    &&& h.dts matches Some(t) ==> t <= Timestamp::MAX
    &&& h.escr matches Some(c) ==> c <= ClockReference::MAX
}

/// Headers of the same model are equal.
pub proof fn header_is_its_model(a: PesHeader, b: PesHeader)
    requires
        a@ == b@,
    ensures
        a == b,
{
    stream_id_is_its_byte(a.stream_id, b.stream_id);
    if a.pts is Some {
        timestamp_is_its_value(a.pts->0, b.pts->0);
    }
    if a.dts is Some {
        timestamp_is_its_value(a.dts->0, b.dts->0);
    }
    if a.escr is Some {
        clock_reference_is_its_value(a.escr->0, b.escr->0);
    }
}

/// The length field counts what follows it: the optional header and the payload. So it leaves
/// for the payload what was added to the size of the optional header.
pub proof fn payload_follows_the_optional_header(h: PesHeaderModel, payload: nat)
    requires
        optional_size(h) + payload <= u16::MAX,
    ensures
        payload_size(h, (optional_size(h) + payload) as u16) == Ok::<Option<usize>, ErrorModel>(
            Some(payload as usize),
        ),
{
}

/// A written header has six bytes, and its optional header behind them where the stream carries
/// one.
pub proof fn written_header_size(h: PesHeaderModel, packet_len: u16)
    ensures
        header_encoding(h, packet_len).len() == 6 + (if carries_optional_header(h.stream_id) {
            optional_size(h)
        } else {
            0
        }),
{
    lemma_fixed_encoding(h.stream_id, packet_len);
    lemma_field_sizes(h);
}

/// A header that was written is read back, whatever follows it, and the reader stops behind it.
/// Of a stream that carries no optional header only the identifier and the length are kept.
pub proof fn header_round_trip(h: PesHeaderModel, packet_len: u16, rest: Seq<u8>)
    requires
        is_in_range(h),
        is_writable(h),
    ensures
        header_at(header_encoding(h, packet_len) + rest) == Ok::<(PesHeaderModel, u16), ErrorModel>(
            (
                if carries_optional_header(h.stream_id) {
                    h
                } else {
                    bare_header(h.stream_id)
                },
                packet_len,
            ),
        ),
        header_span(header_encoding(h, packet_len) + rest) == header_encoding(h, packet_len).len(),
{
    let bytes = header_encoding(h, packet_len) + rest;
    let fixed = fixed_encoding(h.stream_id, packet_len);
    lemma_fixed_encoding(h.stream_id, packet_len);
    lemma_field_sizes(h);
    assert(bytes.take(3) =~= fixed.take(3));
    assert(bytes.subrange(4, 6) =~= fixed.subrange(4, 6));
    assert(bytes[3] == fixed[3]);
    if carries_optional_header(h.stream_id) {
        lemma_leading_bytes(h);
        lemma_fields_round_trip(h);
        lemma_optional_bytes(h, packet_len, rest);
    }
}

/// Every header that is read is in range and can be written.
pub proof fn read_header_is_writable(bytes: Seq<u8>)
    ensures
        header_at(bytes) matches Ok((h, packet_len)) ==> is_in_range(h) && is_writable(h) && (
        carries_optional_header(h.stream_id) || h == bare_header(h.stream_id)),
{
    if header_at(bytes) is Ok && carries_optional_header(bytes[3]) {
        let b = bytes[7];
        let s = field_bytes(bytes);
        let s_dts = behind(flag(b, 7), s, 5);
        let s_escr = behind(flag(b, 6), s_dts, 5);
        timestamp_in_range(be_value(s.take(5)));
        timestamp_in_range(be_value(s_dts.take(5)));
        escr_in_range(be_value(s_escr.take(6)));
    }
}

/// A header that was read is written and read back unchanged.
pub proof fn read_header_is_kept(bytes: Seq<u8>, rest: Seq<u8>)
    requires
        header_at(bytes) is Ok,
    ensures
        ({
            let (h, packet_len) = header_at(bytes)->Ok_0;
            header_at(header_encoding(h, packet_len) + rest) == header_at(bytes)
        }),
{
    let (h, packet_len) = header_at(bytes)->Ok_0;
    read_header_is_writable(bytes);
    header_round_trip(h, packet_len, rest);
}

/// Once nothing is missing, what follows has no part in the header that is read, nor in where
/// the reader stops.
pub proof fn nothing_missing_is_final(bytes: Seq<u8>, rest: Seq<u8>)
    requires
        missing(bytes) == 0,
    ensures
        header_at(bytes + rest) == header_at(bytes),
        header_span(bytes + rest) == header_span(bytes),
        header_span(bytes) <= bytes.len(),
{
    let all = bytes + rest;
    assert(all.take(3) =~= bytes.take(3));
    if bytes.len() >= 6 {
        assert(all.subrange(4, 6) =~= bytes.subrange(4, 6));
    }
    if bytes.len() >= 9 && missing_field_bytes(bytes[7], bytes[8] as nat, field_bytes(bytes)) == 0 {
        let have = field_bytes(bytes).len();
        assert(field_bytes(bytes) =~= field_bytes(all).take(have as int));
        lemma_fields_are_final(bytes[7], bytes[8] as nat, field_bytes(all), have);
    }
}

/// Fetching what is missing never takes a byte from behind the header: where the stream has as
/// many, reading the header takes them all.
pub proof fn missing_bytes_are_of_the_header(stream: Seq<u8>, n: nat)
    requires
        n <= stream.len(),
        n + missing(stream.take(n as int)) <= stream.len(),
        missing(stream.take(n as int)) > 0,
    ensures
        header_span(stream) >= n + missing(stream.take(n as int)),
{
    let bytes = stream.take(n as int);
    if n >= 3 {
        assert(bytes.take(3) =~= stream.take(3));
    }
    if n >= 9 {
        let have = field_bytes(bytes).len();
        assert(field_bytes(bytes) =~= field_bytes(stream).take(have as int));
        lemma_missing_bytes_are_of_the_fields(
            bytes[7],
            bytes[8] as nat,
            field_bytes(stream),
            have,
        );
    }
}

/// The first `have` of the field bytes `s` tell of each field that ends among them whether it can
/// be read.
proof fn lemma_front_fields(b: u8, s: Seq<u8>, have: nat)
    requires
        have <= s.len(),
    ensures
        pts_end(b) <= have ==> is_pts_faulty(b, s.take(have as int)) == is_pts_faulty(b, s),
        dts_end(b) <= have ==> is_dts_faulty(b, s.take(have as int)) == is_dts_faulty(b, s),
        escr_end(b) <= have ==> is_escr_faulty(b, s.take(have as int)) == is_escr_faulty(b, s),
{
    let front = s.take(have as int);
    if flag(b, 7) && pts_end(b) <= have {
        assert(front.take(5) =~= s.take(5));
    }
    if flag(b, 6) && dts_end(b) <= have {
        let at = pts_end(b) as int;
        assert(front.skip(at).take(5) =~= s.skip(at).take(5));
    }
    if flag(b, 5) && escr_end(b) <= have {
        let at = dts_end(b) as int;
        assert(front.skip(at).take(6) =~= s.skip(at).take(6));
    }
}

/// Once nothing is missing of the fields, the field bytes that follow have no part in them.
proof fn lemma_fields_are_final(b: u8, limit: nat, s: Seq<u8>, have: nat)
    requires
        have <= s.len() <= limit,
        missing_field_bytes(b, limit, s.take(have as int)) == 0,
    ensures
        optional_fields_at(b, s) == optional_fields_at(b, s.take(have as int)),
        fields_span(b, s) == fields_span(b, s.take(have as int)),
{
    let front = s.take(have as int);
    if have == limit {
        assert(front =~= s);
    } else {
        lemma_front_fields(b, s, have);
        let at = pts_end(b) as int;
        if at <= have {
            assert(front.take(5) =~= s.take(5) || have < 5);
            assert(behind(flag(b, 7), s, 5) =~= s.skip(at));
            assert(behind(flag(b, 7), front, 5) =~= front.skip(at));
        }
        if dts_end(b) <= have {
            assert(front.skip(at).take(5) =~= s.skip(at).take(5) || have < at + 5);
        }
        if escr_end(b) <= have {
            let at = dts_end(b) as int;
            assert(behind(flag(b, 6), behind(flag(b, 7), s, 5), 5) =~= s.skip(at));
            assert(behind(flag(b, 6), behind(flag(b, 7), front, 5), 5) =~= front.skip(at));
            assert(front.skip(at).take(6) =~= s.skip(at).take(6) || have < at + 6);
        }
    }
}

/// Reading the fields takes the bytes that are missing of them.
proof fn lemma_missing_bytes_are_of_the_fields(b: u8, limit: nat, s: Seq<u8>, have: nat)
    requires
        have + missing_field_bytes(b, limit, s.take(have as int)) <= s.len() <= limit,
        missing_field_bytes(b, limit, s.take(have as int)) > 0,
    ensures
        fields_span(b, s) >= have + missing_field_bytes(b, limit, s.take(have as int)),
{
    lemma_front_fields(b, s, have);
}

/// The first six bytes of a written header, taken apart.
pub proof fn lemma_fixed_encoding(stream_id: u8, packet_len: u16)
    ensures
        fixed_encoding(stream_id, packet_len).len() == 6,
        be_value(fixed_encoding(stream_id, packet_len).take(3)) == 1,
        fixed_encoding(stream_id, packet_len)[3] == stream_id,
        be_value(fixed_encoding(stream_id, packet_len).subrange(4, 6)) == packet_len,
{
    lemma_byte_spans();
    lemma_be_bytes_len(1, 3);
    lemma_be_bytes_len(packet_len as nat, 2);
    lemma_be_value_of_be_bytes(1, 3);
    lemma_be_value_of_be_bytes(packet_len as nat, 2);
    let fixed = fixed_encoding(stream_id, packet_len);
    assert(fixed.take(3) =~= be_bytes(1, 3));
    assert(fixed.subrange(4, 6) =~= be_bytes(packet_len as nat, 2));
}

/// The optional fields have the sizes that the optional header's size counts.
pub proof fn lemma_field_sizes(h: PesHeaderModel)
    ensures
        pts_encoding(h).len() == (if h.pts is Some { 5nat } else { 0 }),
        dts_encoding(h).len() == (if h.dts is Some { 5nat } else { 0 }),
        escr_field_encoding(h).len() == (if h.escr is Some { 6nat } else { 0 }),
        optional_encoding(h).len() == optional_size(h),
{
    if let Some(t) = h.pts {
        lemma_be_bytes_len(
            timestamp_word(t, pts_check_bits(h.dts is Some)),
            5,
        );
    }
    if let Some(t) = h.dts {
        lemma_be_bytes_len(timestamp_word(t, dts_check_bits()), 5);
    }
    if let Some(c) = h.escr {
        lemma_be_bytes_len(escr_word(c), 6);
    }
}

/// The flags of a written header are read back and have no fault.
pub proof fn lemma_leading_bytes(h: PesHeaderModel)
    requires
        h.dts is Some ==> h.pts is Some,
    ensures
        first_byte_fault(first_byte(h)) is None,
        flag(first_byte(h), 3) == h.priority,
        flag(first_byte(h), 2) == h.data_alignment_indicator,
        flag(first_byte(h), 1) == h.copyright,
        flag(first_byte(h), 0) == h.original_or_copy,
        second_byte_fault(second_byte(h)) is None,
        flag(second_byte(h), 7) == h.pts is Some,
        flag(second_byte(h), 6) == h.dts is Some,
        flag(second_byte(h), 5) == h.escr is Some,
{
    lemma2_to64();
}

/// The fields of a written header are read back.
pub proof fn lemma_fields_round_trip(h: PesHeaderModel)
    requires
        is_in_range(h),
        h.dts is Some ==> h.pts is Some,
    ensures
        optional_fields_at(
            second_byte(h),
            pts_encoding(h) + dts_encoding(h) + escr_field_encoding(h),
        ) == Ok::<(Option<nat>, Option<nat>, Option<nat>), ErrorModel>((h.pts, h.dts, h.escr)),
{
    lemma_leading_bytes(h);
    lemma_field_sizes(h);
    let none = Seq::<u8>::empty();
    let s_escr = escr_field_encoding(h);
    let s_dts = dts_encoding(h) + s_escr;
    let s = pts_encoding(h) + dts_encoding(h) + escr_field_encoding(h);
    assert(s =~= pts_encoding(h) + s_dts);
    if let Some(t) = h.pts {
        timestamp_round_trip(t, pts_check_bits(h.dts is Some), s_dts);
        assert(s.skip(5) =~= s_dts);
    } else {
        assert(s =~= s_dts);
    }
    if let Some(t) = h.dts {
        timestamp_round_trip(t, dts_check_bits(), s_escr);
        assert(s_dts.skip(5) =~= s_escr);
    } else {
        assert(s_dts =~= s_escr);
    }
    if let Some(c) = h.escr {
        escr_round_trip(c, none);
        assert(s_escr + none =~= s_escr);
    }
}

/// The bytes of a written header behind the first six, taken apart.
pub proof fn lemma_optional_bytes(h: PesHeaderModel, packet_len: u16, rest: Seq<u8>)
    requires
        carries_optional_header(h.stream_id),
    ensures
        ({
            let bytes = header_encoding(h, packet_len) + rest;
            &&& bytes.len() >= 6 + optional_size(h)
            &&& bytes[6] == first_byte(h)
            &&& bytes[7] == second_byte(h)
            &&& bytes[8] == optional_size(h) - 3
            &&& field_bytes(bytes) == pts_encoding(h) + dts_encoding(h) + escr_field_encoding(h)
        }),
{
    lemma_fixed_encoding(h.stream_id, packet_len);
    lemma_field_sizes(h);
    let bytes = header_encoding(h, packet_len) + rest;
    let fixed = fixed_encoding(h.stream_id, packet_len);
    let optional = optional_encoding(h);
    let fields = pts_encoding(h) + dts_encoding(h) + escr_field_encoding(h);
    assert(bytes.skip(6) =~= optional + rest);
    assert(bytes[6] == bytes.skip(6)[0]);
    assert(bytes[7] == bytes.skip(6)[1]);
    assert(bytes[8] == bytes.skip(6)[2]);
    assert(optional =~= seq![first_byte(h), second_byte(h), (optional_size(h) - 3) as u8] + fields);
    assert(bytes.skip(9) =~= fields + rest);
    assert(field_bytes(bytes) =~= fields);
}

} // verus!
