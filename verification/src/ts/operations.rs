//! What the operations on transport packets do, stated of their arguments and results.
use crate::bytes::operations::lemma_two_bytes;
use crate::bytes::{be_value, behind, field, flag, is_stuffing};
use crate::error::{eof_error, invalid_input_error, is_eof, is_invalid_input, Error, ErrorModel};
use crate::text::decimal;
use crate::time::operations::{lemma_pcr_at, pcr_base_bits, pcr_extension_bits};
use crate::time::pcr_at;
use crate::ts::cc::{CcChecker, CcStatus};
use crate::ts::packet::{
    counter_is_its_value, ContinuityCounter, Pid, TsPacket,
};
use crate::ts::payload::{copied, Bytes};
use crate::ts::reader::{
    adaptation_bytes, adaptation_field_at, counted_at, counted_size, signed_byte_at,
    TsPacketReader,
};
use vstd::arithmetic::power2::lemma2_to64;
use vstd::prelude::*;

verus! {

/// Whether the packet has an adaptation field with the discontinuity indicator set.
pub open spec fn is_signalled(packet: TsPacket) -> bool {
    packet.adaptation_field matches Some(af) && af.discontinuity_indicator
}

/// Whether the packet counts in the sequence of its PID: it has a payload and signals no
/// discontinuity.
pub open spec fn is_counted(packet: TsPacket) -> bool {
    packet.payload is Some && !is_signalled(packet)
}

/// A PID keeps the number that it is made of, and one is made of every number of 13 bits and of no
/// other.
pub proof fn pids_have_13_bits(n: u16, r: Result<Pid, Error>, pid: Pid, m: u16)
    requires
        call_ensures(Pid::new, (n,), r),
        call_ensures(Pid::as_u16, (&pid,), m),
    ensures
        match r {
            Ok(pid) => n < 0x2000 && pid@ == n,
            Err(e) => n >= 0x2000 && is_invalid_input(e, "Too large PID: "@ + decimal(n as nat)),
        },
        m == pid@,
{
}

/// A continuity counter keeps the number that it is made of, and one is made of every number of
/// four bits and of no other.
pub proof fn counters_have_4_bits(
    n: u8,
    r: Result<ContinuityCounter, Error>,
    counter: ContinuityCounter,
    m: u8,
)
    requires
        call_ensures(ContinuityCounter::from_u8, (n,), r),
        call_ensures(ContinuityCounter::as_u8, (&counter,), m),
    ensures
        match r {
            Ok(counter) => n < 16 && counter@ == n,
            Err(e) => n >= 16 && is_invalid_input(e, "Too large counter: "@ + decimal(n as nat)),
        },
        m == counter@,
{
}

/// Incrementing a continuity counter adds one, and leads from the greatest back to zero.
pub proof fn incremented_counter_is_the_next(counter: &mut ContinuityCounter)
    requires
        old(counter)@ < 16,
        call_ensures(ContinuityCounter::increment, (counter,), ()),
    ensures
        old(counter)@ < 15 ==> final(counter)@ == old(counter)@ + 1,
        old(counter)@ == 15 ==> final(counter)@ == 0,
{
}

/// Payload bytes are kept as they are, and are accepted if and only if they fit behind the four
/// bytes of a packet header.
pub proof fn payload_keeps_its_bytes(
    bytes: &[u8],
    r: Result<Bytes, Error>,
    payload: Bytes,
    slice: &[u8],
    copy: Bytes,
    vec: Vec<u8>,
)
    requires
        call_ensures(Bytes::new, (bytes,), r),
        call_ensures(Bytes::as_slice, (&payload,), slice),
        call_ensures(Bytes::clone, (&payload,), copy),
        call_ensures(copied, (bytes,), vec),
    ensures
        match r {
            Ok(kept) => bytes@.len() <= 188 - 4 && kept@ == bytes@,
            Err(e) => bytes@.len() > 188 - 4 && is_invalid_input(
                e,
                "Too large payload: "@ + decimal(bytes@.len()),
            ),
        },
        slice@ == payload@,
        copy@ == payload@,
        vec@ == bytes@,
{
}

/// A packet without payload is accepted and leaves the checker as it was.
pub proof fn packet_without_payload_changes_nothing(
    checker: &mut CcChecker,
    packet: TsPacket,
    status: CcStatus,
)
    requires
        packet.payload is None,
        call_ensures(CcChecker::check, (checker, &packet), status),
    ensures
        status is Continuous,
        final(checker)@ == old(checker)@,
{
}

/// A packet with payload gets the status of a reset if and only if its adaptation field has the
/// discontinuity indicator set. The checker then forgets the PID of the packet; from any other
/// packet with payload it learns its counter. What it knows of other PIDs stays.
pub proof fn checker_remembers_the_counter_of_the_pid(
    checker: &mut CcChecker,
    packet: TsPacket,
    status: CcStatus,
)
    requires
        packet.payload is Some,
        call_ensures(CcChecker::check, (checker, &packet), status),
    ensures
        status is Reset <==> is_signalled(packet),
        is_signalled(packet) ==> final(checker)@ == old(checker)@.remove(packet.header.pid@),
        !is_signalled(packet) ==> final(checker)@ == old(checker)@.insert(
            packet.header.pid@,
            packet.header.continuity_counter@,
        ),
{
}

/// Of two packets with payload and without a signal, one after the other on one PID, whatever the
/// checker has seen before, the second is accepted if and only if its counter is that of the first
/// or the next one, around from 15 to 0. Otherwise a discontinuity is reported, with the next
/// counter as the expected one and that of the packet as the one it got.
pub proof fn counter_follows_that_of_the_packet_before(
    checker: &mut CcChecker,
    first: TsPacket,
    first_status: CcStatus,
    later: &mut CcChecker,
    second: TsPacket,
    second_status: CcStatus,
)
    requires
        is_counted(first),
        is_counted(second),
        first.header.pid == second.header.pid,
        first.header.continuity_counter@ < 16,
        call_ensures(CcChecker::check, (checker, &first), first_status),
        *old(later) == *final(checker),
        call_ensures(CcChecker::check, (later, &second), second_status),
    ensures
        ({
            let counter = first.header.continuity_counter@;
            let next: int = if counter == 15 {
                0
            } else {
                counter + 1
            };
            let got = second.header.continuity_counter@;
            if got == counter || got == next {
                second_status is Continuous
            } else {
                second_status matches CcStatus::Discontinuity { expected, got: told } && expected@
                    == next && told@ == got
            }
        }),
{
}

/// After a signalled discontinuity in a packet with payload, the next packet on its PID that has a
/// payload and no signal is accepted with any counter.
pub proof fn signalled_discontinuity_begins_anew(
    checker: &mut CcChecker,
    first: TsPacket,
    first_status: CcStatus,
    later: &mut CcChecker,
    second: TsPacket,
    second_status: CcStatus,
)
    requires
        first.payload is Some,
        is_signalled(first),
        is_counted(second),
        first.header.pid == second.header.pid,
        call_ensures(CcChecker::check, (checker, &first), first_status),
        *old(later) == *final(checker),
        call_ensures(CcChecker::check, (later, &second), second_status),
    ensures
        first_status is Reset,
        second_status is Continuous,
{
}

/// A new checker, however it is made, accepts any packet that signals no discontinuity with a
/// payload.
pub proof fn new_checker_accepts_any_counter(
    new: CcChecker,
    default: CcChecker,
    checker: &mut CcChecker,
    packet: TsPacket,
    status: CcStatus,
)
    requires
        call_ensures(CcChecker::new, (), new),
        call_ensures(<CcChecker as Default>::default, (), default),
        *old(checker) == new || *old(checker) == default,
        packet.payload is None || !is_signalled(packet),
        call_ensures(CcChecker::check, (checker, &packet), status),
    ensures
        status is Continuous,
{
}

/// A checker takes nothing from a packet but its PID, its counter, whether it has a payload and
/// whether it signals a discontinuity: packets that agree in these get the same status and leave
/// the same behind, whatever their other fields are.
pub proof fn checker_takes_four_things_from_a_packet(
    checker: &mut CcChecker,
    packet: TsPacket,
    status: CcStatus,
    other_checker: &mut CcChecker,
    other: TsPacket,
    other_status: CcStatus,
)
    requires
        old(checker)@ == old(other_checker)@,
        packet.header.pid@ == other.header.pid@,
        packet.header.continuity_counter@ == other.header.continuity_counter@,
        packet.payload is Some == other.payload is Some,
        is_signalled(packet) == is_signalled(other),
        call_ensures(CcChecker::check, (checker, &packet), status),
        call_ensures(CcChecker::check, (other_checker, &other), other_status),
    ensures
        status == other_status,
        final(checker)@ == final(other_checker)@,
{
    if let CcStatus::Discontinuity { expected, got } = status {
        if let CcStatus::Discontinuity { expected: other_expected, got: other_got } = other_status {
            counter_is_its_value(expected, other_expected);
            counter_is_its_value(got, other_got);
        }
    }
}

/// A packet on another PID in between has no effect on the status of a packet.
pub proof fn packet_on_another_pid_has_no_effect(
    between: &mut CcChecker,
    other: TsPacket,
    other_status: CcStatus,
    behind: &mut CcChecker,
    status: CcStatus,
    without: &mut CcChecker,
    same_status: CcStatus,
    packet: TsPacket,
)
    requires
        packet.header.pid@ != other.header.pid@,
        call_ensures(CcChecker::check, (between, &other), other_status),
        *old(behind) == *final(between),
        call_ensures(CcChecker::check, (behind, &packet), status),
        *old(without) == *old(between),
        call_ensures(CcChecker::check, (without, &packet), same_status),
    ensures
        status == same_status,
{
    if let CcStatus::Discontinuity { expected, got } = status {
        if let CcStatus::Discontinuity { expected: same_expected, got: same_got } = same_status {
            counter_is_its_value(expected, same_expected);
            counter_is_its_value(got, same_got);
        }
    }
}

/// A new packet reader hands out the packets of all the bytes of its slice.
pub proof fn new_packet_reader_holds_all_bytes<'a>(bytes: &'a [u8], reader: TsPacketReader<'a>)
    requires
        call_ensures(TsPacketReader::<'a>::new, (bytes,), reader),
    ensures
        reader@ == bytes@,
{
}

/// Whether the packet `s` has an adaptation field, as the second bit of its control tells.
pub open spec fn has_adaptation_field(s: Seq<u8>) -> bool {
    s[3] / 32 % 2 == 1
}

/// Where the adaptation field of the packet `s` ends, and the payload begins: as far behind the
/// length byte as this tells, or at the end of the packet if that comes first.
pub open spec fn adaptation_end(s: Seq<u8>) -> int {
    if s[4] <= 183 {
        5 + s[4]
    } else {
        188
    }
}

/// Whether the bit of the given weight is set in `b`.
#[verifier::opaque]
pub open spec fn is_set(b: u8, weight: u8) -> bool {
    b / weight % 2 == 1
}

/// Where the OPCR of an adaptation field stands: behind the flags, and the PCR if there is one.
pub open spec fn opcr_place(s: Seq<u8>) -> int {
    if is_set(s[5], 16) {
        12
    } else {
        6
    }
}

/// Where the splice countdown of an adaptation field stands: behind the OPCR, if there is one.
pub open spec fn splice_place(s: Seq<u8>) -> int {
    if is_set(s[5], 8) {
        opcr_place(s) + 6
    } else {
        opcr_place(s)
    }
}

/// Where the private data of an adaptation field stand, with their length in front: behind the
/// splice countdown, if there is one.
pub open spec fn data_place(s: Seq<u8>) -> int {
    if is_set(s[5], 4) {
        splice_place(s) + 1
    } else {
        splice_place(s)
    }
}

/// Where the extension of an adaptation field stands, with its length in front: behind the private
/// data, if there are any.
pub open spec fn extension_place(s: Seq<u8>) -> int {
    if is_set(s[5], 2) {
        data_place(s) + 1 + s[data_place(s)]
    } else {
        data_place(s)
    }
}

/// Where the stuffing of an adaptation field begins: behind the extension, if there is one.
pub open spec fn stuffing_place(s: Seq<u8>) -> int {
    if is_set(s[5], 1) {
        extension_place(s) + 1 + s[extension_place(s)]
    } else {
        extension_place(s)
    }
}

/// Whether the fields that the flags of an adaptation field announce end before it does.
pub open spec fn adaptation_fields_fit(s: Seq<u8>) -> bool {
    let end = adaptation_end(s);
    &&& data_place(s) <= end
    &&& is_set(s[5], 2) ==> data_place(s) < end
    &&& extension_place(s) <= end
    &&& is_set(s[5], 1) ==> extension_place(s) < end
    &&& stuffing_place(s) <= end
}

/// Whether the bytes of `s` from `from` up to `to` are all ones.
pub open spec fn are_ones(s: Seq<u8>, from: int, to: int) -> bool {
    forall|i: int| from <= i < to ==> s[i] == 0xFF
}

/// Reading a packet takes 188 bytes, or all if there are fewer. At the end of the stream there is
/// none. It fails if and only if the bytes are too few, or do not begin with the synchronization
/// byte, or have a reserved value of the scrambling or the adaptation field control, or an
/// adaptation field whose fields do not fit in it or are not followed by ones only.
pub proof fn packet_is_read_or_refused(
    reader: &mut TsPacketReader,
    r: Result<Option<TsPacket>, Error>,
)
    requires
        call_ensures(TsPacketReader::read_ts_packet, (reader,), r),
    ensures
        ({
            let s = old(reader)@;
            if s.len() == 0 {
                r matches Ok(None) && final(reader)@.len() == 0
            } else if s.len() < 188 {
                (r matches Err(e) && is_eof(e)) && final(reader)@.len() == 0
            } else {
                &&& final(reader)@ == s.skip(188)
                &&& if s[0] != 0x47 {
                    r matches Err(e) && is_invalid_input(e, "Unexpected sync byte"@)
                } else if s[3] / 64 == 1 {
                    r matches Err(e) && is_invalid_input(
                        e,
                        "Unexpected transport scrambling control"@,
                    )
                } else if s[3] / 16 % 4 == 0 {
                    r matches Err(e) && is_invalid_input(e, "Unexpected adaptation field control"@)
                } else if has_adaptation_field(s) && s[4] > 0 && !adaptation_fields_fit(s) {
                    r matches Err(e) && is_eof(e)
                } else if has_adaptation_field(s) && s[4] > 0 && !are_ones(
                    s,
                    stuffing_place(s),
                    adaptation_end(s),
                ) {
                    r matches Err(e) && is_invalid_input(e, "Unexpected stuffing byte"@)
                } else {
                    r matches Ok(Some(_))
                }
            }
        }),
{
    let s = old(reader)@;
    if s.len() >= 188 {
        lemma_control(s[3]);
        lemma_adaptation_bytes(s);
        if s[4] > 0 {
            lemma_adaptation_faults(s);
        }
    }
}

/// The header of a packet that is read is told by its first four bytes, and the payload is what
/// follows the header, or the adaptation field if there is one, up to the end of the packet.
pub proof fn read_packet_is_that_of_the_bytes(
    reader: &mut TsPacketReader,
    r: Result<Option<TsPacket>, Error>,
)
    requires
        call_ensures(TsPacketReader::read_ts_packet, (reader,), r),
    ensures
        r matches Ok(Some(packet)) ==> {
            let s = old(reader)@;
            let h = packet.header;
            &&& s.len() >= 188
            &&& h.transport_error_indicator == (s[1] / 128 == 1)
            &&& h.transport_priority == (s[1] / 32 % 2 == 1)
            &&& h.pid@ == s[1] % 32 * 256 + s[2]
            &&& h.transport_scrambling_control is NotScrambled <==> s[3] / 64 == 0
            &&& h.transport_scrambling_control is ScrambledWithEvenKey <==> s[3] / 64 == 2
            &&& h.transport_scrambling_control is ScrambledWithOddKey <==> s[3] / 64 == 3
            &&& h.continuity_counter@ == s[3] % 16
            &&& packet.adaptation_field is Some <==> has_adaptation_field(s) && s[4] > 0
            &&& packet.payload is Some <==> s[3] / 16 % 2 == 1
            &&& packet.payload matches Some(payload) ==> payload@ == s.subrange(
                if has_adaptation_field(s) {
                    adaptation_end(s)
                } else {
                    4
                },
                188,
            )
        },
{
    let s = old(reader)@;
    if let Ok(Some(packet)) = r {
        let p = s.take(188);
        lemma_control(s[3]);
        lemma_first_bits(s[1]);
        lemma_pid(p);
        lemma_adaptation_bytes(s);
        if has_adaptation_field(s) {
            assert(p.skip(5 + adaptation_bytes(p).len() as int) =~= s.subrange(
                adaptation_end(s),
                188,
            ));
        } else {
            assert(p.skip(4) =~= s.subrange(4, 188));
        }
    }
}

/// The adaptation field of a packet that is read is told by its flags and the bytes behind them:
/// three indicators, then PCR and OPCR in their bits, the splice countdown as a signed byte,
/// private data and extension behind their lengths, one behind the other as far as they are
/// announced.
pub proof fn read_adaptation_field_is_that_of_the_bytes(
    reader: &mut TsPacketReader,
    r: Result<Option<TsPacket>, Error>,
)
    requires
        call_ensures(TsPacketReader::read_ts_packet, (reader,), r),
    ensures
        r matches Ok(Some(packet)) ==> (packet.adaptation_field matches Some(af) ==> {
            let s = old(reader)@;
            let b = s[5];
            &&& af.discontinuity_indicator == is_set(b, 128)
            &&& af.random_access_indicator == is_set(b, 64)
            &&& af.es_priority_indicator == is_set(b, 32)
            &&& match af.pcr {
                Some(c) => is_set(b, 16) && c@ == pcr_base_bits(s, 6) * 300 + pcr_extension_bits(
                    s,
                    6,
                ),
                None => !is_set(b, 16),
            }
            &&& match af.opcr {
                Some(c) => is_set(b, 8) && c@ == pcr_base_bits(s, opcr_place(s)) * 300
                    + pcr_extension_bits(s, opcr_place(s)),
                None => !is_set(b, 8),
            }
            &&& match af.splice_countdown {
                Some(n) => is_set(b, 4) && n == s[splice_place(s)] - (if s[splice_place(s)] < 128 {
                    0int
                } else {
                    256
                }),
                None => !is_set(b, 4),
            }
            &&& af.transport_private_data@ == (if is_set(b, 2) {
                s.subrange(data_place(s) + 1, extension_place(s))
            } else {
                Seq::empty()
            })
            &&& match af.extension {
                Some(v) => is_set(b, 1) && v@ == s.subrange(
                    extension_place(s) + 1,
                    stuffing_place(s),
                ),
                None => !is_set(b, 1),
            }
        }),
{
    let s = old(reader)@;
    if let Ok(Some(packet)) = r {
        lemma_control(s[3]);
        lemma_adaptation_bytes(s);
        if packet.adaptation_field is Some {
            lemma_adaptation_faults(s);
            lemma_adaptation_values(s);
        }
    }
}

/// The bits of the fourth byte of a packet.
proof fn lemma_control(c: u8)
    ensures
        field(c as nat, 6, 2) == c / 64,
        field(c as nat, 4, 2) == c / 16 % 4,
        field(c as nat, 5, 1) == c / 32 % 2,
        field(c as nat, 4, 1) == c / 16 % 2,
        field(c as nat, 0, 4) == c % 16,
{
    lemma2_to64();
}

/// The bits of the second byte of a packet.
proof fn lemma_first_bits(b: u8)
    ensures
        flag(b, 7) == (b / 128 == 1),
        flag(b, 5) == (b / 32 % 2 == 1),
{
    lemma2_to64();
}

/// The bits of the PID of a packet.
proof fn lemma_pid(p: Seq<u8>)
    requires
        p.len() >= 3,
    ensures
        field(be_value(p.subrange(1, 3)), 0, 13) == p[1] % 32 * 256 + p[2],
{
    lemma2_to64();
    lemma_two_bytes(p.subrange(1, 3));
}

/// The flags of an adaptation field.
proof fn lemma_adaptation_flags(b: u8)
    ensures
        flag(b, 7) == is_set(b, 128),
        flag(b, 6) == is_set(b, 64),
        flag(b, 5) == is_set(b, 32),
        flag(b, 4) == is_set(b, 16),
        flag(b, 3) == is_set(b, 8),
        flag(b, 2) == is_set(b, 4),
        flag(b, 1) == is_set(b, 2),
        flag(b, 0) == is_set(b, 1),
{
    lemma2_to64();
    reveal(is_set);
}

/// The PCR at `at` of the adaptation field of a packet.
proof fn lemma_pcr_in_field(s: Seq<u8>, at: int)
    requires
        s.len() >= 188,
        5 <= at <= adaptation_end(s),
    ensures
        pcr_at(s.subrange(5, adaptation_end(s)).skip(at - 5)) == (if adaptation_end(s) < at + 6 {
            Err::<nat, ErrorModel>(eof_error())
        } else {
            Ok((pcr_base_bits(s, at) * 300 + pcr_extension_bits(s, at)) as nat)
        }),
        adaptation_end(s) >= at + 6 ==> pcr_base_bits(s, at) * 300 + pcr_extension_bits(s, at) >= 0,
{
    let t = s.subrange(5, adaptation_end(s)).skip(at - 5);
    if adaptation_end(s) >= at + 6 {
        lemma_pcr_at(t);
        assert(t[0] == s[at] && t[1] == s[at + 1] && t[2] == s[at + 2] && t[3] == s[at + 3] && t[4]
            == s[at + 4] && t[5] == s[at + 5]);
    }
}

/// The counted bytes at `at` of the adaptation field of a packet.
proof fn lemma_counted_in_field(s: Seq<u8>, at: int)
    requires
        s.len() >= 188,
        5 <= at <= adaptation_end(s),
    ensures
        ({
            let t = s.subrange(5, adaptation_end(s)).skip(at - 5);
            &&& at < adaptation_end(s) ==> counted_size(t) == 1 + s[at]
            &&& counted_at(t) == (if adaptation_end(s) <= at || adaptation_end(s) < at + 1 + s[at] {
                Err::<Seq<u8>, ErrorModel>(eof_error())
            } else {
                Ok(s.subrange(at + 1, at + 1 + s[at]))
            })
        }),
{
    let end = adaptation_end(s);
    let t = s.subrange(5, end).skip(at - 5);
    if at < end {
        assert(t[0] == s[at]);
        if at + 1 + s[at] <= end {
            assert(t.subrange(1, counted_size(t)) =~= s.subrange(at + 1, at + 1 + s[at]));
        }
    }
}

/// An adaptation field is refused where its fields do not fit, or are not followed by ones only.
proof fn lemma_adaptation_faults(s: Seq<u8>)
    requires
        s.len() >= 188,
        s[4] > 0,
    ensures
        ({
            let r = adaptation_field_at(s.subrange(5, adaptation_end(s)));
            if !adaptation_fields_fit(s) {
                r matches Err(e) && e == eof_error()
            } else if !are_ones(s, stuffing_place(s), adaptation_end(s)) {
                r matches Err(e) && e == invalid_input_error("Unexpected stuffing byte"@)
            } else {
                r is Ok
            }
        }),
{
    assert(s.subrange(5, adaptation_end(s))[0] == s[5]);
    lemma_adaptation_flags(s[5]);
    lemma_places(s);
    lemma_clocks_in_field(s);
    lemma_rest_in_field(s);
}

/// What the bytes of an adaptation field denote.
proof fn lemma_adaptation_values(s: Seq<u8>)
    requires
        s.len() >= 188,
        s[4] > 0,
        adaptation_fields_fit(s),
        are_ones(s, stuffing_place(s), adaptation_end(s)),
    ensures
        ({
            let r = adaptation_field_at(s.subrange(5, adaptation_end(s)));
            let b = s[5];
            &&& r matches Ok(af)
            &&& af.discontinuity_indicator == is_set(b, 128)
            &&& af.random_access_indicator == is_set(b, 64)
            &&& af.es_priority_indicator == is_set(b, 32)
            &&& match af.pcr {
                Some(c) => is_set(b, 16) && c == pcr_base_bits(s, 6) * 300
                    + pcr_extension_bits(s, 6),
                None => !is_set(b, 16),
            }
            &&& match af.opcr {
                Some(c) => is_set(b, 8) && c == pcr_base_bits(s, opcr_place(s)) * 300
                    + pcr_extension_bits(s, opcr_place(s)),
                None => !is_set(b, 8),
            }
            &&& match af.splice_countdown {
                Some(n) => is_set(b, 4) && n == s[splice_place(s)] - (if s[splice_place(s)]
                    < 128 {
                    0int
                } else {
                    256
                }),
                None => !is_set(b, 4),
            }
            &&& af.transport_private_data == (if is_set(b, 2) {
                s.subrange(data_place(s) + 1, extension_place(s))
            } else {
                Seq::empty()
            })
            &&& match af.extension {
                Some(v) => is_set(b, 1) && v == s.subrange(
                    extension_place(s) + 1,
                    stuffing_place(s),
                ),
                None => !is_set(b, 1),
            }
        }),
{
    assert(s.subrange(5, adaptation_end(s))[0] == s[5]);
    lemma_adaptation_flags(s[5]);
    lemma_places(s);
    lemma_clocks_in_field(s);
    lemma_rest_in_field(s);
}

/// The bytes of the adaptation field of a packet.
proof fn lemma_adaptation_bytes(s: Seq<u8>)
    requires
        s.len() >= 188,
    ensures
        adaptation_bytes(s.take(188)) == s.subrange(5, adaptation_end(s)),
{
    assert(adaptation_bytes(s.take(188)) =~= s.subrange(5, adaptation_end(s)));
}

/// Where the fields of fixed size of an adaptation field stand, as far as they fit.
proof fn lemma_fixed_places(s: Seq<u8>)
    requires
        s.len() >= 188,
        s[4] > 0,
    ensures
        ({
            let end = adaptation_end(s);
            let f = s.subrange(5, end);
            let b = s[5];
            let f_opcr = behind(flag(b, 4), f.skip(1), 6);
            let f_splice = behind(flag(b, 3), f_opcr, 6);
            let f_data = behind(flag(b, 2), f_splice, 1);
            &&& opcr_place(s) <= end ==> f_opcr == f.skip(opcr_place(s) - 5)
            &&& splice_place(s) <= end ==> f_splice == f.skip(splice_place(s) - 5)
            &&& data_place(s) <= end ==> f_data == f.skip(data_place(s) - 5)
        }),
{
    let end = adaptation_end(s);
    let f = s.subrange(5, end);
    let b = s[5];
    lemma_adaptation_flags(b);
    let f_opcr = behind(flag(b, 4), f.skip(1), 6);
    let f_splice = behind(flag(b, 3), f_opcr, 6);
    let f_data = behind(flag(b, 2), f_splice, 1);
    if opcr_place(s) <= end {
        assert(f_opcr =~= f.skip(opcr_place(s) - 5));
    }
    if splice_place(s) <= end {
        assert(f_splice =~= f.skip(splice_place(s) - 5));
    }
    if data_place(s) <= end {
        assert(f_data =~= f.skip(data_place(s) - 5));
    }
}

/// What stands behind counted bytes at `at` of an adaptation field, where they are present and fit.
proof fn lemma_behind_counted(s: Seq<u8>, at: int, present: bool)
    requires
        s.len() >= 188,
        5 <= at <= adaptation_end(s),
        present ==> at < adaptation_end(s) && at + 1 + s[at] <= adaptation_end(s),
    ensures
        ({
            let f = s.subrange(5, adaptation_end(s));
            let t = f.skip(at - 5);
            let next = if present {
                at + 1 + s[at]
            } else {
                at
            };
            &&& behind(present, t, counted_size(t)) == f.skip(next - 5)
            &&& f.skip(next - 5) == s.subrange(next, adaptation_end(s))
        }),
{
    let f = s.subrange(5, adaptation_end(s));
    let t = f.skip(at - 5);
    lemma_counted_in_field(s, at);
    let next = if present {
        at + 1 + s[at]
    } else {
        at
    };
    assert(behind(present, t, counted_size(t)) =~= f.skip(next - 5));
    assert(f.skip(next - 5) =~= s.subrange(next, adaptation_end(s)));
}

/// Where the fields of an adaptation field stand, as far as they fit.
proof fn lemma_places(s: Seq<u8>)
    requires
        s.len() >= 188,
        s[4] > 0,
    ensures
        ({
            let end = adaptation_end(s);
            let f = s.subrange(5, end);
            let b = s[5];
            let f_opcr = behind(flag(b, 4), f.skip(1), 6);
            let f_splice = behind(flag(b, 3), f_opcr, 6);
            let f_data = behind(flag(b, 2), f_splice, 1);
            let f_extension = behind(flag(b, 1), f_data, counted_size(f_data));
            let f_stuffing = behind(flag(b, 0), f_extension, counted_size(f_extension));
            &&& opcr_place(s) <= end ==> f_opcr == f.skip(opcr_place(s) - 5)
            &&& splice_place(s) <= end ==> f_splice == f.skip(splice_place(s) - 5)
            &&& data_place(s) <= end ==> f_data == f.skip(data_place(s) - 5)
            &&& data_place(s) <= end && extension_place(s) <= end && (is_set(b, 2) ==> data_place(s)
                < end) ==> f_extension == f.skip(extension_place(s) - 5)
            &&& adaptation_fields_fit(s) ==> f_stuffing == s.subrange(stuffing_place(s), end)
        }),
{
    let end = adaptation_end(s);
    let b = s[5];
    lemma_adaptation_flags(b);
    lemma_fixed_places(s);
    if data_place(s) <= end && extension_place(s) <= end && (is_set(b, 2) ==> data_place(s) < end) {
        lemma_behind_counted(s, data_place(s), is_set(b, 2));
        if adaptation_fields_fit(s) {
            lemma_behind_counted(s, extension_place(s), is_set(b, 1));
        }
    }
}

/// PCR and OPCR of an adaptation field.
proof fn lemma_clocks_in_field(s: Seq<u8>)
    requires
        s.len() >= 188,
        s[4] > 0,
    ensures
        ({
            let end = adaptation_end(s);
            let f = s.subrange(5, end);
            let at = opcr_place(s);
            &&& pcr_at(f.skip(1)) == (if end < 12 {
                Err::<nat, ErrorModel>(eof_error())
            } else {
                Ok((pcr_base_bits(s, 6) * 300 + pcr_extension_bits(s, 6)) as nat)
            })
            &&& end >= 12 ==> pcr_base_bits(s, 6) * 300 + pcr_extension_bits(s, 6) >= 0
            &&& at <= end ==> pcr_at(f.skip(at - 5)) == (if end < at + 6 {
                Err::<nat, ErrorModel>(eof_error())
            } else {
                Ok((pcr_base_bits(s, at) * 300 + pcr_extension_bits(s, at)) as nat)
            })
            &&& end >= at + 6 ==> pcr_base_bits(s, at) * 300 + pcr_extension_bits(s, at) >= 0
        }),
{
    lemma_pcr_in_field(s, 6);
    if opcr_place(s) <= adaptation_end(s) {
        lemma_pcr_in_field(s, opcr_place(s));
    }
}

/// Splice countdown, private data, extension and stuffing of an adaptation field.
proof fn lemma_rest_in_field(s: Seq<u8>)
    requires
        s.len() >= 188,
        s[4] > 0,
    ensures
        ({
            let end = adaptation_end(s);
            let f = s.subrange(5, end);
            let splice = splice_place(s);
            let data = data_place(s);
            let extension = extension_place(s);
            &&& splice <= end ==> (match signed_byte_at(f.skip(splice - 5)) {
                Ok(n) => splice < end && n == s[splice] - (if s[splice] < 128 {
                    0int
                } else {
                    256
                }),
                Err(e) => splice >= end && e == eof_error(),
            })
            &&& data <= end ==> counted_at(f.skip(data - 5)) == (if end <= data || end < data + 1
                + s[data] {
                Err::<Seq<u8>, ErrorModel>(eof_error())
            } else {
                Ok(s.subrange(data + 1, data + 1 + s[data]))
            })
            &&& extension <= end ==> counted_at(f.skip(extension - 5)) == (if end <= extension
                || end < extension + 1 + s[extension] {
                Err::<Seq<u8>, ErrorModel>(eof_error())
            } else {
                Ok(s.subrange(extension + 1, extension + 1 + s[extension]))
            })
            &&& stuffing_place(s) <= end ==> (is_stuffing(s.subrange(stuffing_place(s), end))
                <==> are_ones(s, stuffing_place(s), end))
        }),
{
    let end = adaptation_end(s);
    let f = s.subrange(5, end);
    let splice = splice_place(s);
    if splice < end {
        assert(f.skip(splice - 5)[0] == s[splice]);
    }
    if data_place(s) <= end {
        lemma_counted_in_field(s, data_place(s));
    }
    if extension_place(s) <= end {
        lemma_counted_in_field(s, extension_place(s));
    }
    if stuffing_place(s) <= end {
        lemma_ones(s, s.subrange(stuffing_place(s), end), stuffing_place(s), end);
    }
}

/// Stuffing is the same in the packet and on its own.
proof fn lemma_ones(s: Seq<u8>, t: Seq<u8>, from: int, to: int)
    requires
        0 <= from <= to <= s.len(),
        t == s.subrange(from, to),
    ensures
        is_stuffing(t) <==> are_ones(s, from, to),
{
    if is_stuffing(t) {
        assert forall|i: int| from <= i < to implies s[i] == 0xFF by {
            assert(t[i - from] == 0xFF);
        }
    }
    if are_ones(s, from, to) {
        assert forall|i: int| 0 <= i < t.len() implies t[i] == 0xFF by {
            assert(t[i] == s[from + i]);
        }
    }
}

} // verus!
