//! What the operations on times do, stated of their arguments and results.
use crate::bytes::operations::{lemma_five_bytes, lemma_six_bytes};
use crate::bytes::{be_value, field, lemma_written_bytes, ByteReader};
use crate::error::{invalid_input_error, is_eof, is_invalid_input, Error, ErrorModel};
use crate::text::decimal;
use crate::time::laws::{
    clock_reference_is_made_up_of_its_parts, lemma_escr_word_written, lemma_pcr_word_written,
    lemma_timestamp_word_written,
};
use crate::time::{
    clock_base, clock_extension, escr_at, escr_encoding, escr_word, pcr_at, pcr_encoding, pcr_word,
    timestamp_at, timestamp_encoding, timestamp_word, ClockReference, Timestamp,
};
use vstd::arithmetic::power2::{lemma2_to64, lemma2_to64_rest};
use vstd::prelude::*;

verus! {

/// The 33 bits of a timestamp in the five bytes of `s` from `at` on: those between the prefix and
/// the marker bits.
pub open spec fn timestamp_bits(s: Seq<u8>, at: int) -> int {
    s[at] / 2 % 8 * 0x4000_0000 + s[at + 1] * 0x40_0000 + s[at + 2] / 2 * 0x8000 + s[at + 3] * 0x80
        + s[at + 4] / 2
}

/// Whether the marker bits of a timestamp are set in the five bytes of `s` from `at` on: the lowest
/// bits of the first, the third and the fifth byte.
pub open spec fn has_timestamp_markers(s: Seq<u8>, at: int) -> bool {
    s[at] % 2 == 1 && s[at + 2] % 2 == 1 && s[at + 4] % 2 == 1
}

/// The 33 bits of the base of a PCR in the six bytes of `s` from `at` on: the first ones.
pub open spec fn pcr_base_bits(s: Seq<u8>, at: int) -> int {
    s[at] * 0x200_0000 + s[at + 1] * 0x2_0000 + s[at + 2] * 0x200 + s[at + 3] * 2 + s[at + 4] / 128
}

/// The nine bits of the extension of a PCR in the six bytes of `s` from `at` on: the last ones.
pub open spec fn pcr_extension_bits(s: Seq<u8>, at: int) -> int {
    s[at + 4] % 2 * 0x100 + s[at + 5]
}

/// The 33 bits of the base of an ESCR in the six bytes of `s` from `at` on: those between the
/// reserved bits and the third marker bit.
pub open spec fn escr_base_bits(s: Seq<u8>, at: int) -> int {
    s[at] / 8 % 8 * 0x4000_0000 + s[at] % 4 * 0x1000_0000 + s[at + 1] * 0x10_0000 + s[at + 2] / 8
        * 0x8000 + s[at + 2] % 4 * 0x2000 + s[at + 3] * 0x20 + s[at + 4] / 8
}

/// The nine bits of the extension of an ESCR in the six bytes of `s` from `at` on: those between
/// the last two marker bits.
pub open spec fn escr_extension_bits(s: Seq<u8>, at: int) -> int {
    s[at + 4] % 4 * 0x80 + s[at + 5] / 2
}

/// Whether the four marker bits of an ESCR are set in the six bytes of `s` from `at` on.
pub open spec fn has_escr_markers(s: Seq<u8>, at: int) -> bool {
    s[at] / 4 % 2 == 1 && s[at + 2] / 4 % 2 == 1 && s[at + 4] / 4 % 2 == 1 && s[at + 5] % 2 == 1
}

/// A timestamp keeps the number that it is made of, and one is made of every number of 33 bits and
/// of no other.
pub proof fn timestamps_have_33_bits(n: u64, r: Result<Timestamp, Error>)
    requires
        call_ensures(Timestamp::new, (n,), r),
    ensures
        match r {
            Ok(t) => n < 0x2_0000_0000 && t@ == n,
            Err(e) => n >= 0x2_0000_0000 && is_invalid_input(
                e,
                "Too large value: "@ + decimal(n as nat),
            ),
        },
{
}

/// A clock reference keeps the number that it is made of, and one is made of every number up to 300
/// times the greatest base of 33 bits plus the greatest extension of nine bits, and of no other.
pub proof fn clock_references_have_33_and_9_bits(n: u64, r: Result<ClockReference, Error>)
    requires
        call_ensures(ClockReference::new, (n,), r),
    ensures
        match r {
            Ok(c) => n <= 0x1_FFFF_FFFF * 300 + 0x1FF && c@ == n,
            Err(e) => n > 0x1_FFFF_FFFF * 300 + 0x1FF && is_invalid_input(
                e,
                "Too large value: "@ + decimal(n as nat),
            ),
        },
{
}

/// The number of a time is told as it is.
pub proof fn times_tell_their_numbers(t: Timestamp, n: u64, c: ClockReference, m: u64)
    requires
        call_ensures(Timestamp::as_u64, (&t,), n),
        call_ensures(ClockReference::as_u64, (&c,), m),
    ensures
        n == t@,
        m == c@,
{
}

/// A number of 32 bits is converted as it is, and a timestamp to the clock reference that counts
/// 300 units for each of its own.
pub proof fn conversions_keep_the_time(
    n: u32,
    t: Timestamp,
    c: ClockReference,
    f: Timestamp,
    d: ClockReference,
)
    requires
        call_ensures(<Timestamp as From<u32>>::from, (n,), t),
        call_ensures(<ClockReference as From<u32>>::from, (n,), c),
        call_ensures(<ClockReference as From<Timestamp>>::from, (f,), d),
    ensures
        t@ == n,
        c@ == n,
        d@ == f@ * 300,
{
}

/// A timestamp of a word is made of the bits between its marker bits. It is refused if and only if
/// one of them is not set, and no other bit has a part in it.
pub proof fn timestamp_is_read_from_a_word(n: u64, r: Result<Timestamp, Error>)
    requires
        call_ensures(Timestamp::from_u64, (n,), r),
    ensures
        match r {
            Ok(t) => {
                &&& n % 2 == 1 && n / 0x1_0000 % 2 == 1 && n / 0x1_0000_0000 % 2 == 1
                &&& t@ == n / 0x2_0000_0000 % 8 * 0x4000_0000 + n / 0x2_0000 % 0x8000 * 0x8000 + n
                    / 2 % 0x8000
            },
            Err(e) => {
                &&& !(n % 2 == 1 && n / 0x1_0000 % 2 == 1 && n / 0x1_0000_0000 % 2 == 1)
                &&& is_invalid_input(e, "Unexpected marker bit"@)
            },
        },
{
    lemma2_to64();
    lemma2_to64_rest();
}

/// Reading a timestamp takes five bytes, or all if there are fewer, and gives the timestamp of
/// their bits. It fails if and only if they are too few, or begin with another prefix than is due,
/// or lack a marker bit.
pub proof fn timestamp_is_read_from_its_bits(
    reader: &mut ByteReader,
    check_bits: u8,
    r: Result<Timestamp, Error>,
)
    requires
        call_ensures(Timestamp::read_from, (reader, check_bits), r),
    ensures
        ({
            let s = old(reader)@;
            if s.len() < 5 {
                &&& r matches Err(e) && is_eof(e)
                &&& final(reader)@.len() == 0
            } else {
                &&& final(reader)@ == s.skip(5)
                &&& if s[0] / 16 != check_bits {
                    r matches Err(e) && is_invalid_input(
                        e,
                        "Expected check_bits: "@ + decimal(check_bits as nat) + ", got: "@
                            + decimal((s[0] / 16) as nat),
                    )
                } else if has_timestamp_markers(s, 0) {
                    r matches Ok(t) && t@ == timestamp_bits(s, 0)
                } else {
                    r matches Err(e) && is_invalid_input(e, "Unexpected marker bit"@)
                }
            }
        }),
{
    let s = old(reader)@;
    if s.len() >= 5 {
        lemma_timestamp_at(s, check_bits as nat);
    }
}

/// Writing a timestamp appends five bytes and leaves what stood before. They begin with the lowest
/// four bits of the prefix, have the marker bits set, and the bits between them are those of the
/// timestamp.
pub proof fn timestamp_is_written_in_its_bits(
    t: Timestamp,
    writer: &mut Vec<u8>,
    check_bits: u8,
    r: Result<(), Error>,
)
    requires
        t@ < 0x2_0000_0000,
        call_ensures(Timestamp::write_to, (&t, writer, check_bits), r),
    ensures
        ({
            let at = old(writer)@.len() as int;
            let s = final(writer)@;
            &&& r is Ok
            &&& s.len() == at + 5
            &&& s.take(at) == old(writer)@
            &&& s[at] / 16 == check_bits % 16
            &&& has_timestamp_markers(s, at)
            &&& timestamp_bits(s, at) == t@
        }),
{
    let at = old(writer)@.len() as int;
    let bytes = timestamp_encoding(t@, check_bits as nat);
    lemma_timestamp_bytes(t@, check_bits as nat);
    assert forall|i: int| 0 <= i < 5 implies (#[trigger] final(writer)@[at + i]) == bytes[i] by {}
    assert(final(writer)@[at + 0] == bytes[0]);
}

/// The array of a timestamp holds the bytes that writing it appends.
pub proof fn timestamp_array_holds_its_bits(t: Timestamp, check_bits: u8, bytes: [u8; 5])
    requires
        t@ < 0x2_0000_0000,
        call_ensures(Timestamp::to_bytes, (t, check_bits), bytes),
    ensures
        bytes@[0] / 16 == check_bits % 16,
        has_timestamp_markers(bytes@, 0),
        timestamp_bits(bytes@, 0) == t@,
{
    lemma_timestamp_bytes(t@, check_bits as nat);
}

/// Reading a PCR takes six bytes, or all if there are fewer, and gives 300 times the base in their
/// bits plus the extension, whatever the bits between. It fails if and only if they are too few.
pub proof fn pcr_is_read_from_its_bits(reader: &mut ByteReader, r: Result<ClockReference, Error>)
    requires
        call_ensures(ClockReference::read_pcr_from, (reader,), r),
    ensures
        ({
            let s = old(reader)@;
            if s.len() < 6 {
                &&& r matches Err(e) && is_eof(e)
                &&& final(reader)@.len() == 0
            } else {
                &&& r matches Ok(c) && c@ == pcr_base_bits(s, 0) * 300 + pcr_extension_bits(s, 0)
                &&& final(reader)@ == s.skip(6)
            }
        }),
{
    if old(reader)@.len() >= 6 {
        lemma_pcr_at(old(reader)@);
    }
}

/// Whether the six bytes of `s` from `at` on are those of a PCR of value `v` with the given
/// reserved bits. The extension is below 300 unless the base is the greatest.
pub open spec fn are_pcr_bytes(s: Seq<u8>, at: int, v: nat, reserved: int) -> bool {
    &&& v == pcr_base_bits(s, at) * 300 + pcr_extension_bits(s, at)
    &&& pcr_extension_bits(s, at) < 300 || pcr_base_bits(s, at) == 0x1_FFFF_FFFF
    &&& s[at + 4] / 2 % 64 == reserved
}

/// Writing a PCR appends six bytes and leaves what stood before. They have base and extension of
/// the clock reference in their bits, and zeros between.
pub proof fn pcr_is_written_in_its_bits(
    c: ClockReference,
    writer: &mut Vec<u8>,
    r: Result<(), Error>,
)
    requires
        c@ <= 0x1_FFFF_FFFF * 300 + 0x1FF,
        call_ensures(ClockReference::write_pcr_to, (&c, writer), r),
    ensures
        ({
            let at = old(writer)@.len() as int;
            let s = final(writer)@;
            &&& r is Ok
            &&& s.len() == at + 6
            &&& s.take(at) == old(writer)@
            &&& are_pcr_bytes(s, at, c@, 0)
        }),
{
    let at = old(writer)@.len() as int;
    let bytes = pcr_encoding(c@, 0);
    lemma_pcr_bytes(c@, 0);
    assert forall|i: int| 0 <= i < 6 implies (#[trigger] final(writer)@[at + i]) == bytes[i] by {}
    assert(final(writer)@[at + 0] == bytes[0]);
}

/// The array of a PCR has base and extension of the clock reference in its bits, and ones between.
pub proof fn pcr_array_holds_its_bits(c: ClockReference, bytes: [u8; 6])
    requires
        c@ <= 0x1_FFFF_FFFF * 300 + 0x1FF,
        call_ensures(ClockReference::pcr_to_bytes, (c,), bytes),
    ensures
        are_pcr_bytes(bytes@, 0, c@, 63),
{
    lemma_pcr_bytes(c@, 63);
}

/// Reading an ESCR takes six bytes, or all if there are fewer, and gives 300 times the base in
/// their bits plus the extension. It fails if and only if they are too few, or a reserved bit is
/// set, or a marker bit is not.
pub proof fn escr_is_read_from_its_bits(reader: &mut ByteReader, r: Result<ClockReference, Error>)
    requires
        call_ensures(ClockReference::read_escr_from, (reader,), r),
    ensures
        ({
            let s = old(reader)@;
            if s.len() < 6 {
                &&& r matches Err(e) && is_eof(e)
                &&& final(reader)@.len() == 0
            } else {
                &&& final(reader)@ == s.skip(6)
                &&& if s[0] >= 64 {
                    r matches Err(e) && is_invalid_input(e, "Expected zero in reserved bits"@)
                } else if has_escr_markers(s, 0) {
                    r matches Ok(c) && c@ == escr_base_bits(s, 0) * 300 + escr_extension_bits(s, 0)
                } else {
                    r matches Err(e) && is_invalid_input(e, "Unexpected marker bit"@)
                }
            }
        }),
{
    if old(reader)@.len() >= 6 {
        lemma_escr_at(old(reader)@);
    }
}

/// Writing an ESCR appends six bytes and leaves what stood before. The reserved bits are zero, the
/// marker bits set, and the bits between them are base and extension of the clock reference.
pub proof fn escr_is_written_in_its_bits(
    c: ClockReference,
    writer: &mut Vec<u8>,
    r: Result<(), Error>,
)
    requires
        c@ <= 0x1_FFFF_FFFF * 300 + 0x1FF,
        call_ensures(ClockReference::write_escr_to, (&c, writer), r),
    ensures
        ({
            let at = old(writer)@.len() as int;
            let s = final(writer)@;
            &&& r is Ok
            &&& s.len() == at + 6
            &&& s.take(at) == old(writer)@
            &&& are_escr_bytes(s, at, c@)
        }),
{
    let at = old(writer)@.len() as int;
    let bytes = escr_encoding(c@);
    lemma_escr_bytes(c@);
    assert forall|i: int| 0 <= i < 6 implies (#[trigger] final(writer)@[at + i]) == bytes[i] by {}
    assert(final(writer)@[at + 0] == bytes[0]);
}

/// Whether the six bytes of `s` from `at` on are those of an ESCR of value `v`. The extension is
/// below 300 unless the base is the greatest.
pub open spec fn are_escr_bytes(s: Seq<u8>, at: int, v: nat) -> bool {
    &&& s[at] < 64
    &&& has_escr_markers(s, at)
    &&& v == escr_base_bits(s, at) * 300 + escr_extension_bits(s, at)
    &&& escr_extension_bits(s, at) < 300 || escr_base_bits(s, at) == 0x1_FFFF_FFFF
}

/// What five bytes denote as a timestamp.
pub proof fn lemma_timestamp_at(s: Seq<u8>, check_bits: nat)
    requires
        s.len() >= 5,
    ensures
        timestamp_at(s, check_bits) == (if s[0] / 16 != check_bits {
            Err::<nat, ErrorModel>(
                invalid_input_error(
                    "Expected check_bits: "@ + decimal(check_bits) + ", got: "@ + decimal(
                        (s[0] / 16) as nat,
                    ),
                ),
            )
        } else if has_timestamp_markers(s, 0) {
            Ok(timestamp_bits(s, 0) as nat)
        } else {
            Err(invalid_input_error("Unexpected marker bit"@))
        }),
        timestamp_bits(s, 0) < 0x2_0000_0000,
{
    lemma2_to64();
    lemma2_to64_rest();
    let s5 = s.take(5);
    lemma_five_bytes(s5);
    lemma_timestamp_word_bits(
        s[0] as u64,
        s[1] as u64,
        s[2] as u64,
        s[3] as u64,
        s[4] as u64,
        be_value(s5) as u64,
    );
}

/// The bytes of a written timestamp.
pub proof fn lemma_timestamp_bytes(t: nat, check_bits: nat)
    requires
        t < 0x2_0000_0000,
    ensures
        timestamp_encoding(t, check_bits).len() == 5,
        timestamp_encoding(t, check_bits)[0] / 16 == check_bits % 16,
        has_timestamp_markers(timestamp_encoding(t, check_bits), 0),
        timestamp_bits(timestamp_encoding(t, check_bits), 0) == t,
{
    lemma2_to64();
    let low = check_bits % 16;
    assert(timestamp_word(t, check_bits) == timestamp_word(t, low));
    let bytes = timestamp_encoding(t, low);
    lemma_timestamp_word_written(t, low);
    lemma_written_bytes(timestamp_word(t, low), 5, Seq::empty());
    assert(bytes.take(5) =~= bytes);
    lemma_timestamp_at(bytes, low);
}

/// What six bytes denote as a PCR.
pub proof fn lemma_pcr_at(s: Seq<u8>)
    requires
        s.len() >= 6,
    ensures
        pcr_at(s) == Ok::<nat, ErrorModel>(
            (pcr_base_bits(s, 0) * 300 + pcr_extension_bits(s, 0)) as nat,
        ),
        field(be_value(s.take(6)), 0, 9) == pcr_extension_bits(s, 0),
        field(be_value(s.take(6)), 9, 6) == s[4] / 2 % 64,
{
    lemma2_to64();
    let s6 = s.take(6);
    lemma_six_bytes(s6);
    lemma_pcr_word_bits(
        s[0] as u64,
        s[1] as u64,
        s[2] as u64,
        s[3] as u64,
        s[4] as u64,
        s[5] as u64,
        be_value(s6) as u64,
    );
}

/// The bytes of a written PCR.
pub proof fn lemma_pcr_bytes(v: nat, reserved: nat)
    requires
        v <= ClockReference::MAX,
        reserved < 64,
    ensures
        pcr_encoding(v, reserved).len() == 6,
        are_pcr_bytes(pcr_encoding(v, reserved), 0, v, reserved as int),
{
    let bytes = pcr_encoding(v, reserved);
    lemma_pcr_word_written(v, reserved);
    lemma_written_bytes(pcr_word(v, reserved), 6, Seq::empty());
    assert(bytes.take(6) =~= bytes);
    lemma_pcr_at(bytes);
    lemma_greatest_base(v);
}

/// What six bytes denote as an ESCR.
pub proof fn lemma_escr_at(s: Seq<u8>)
    requires
        s.len() >= 6,
    ensures
        escr_at(s) == (if s[0] >= 64 {
            Err::<nat, ErrorModel>(invalid_input_error("Expected zero in reserved bits"@))
        } else if has_escr_markers(s, 0) {
            Ok((escr_base_bits(s, 0) * 300 + escr_extension_bits(s, 0)) as nat)
        } else {
            Err(invalid_input_error("Unexpected marker bit"@))
        }),
        field(be_value(s.take(6)), 1, 9) == escr_extension_bits(s, 0),
{
    lemma2_to64();
    lemma2_to64_rest();
    let s6 = s.take(6);
    lemma_six_bytes(s6);
    lemma_escr_word_bits(
        s[0] as u64,
        s[1] as u64,
        s[2] as u64,
        s[3] as u64,
        s[4] as u64,
        s[5] as u64,
        be_value(s6) as u64,
    );
}

/// The bytes of a written ESCR.
pub proof fn lemma_escr_bytes(v: nat)
    requires
        v <= ClockReference::MAX,
    ensures
        escr_encoding(v).len() == 6,
        are_escr_bytes(escr_encoding(v), 0, v),
{
    let bytes = escr_encoding(v);
    lemma_escr_word_written(v);
    lemma_written_bytes(escr_word(v), 6, Seq::empty());
    assert(bytes.take(6) =~= bytes);
    lemma_escr_at(bytes);
    lemma_greatest_base(v);
}

/// Where the extension of a clock reference is not below 300, the base is the greatest.
proof fn lemma_greatest_base(v: nat)
    requires
        v <= ClockReference::MAX,
    ensures
        v == clock_base(v) * 300 + clock_extension(v),
        clock_extension(v) < 300 || clock_base(v) == 0x1_FFFF_FFFF,
{
    lemma2_to64_rest();
    clock_reference_is_made_up_of_its_parts(v);
}

/// The bits of five bytes in the word that they make up.
proof fn lemma_timestamp_word_bits(b0: u64, b1: u64, b2: u64, b3: u64, b4: u64, word: u64)
    by (bit_vector)
    requires
        b0 < 0x100,
        b1 < 0x100,
        b2 < 0x100,
        b3 < 0x100,
        b4 < 0x100,
        word == b0 * 0x1_0000_0000 + b1 * 0x100_0000 + b2 * 0x1_0000 + b3 * 0x100 + b4,
    ensures
        word / 0x10_0000_0000 == b0 / 16,
        word % 2 == b4 % 2,
        word / 0x1_0000 % 2 == b2 % 2,
        word / 0x1_0000_0000 % 2 == b0 % 2,
        word / 0x2_0000_0000 % 8 * 0x4000_0000 + word / 0x2_0000 % 0x8000 * 0x8000 + word / 2
            % 0x8000 == b0 / 2 % 8 * 0x4000_0000 + b1 * 0x40_0000 + b2 / 2 * 0x8000 + b3 * 0x80 + b4
            / 2,
        b0 / 2 % 8 * 0x4000_0000 + b1 * 0x40_0000 + b2 / 2 * 0x8000 + b3 * 0x80 + b4 / 2
            < 0x2_0000_0000,
{
}

/// The bits of six bytes in the word of a PCR that they make up.
proof fn lemma_pcr_word_bits(b0: u64, b1: u64, b2: u64, b3: u64, b4: u64, b5: u64, word: u64)
    by (bit_vector)
    requires
        b0 < 0x100,
        b1 < 0x100,
        b2 < 0x100,
        b3 < 0x100,
        b4 < 0x100,
        b5 < 0x100,
        word == b0 * 0x100_0000_0000 + b1 * 0x1_0000_0000 + b2 * 0x100_0000 + b3 * 0x1_0000 + b4
            * 0x100 + b5,
    ensures
        word / 0x8000 == b0 * 0x200_0000 + b1 * 0x2_0000 + b2 * 0x200 + b3 * 2 + b4 / 128,
        word % 0x200 == b4 % 2 * 0x100 + b5,
        word / 0x200 % 64 == b4 / 2 % 64,
{
}

/// The bits of six bytes in the word of an ESCR that they make up.
proof fn lemma_escr_word_bits(b0: u64, b1: u64, b2: u64, b3: u64, b4: u64, b5: u64, word: u64)
    by (bit_vector)
    requires
        b0 < 0x100,
        b1 < 0x100,
        b2 < 0x100,
        b3 < 0x100,
        b4 < 0x100,
        b5 < 0x100,
        word == b0 * 0x100_0000_0000 + b1 * 0x1_0000_0000 + b2 * 0x100_0000 + b3 * 0x1_0000 + b4
            * 0x100 + b5,
    ensures
        (word / 0x4000_0000_0000 == 0) == (b0 < 64),
        word % 2 == b5 % 2,
        word / 0x400 % 2 == b4 / 4 % 2,
        word / 0x400_0000 % 2 == b2 / 4 % 2,
        word / 0x400_0000_0000 % 2 == b0 / 4 % 2,
        word / 2 % 0x200 == b4 % 4 * 0x80 + b5 / 2,
        word / 0x800_0000_0000 % 8 * 0x4000_0000 + word / 0x800_0000 % 0x8000 * 0x8000 + word
            / 0x800 % 0x8000 == b0 / 8 % 8 * 0x4000_0000 + b0 % 4 * 0x1000_0000 + b1 * 0x10_0000
            + b2 / 8 * 0x8000 + b2 % 4 * 0x2000 + b3 * 0x20 + b4 / 8,
{
}

} // verus!
