//! Laws of the timestamp and clock reference encodings.
use crate::bytes::{
    be_value, byte_span, field, lemma_be_bytes_of_be_value, lemma_be_value_bound, lemma_byte_spans,
    lemma_written_bytes,
};
use crate::error::ErrorModel;
use crate::time::{
    clock_base, clock_extension, escr_at, escr_encoding, escr_of_word, escr_word, pcr_at,
    pcr_encoding, pcr_of_word, pcr_word, timestamp_at, timestamp_encoding, timestamp_of_word,
    timestamp_word, ClockReference, Timestamp,
};
use vstd::arithmetic::power2::{lemma2_to64, lemma2_to64_rest, pow2};
use vstd::prelude::*;

verus! {

/// Whether base and extension are those of a clock reference: the extension is below 300, but
/// for the greatest base.
pub open spec fn are_clock_parts(base: nat, extension: nat) -> bool {
    extension < 300 || base == pow2(33) - 1
}

/// A timestamp that was written is read back, whatever follows it, by a reader that expects the
/// check bits that were written.
pub proof fn timestamp_round_trip(t: nat, check_bits: nat, rest: Seq<u8>)
    requires
        t <= Timestamp::MAX,
        check_bits < 16,
    ensures
        timestamp_encoding(t, check_bits).len() == 5,
        timestamp_at(timestamp_encoding(t, check_bits) + rest, check_bits) == Ok::<nat, ErrorModel>(t),
{
    lemma_timestamp_word_written(t, check_bits);
    lemma_written_bytes(timestamp_word(t, check_bits), 5, rest);
}

/// Bytes that are read as a timestamp are those that writing this timestamp gives.
pub proof fn timestamp_encoding_is_canonical(bytes: Seq<u8>, check_bits: nat)
    requires
        timestamp_at(bytes, check_bits) is Ok,
    ensures
        timestamp_at(bytes, check_bits)->Ok_0 <= Timestamp::MAX,
        timestamp_encoding(timestamp_at(bytes, check_bits)->Ok_0, check_bits) == bytes.take(5),
{
    let s = bytes.take(5);
    lemma_be_value_bound(s);
    lemma_be_bytes_of_be_value(s);
    lemma_timestamp_word_read(be_value(s));
}

/// Every timestamp that is read is in range.
pub proof fn timestamp_in_range(word: nat)
    ensures
        timestamp_of_word(word) matches Ok(t) ==> t <= Timestamp::MAX,
{
    lemma2_to64();
    lemma2_to64_rest();
}

/// A clock reference is made up of a base of 33 bits and an extension of nine bits.
pub proof fn clock_reference_is_made_up_of_its_parts(v: nat)
    requires
        v <= ClockReference::MAX,
    ensures
        v == clock_base(v) * 300 + clock_extension(v),
        clock_base(v) < pow2(33),
        clock_extension(v) < pow2(9),
        are_clock_parts(clock_base(v), clock_extension(v)),
{
    lemma2_to64();
    lemma2_to64_rest();
}

/// A PCR that was written is read back, whatever its reserved bits and whatever follows it.
pub proof fn pcr_round_trip(v: nat, reserved: nat, rest: Seq<u8>)
    requires
        v <= ClockReference::MAX,
        reserved < 64,
    ensures
        pcr_encoding(v, reserved).len() == 6,
        pcr_at(pcr_encoding(v, reserved) + rest) == Ok::<nat, ErrorModel>(v),
{
    lemma_pcr_word_written(v, reserved);
    lemma_written_bytes(pcr_word(v, reserved), 6, rest);
}

/// The reserved bits of a written PCR are those that were asked for.
pub proof fn pcr_reserved_bits_are_written(v: nat, reserved: nat)
    requires
        v <= ClockReference::MAX,
        reserved < 64,
    ensures
        field(be_value(pcr_encoding(v, reserved)), 9, 6) == reserved,
{
    lemma_pcr_word_written(v, reserved);
    lemma_written_bytes(pcr_word(v, reserved), 6, Seq::empty());
}

/// The reserved bits of a PCR have no part in its value.
pub proof fn pcr_reserved_bits_are_ignored(base: nat, reserved: nat, extension: nat)
    requires
        reserved < 64,
        extension < 512,
    ensures
        pcr_of_word(base * pow2(15) + reserved * pow2(9) + extension) == base * 300 + extension,
{
    lemma2_to64();
}

/// Every PCR that is read is in range.
pub proof fn pcr_in_range(bytes: Seq<u8>)
    ensures
        pcr_at(bytes) matches Ok(v) ==> v <= ClockReference::MAX,
{
    lemma2_to64();
    lemma_byte_spans();
    if bytes.len() >= 6 {
        lemma_be_value_bound(bytes.take(6));
    }
}

/// Bytes that are read as a PCR are those that writing this PCR gives with the reserved bits kept,
/// if their extension is below 300 or their base is the greatest.
pub proof fn pcr_encoding_is_canonical(bytes: Seq<u8>)
    requires
        bytes.len() >= 6,
        are_clock_parts(
            field(be_value(bytes.take(6)), 15, 33),
            field(be_value(bytes.take(6)), 0, 9),
        ),
    ensures
        pcr_at(bytes) matches Ok(v) && pcr_encoding(v, field(be_value(bytes.take(6)), 9, 6))
            == bytes.take(6),
{
    let s = bytes.take(6);
    lemma_be_value_bound(s);
    lemma_be_bytes_of_be_value(s);
    lemma_pcr_word_read(be_value(s));
}

/// An ESCR that was written is read back, whatever follows it.
pub proof fn escr_round_trip(v: nat, rest: Seq<u8>)
    requires
        v <= ClockReference::MAX,
    ensures
        escr_encoding(v).len() == 6,
        escr_at(escr_encoding(v) + rest) == Ok::<nat, ErrorModel>(v),
{
    lemma_escr_word_written(v);
    lemma_written_bytes(escr_word(v), 6, rest);
}

/// Every ESCR that is read is in range.
pub proof fn escr_in_range(word: nat)
    ensures
        escr_of_word(word) matches Ok(v) ==> v <= ClockReference::MAX,
{
    lemma2_to64();
    lemma2_to64_rest();
}

/// The base that a 48-bit ESCR word denotes.
pub open spec fn escr_base(word: nat) -> nat {
    field(word, 43, 3) * pow2(30) + field(word, 27, 15) * pow2(15) + field(word, 11, 15)
}

/// Bytes that are read as an ESCR are those that writing this ESCR gives, if their extension is
/// below 300 or their base is the greatest.
pub proof fn escr_encoding_is_canonical(bytes: Seq<u8>)
    requires
        escr_at(bytes) is Ok,
        are_clock_parts(
            escr_base(be_value(bytes.take(6))),
            field(be_value(bytes.take(6)), 1, 9),
        ),
    ensures
        escr_encoding(escr_at(bytes)->Ok_0) == bytes.take(6),
{
    let s = bytes.take(6);
    lemma_be_value_bound(s);
    lemma_be_bytes_of_be_value(s);
    lemma_escr_word_read(be_value(s));
}

/// The clock reference of a timestamp has the timestamp as its base and no extension, and is in
/// range.
pub proof fn timestamp_is_a_clock_base(t: nat)
    requires
        t <= Timestamp::MAX,
    ensures
        t * 300 <= ClockReference::MAX,
        clock_base(t * 300) == t,
        clock_extension(t * 300) == 0,
        forall|reserved: nat| #[trigger]
            pcr_word(t * 300, reserved) == t * pow2(15) + reserved * pow2(9),
{
    lemma2_to64_rest();
}

/// What is read from the word of a written timestamp.
pub proof fn lemma_timestamp_word_written(t: nat, check_bits: nat)
    requires
        t <= Timestamp::MAX,
        check_bits < 16,
    ensures
        timestamp_word(t, check_bits) < byte_span(5),
        timestamp_word(t, check_bits) / pow2(36) == check_bits,
        timestamp_of_word(timestamp_word(t, check_bits)) == Ok::<nat, ErrorModel>(t),
{
    lemma2_to64();
    lemma2_to64_rest();
    lemma_byte_spans();
    lemma_timestamp_bits_written(
        t as u64,
        check_bits as u64,
        timestamp_word(t, check_bits) as u64,
    );
}

/// What is written of a timestamp that was read from a word.
proof fn lemma_timestamp_word_read(word: nat)
    requires
        word < byte_span(5),
        timestamp_of_word(word) is Ok,
    ensures
        timestamp_of_word(word)->Ok_0 <= Timestamp::MAX,
        timestamp_word(timestamp_of_word(word)->Ok_0, word / pow2(36)) == word,
{
    lemma2_to64();
    lemma2_to64_rest();
    lemma_byte_spans();
    timestamp_in_range(word);
    lemma_timestamp_bits_read(word as u64, timestamp_of_word(word)->Ok_0 as u64);
}

/// What is read from the word of a written PCR.
pub proof fn lemma_pcr_word_written(v: nat, reserved: nat)
    requires
        v <= ClockReference::MAX,
        reserved < 64,
    ensures
        pcr_word(v, reserved) < byte_span(6),
        field(pcr_word(v, reserved), 0, 9) == clock_extension(v),
        field(pcr_word(v, reserved), 9, 6) == reserved,
        pcr_of_word(pcr_word(v, reserved)) == v,
{
    lemma2_to64();
    lemma2_to64_rest();
    lemma_byte_spans();
    clock_reference_is_made_up_of_its_parts(v);
    lemma_pcr_bits(
        clock_base(v) as u64,
        reserved as u64,
        clock_extension(v) as u64,
        pcr_word(v, reserved) as u64,
    );
}

/// What is written of a PCR that was read from a word.
proof fn lemma_pcr_word_read(word: nat)
    requires
        word < byte_span(6),
        are_clock_parts(field(word, 15, 33), field(word, 0, 9)),
    ensures
        pcr_word(pcr_of_word(word), field(word, 9, 6)) == word,
{
    lemma2_to64();
    lemma2_to64_rest();
    lemma_byte_spans();
    lemma_clock_parts(word / pow2(15), field(word, 0, 9));
}

/// What is read from the word of a written ESCR.
pub proof fn lemma_escr_word_written(v: nat)
    requires
        v <= ClockReference::MAX,
    ensures
        escr_word(v) < byte_span(6),
        field(escr_word(v), 1, 9) == clock_extension(v),
        escr_of_word(escr_word(v)) == Ok::<nat, ErrorModel>(v),
{
    lemma2_to64();
    lemma2_to64_rest();
    lemma_byte_spans();
    clock_reference_is_made_up_of_its_parts(v);
    lemma_escr_bits_written(clock_base(v) as u64, clock_extension(v) as u64, escr_word(v) as u64);
}

/// What is written of an ESCR that was read from a word.
proof fn lemma_escr_word_read(word: nat)
    requires
        word < byte_span(6),
        escr_of_word(word) is Ok,
        are_clock_parts(escr_base(word), field(word, 1, 9)),
    ensures
        escr_word(escr_of_word(word)->Ok_0) == word,
{
    lemma2_to64();
    lemma2_to64_rest();
    lemma_byte_spans();
    lemma_clock_parts(escr_base(word), field(word, 1, 9));
    lemma_escr_bits_read(word as u64, escr_base(word) as u64, field(word, 1, 9) as u64);
}

/// The bits of the word of a written timestamp.
proof fn lemma_timestamp_bits_written(t: u64, check_bits: u64, word: u64)
    by (bit_vector)
    requires
        t <= 0x1_FFFF_FFFF,
        check_bits < 16,
        word == check_bits % 16 * 0x10_0000_0000 + t / 0x4000_0000 % 8 * 0x2_0000_0000
            + 0x1_0000_0000 + t / 0x8000 % 0x8000 * 0x2_0000 + 0x1_0000 + t % 0x8000 * 2 + 1,
    ensures
        word < 0x100_0000_0000,
        word / 0x10_0000_0000 == check_bits,
        word % 2 == 1,
        word / 0x1_0000 % 2 == 1,
        word / 0x1_0000_0000 % 2 == 1,
        word / 0x2_0000_0000 % 8 * 0x4000_0000 + word / 0x2_0000 % 0x8000 * 0x8000 + word / 2
            % 0x8000 == t,
{
}

/// The bits of a timestamp read from a word with its marker bits set.
proof fn lemma_timestamp_bits_read(word: u64, t: u64)
    by (bit_vector)
    requires
        word < 0x100_0000_0000,
        word % 2 == 1,
        word / 0x1_0000 % 2 == 1,
        word / 0x1_0000_0000 % 2 == 1,
        t == word / 0x2_0000_0000 % 8 * 0x4000_0000 + word / 0x2_0000 % 0x8000 * 0x8000 + word / 2
            % 0x8000,
    ensures
        t <= 0x1_FFFF_FFFF,
        word / 0x10_0000_0000 < 16,
        word == word / 0x10_0000_0000 % 16 * 0x10_0000_0000 + t / 0x4000_0000 % 8 * 0x2_0000_0000
            + 0x1_0000_0000 + t / 0x8000 % 0x8000 * 0x2_0000 + 0x1_0000 + t % 0x8000 * 2 + 1,
{
}

/// Base and extension are found again in the value that they make up.
proof fn lemma_clock_parts(base: nat, extension: nat)
    requires
        base < pow2(33),
        extension < 512,
        are_clock_parts(base, extension),
    ensures
        clock_base(base * 300 + extension) == base,
        clock_extension(base * 300 + extension) == extension,
{
    lemma2_to64_rest();
}

/// The bits of the word of a written PCR.
proof fn lemma_pcr_bits(base: u64, reserved: u64, extension: u64, word: u64)
    by (bit_vector)
    requires
        base <= 0x1_FFFF_FFFF,
        reserved < 64,
        extension < 512,
        word == base * 0x8000 + reserved * 0x200 + extension,
    ensures
        word < 0x1_0000_0000_0000,
        word / 0x8000 == base,
        word % 0x200 == extension,
        word / 0x200 % 64 == reserved,
{
}

/// The bits of the word of a written ESCR.
proof fn lemma_escr_bits_written(base: u64, extension: u64, word: u64)
    by (bit_vector)
    requires
        base <= 0x1_FFFF_FFFF,
        extension < 512,
        word == base / 0x4000_0000 % 8 * 0x800_0000_0000 + 0x400_0000_0000 + base / 0x8000 % 0x8000
            * 0x800_0000 + 0x400_0000 + base % 0x8000 * 0x800 + 0x400 + extension * 2 + 1,
    ensures
        word < 0x4000_0000_0000,
        word % 2 == 1,
        word / 0x400 % 2 == 1,
        word / 0x400_0000 % 2 == 1,
        word / 0x400_0000_0000 % 2 == 1,
        word / 2 % 0x200 == extension,
        word / 0x800_0000_0000 % 8 * 0x4000_0000 + word / 0x800_0000 % 0x8000 * 0x8000
            + word / 0x800 % 0x8000 == base,
{
}

/// The bits of an ESCR read from a word with its reserved bits zero and its marker bits set.
proof fn lemma_escr_bits_read(word: u64, base: u64, extension: u64)
    by (bit_vector)
    requires
        word < 0x4000_0000_0000,
        word % 2 == 1,
        word / 0x400 % 2 == 1,
        word / 0x400_0000 % 2 == 1,
        word / 0x400_0000_0000 % 2 == 1,
        base == word / 0x800_0000_0000 % 8 * 0x4000_0000 + word / 0x800_0000 % 0x8000 * 0x8000
            + word / 0x800 % 0x8000,
        extension == word / 2 % 0x200,
    ensures
        base <= 0x1_FFFF_FFFF,
        word == base / 0x4000_0000 % 8 * 0x800_0000_0000 + 0x400_0000_0000 + base / 0x8000 % 0x8000
            * 0x800_0000 + 0x400_0000 + base % 0x8000 * 0x800 + 0x400 + extension * 2 + 1,
{
}

} // verus!
