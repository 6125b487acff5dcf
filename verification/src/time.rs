//! Time-related constituent elements.
use crate::bytes::{
    be_bytes, be_value, field, lemma_be_bytes_len, lemma_be_bytes_of_low_part,
    lemma_be_value_bound, lemma_byte_spans, lemma_six_be_bytes, taken, write_uint, ByteReader,
};
use crate::error::{eof_error, invalid_input_error, outcome, Error, ErrorModel};
use crate::text::{decimal, push_decimal};
use vstd::arithmetic::power2::{lemma2_to64, lemma2_to64_rest, pow2};
use vstd::prelude::*;

pub mod laws;
pub mod operations;

verus! {

/// Timestamp type for PTS/DTS.
///
/// Its view is the value of the timestamp, in units of 1/90000 second.
#[derive(Debug, Clone, Copy, PartialEq, Eq, Structural, Hash, PartialOrd, Ord)]
pub struct Timestamp(u64);

impl View for Timestamp {
    type V = nat;

    closed spec fn view(&self) -> nat {
        self.0 as nat
    }
}

/// The 40-bit word of a timestamp of value `t`: the lowest four bits of `check_bits`, then the
/// three highest, the fifteen middle and the fifteen lowest bits of `t`, each followed by a
/// marker bit.
pub open spec fn timestamp_word(t: nat, check_bits: nat) -> nat {
    field(check_bits, 0, 4) * pow2(36) + field(t, 30, 3) * pow2(33) + pow2(32) + field(t, 15, 15)
        * pow2(17) + pow2(16) + field(t, 0, 15) * pow2(1) + 1
}

/// What the 36 lowest bits of `word` denote: a timestamp, if the three marker bits are set.
pub open spec fn timestamp_of_word(word: nat) -> Result<nat, ErrorModel> {
    if field(word, 0, 1) == 1 && field(word, 16, 1) == 1 && field(word, 32, 1) == 1 {
        Ok(field(word, 33, 3) * pow2(30) + field(word, 17, 15) * pow2(15) + field(word, 1, 15))
    } else {
        Err(invalid_input_error("Unexpected marker bit"@))
    }
}

/// The five bytes of a timestamp of value `t` with the given check bits.
pub open spec fn timestamp_encoding(t: nat, check_bits: nat) -> Seq<u8> {
    be_bytes(timestamp_word(t, check_bits), 5)
}

/// What the first five bytes of `bytes` denote where the given check bits are due.
pub open spec fn timestamp_at(bytes: Seq<u8>, check_bits: nat) -> Result<nat, ErrorModel> {
    if bytes.len() < 5 {
        Err(eof_error())
    } else {
        let word = be_value(bytes.take(5));
        if word / pow2(36) != check_bits {
            Err(
                invalid_input_error(
                    "Expected check_bits: "@ + decimal(check_bits) + ", got: "@ + decimal(
                        word / pow2(36),
                    ),
                ),
            )
        } else {
            timestamp_of_word(word)
        }
    }
}

/// The error for a value above the maximum of its type.
pub open spec fn too_large_error(n: nat) -> ErrorModel {
    invalid_input_error("Too large value: "@ + decimal(n))
}

fn too_large(n: u64) -> (e: Error)
    ensures
        e@ == too_large_error(n as nat),
{
    let mut reason: String = "Too large value: ".to_owned();
    push_decimal(&mut reason, n);
    Error::invalid_input(reason)
}

fn unexpected_marker_bit() -> (e: Error)
    ensures
        e@ == invalid_input_error("Unexpected marker bit"@),
{
    Error::invalid_input("Unexpected marker bit".to_owned())
}

impl Timestamp {
    /// 90 kHz.
    pub const RESOLUTION: u64 = 90_000;

    /// Maximum timestamp value.
    pub const MAX: u64 = 0x1_FFFF_FFFF;

    /// A timestamp fits in 33 bits.
    #[verifier::type_invariant]
    pub open spec fn wf(self) -> bool {
        self@ <= Timestamp::MAX
    }

    /// Makes a new `Timestamp` instance.
    ///
    /// # Errors
    ///
    /// If `n` exceeds `Timestamp::MAX`, it will return an `ErrorKind::InvalidInput` error.
    pub fn new(n: u64) -> (r: Result<Self, Error>)
        ensures
            outcome(r) == (if n <= Timestamp::MAX {
                Ok(n as nat)
            } else {
                Err(too_large_error(n as nat))
            }),
    {
        if n > Self::MAX {
            return Err(too_large(n));
        }
        Ok(Timestamp(n))
    }

    /// Returns the value of the timestamp.
    pub fn as_u64(&self) -> (n: u64)
        ensures
            n == self@,
            n <= Timestamp::MAX,
    {
        proof {
            use_type_invariant(self);
        }
        self.0
    }

    /// Makes a timestamp of the 36 lowest bits of `n`: three groups of value bits, each followed
    /// by a marker bit.
    ///
    /// # Errors
    ///
    /// If a marker bit is not set, it will return an `ErrorKind::InvalidInput` error.
    pub fn from_u64(n: u64) -> (r: Result<Self, Error>)
        ensures
            outcome(r) == timestamp_of_word(n as nat),
    {
        proof {
            lemma2_to64();
            lemma2_to64_rest();
            assert(n & 1 == n % 2) by (bit_vector);
            assert((n >> 16) & 1 == n / 0x1_0000 % 2) by (bit_vector);
            assert((n >> 32) & 1 == n / 0x1_0000_0000 % 2) by (bit_vector);
        }
        if (n & 1) == 0 {
            return Err(unexpected_marker_bit());
        }
        if ((n >> 16) & 1) == 0 {
            return Err(unexpected_marker_bit());
        }
        if ((n >> 32) & 1) == 0 {
            return Err(unexpected_marker_bit());
        }
        let n0: u64 = (n >> 33) & 0x7;
        let n1: u64 = (n >> 17) & 0x7FFF;
        let n2: u64 = (n >> 1) & 0x7FFF;
        let t: u64 = (n0 << 30) | (n1 << 15) | n2;
        proof {
            assert(n0 == n / 0x2_0000_0000 % 8) by (bit_vector)
                requires
                    n0 == (n >> 33) & 0x7,
            ;
            assert(n1 == n / 0x2_0000 % 0x8000) by (bit_vector)
                requires
                    n1 == (n >> 17) & 0x7FFF,
            ;
            assert(n2 == n / 2 % 0x8000) by (bit_vector)
                requires
                    n2 == (n >> 1) & 0x7FFF,
            ;
            assert(t == n0 * 0x4000_0000 + n1 * 0x8000 + n2 && t <= 0x1_FFFF_FFFF) by (bit_vector)
                requires
                    t == (n0 << 30) | (n1 << 15) | n2,
                    n0 < 8,
                    n1 < 0x8000,
                    n2 < 0x8000,
            ;
        }
        Ok(Timestamp(t))
    }

    /// Reads the 5-byte PTS/DTS representation of a timestamp that begins with the 4-bit prefix
    /// `check_bits`.
    ///
    /// # Errors
    ///
    /// If the prefix is not `check_bits` or a marker bit is not set, it will return an
    /// `ErrorKind::InvalidInput` error; if fewer than five bytes are left, an
    /// `ErrorKind::UnexpectedEof` error.
    pub fn read_from(reader: &mut ByteReader, check_bits: u8) -> (r: Result<Self, Error>)
        ensures
            outcome(r) == timestamp_at(old(reader)@, check_bits as nat),
            final(reader)@ == old(reader)@.skip(taken(old(reader)@, 5)),
    {
        let n: u64 = match reader.read_uint::<5>() {
            Ok(n) => n,
            Err(e) => return Err(e),
        };
        proof {
            lemma2_to64_rest();
            lemma_be_value_bound(old(reader)@.take(5));
            lemma_byte_spans();
            assert(n >> 36 == n / 0x10_0000_0000) by (bit_vector);
        }
        let got: u8 = (n >> 36) as u8;
        if got != check_bits {
            let mut reason: String = "Expected check_bits: ".to_owned();
            push_decimal(&mut reason, check_bits as u64);
            reason.append(", got: ");
            push_decimal(&mut reason, got as u64);
            return Err(Error::invalid_input(reason));
        }
        Self::from_u64(n)
    }

    /// Writes the 5-byte PTS/DTS representation of the timestamp to the
    /// given writer, including the marker bits and the 4-bit `check_bits`
    /// prefix (`0b0010` for a lone PTS, `0b0011`/`0b0001` for PTS/DTS pairs).
    pub fn write_to(&self, writer: &mut Vec<u8>, check_bits: u8) -> (r: Result<(), Error>)
        ensures
            r is Ok,
            final(writer)@ == old(writer)@ + timestamp_encoding(self@, check_bits as nat),
    {
        let t: u64 = self.0;
        let n0: u64 = check_bits as u64;
        let n1: u64 = t >> 30;
        let n2: u64 = (t >> 15) & 0x7FFF;
        let n3: u64 = t & 0x7FFF;
        let n: u64 = (n0 << 36) | (n1 << 33) | (1u64 << 32) | (n2 << 17) | (1u64 << 16) | (n3 << 1)
            | 1;
        proof {
            use_type_invariant(self);
            lemma2_to64();
            lemma2_to64_rest();
            assert(n1 == t / 0x4000_0000 % 8) by (bit_vector)
                requires
                    n1 == t >> 30,
                    t <= 0x1_FFFF_FFFF,
            ;
            assert(n2 == t / 0x8000 % 0x8000 && n3 == t % 0x8000) by (bit_vector)
                requires
                    n2 == (t >> 15) & 0x7FFF,
                    n3 == t & 0x7FFF,
            ;
            assert(n % 0x100_0000_0000 == (n0 % 16) * 0x10_0000_0000 + n1 * 0x2_0000_0000
                + 0x1_0000_0000 + n2 * 0x2_0000 + 0x1_0000 + n3 * 2 + 1) by (bit_vector)
                requires
                    n == (n0 << 36) | (n1 << 33) | (1u64 << 32) | (n2 << 17) | (1u64 << 16) | (n3
                        << 1) | 1,
                    n0 < 256,
                    n1 < 8,
                    n2 < 0x8000,
                    n3 < 0x8000,
            ;
            lemma_byte_spans();
            lemma_be_bytes_of_low_part(n as nat, 5);
        }
        write_uint::<5>(writer, n);
        Ok(())
    }

    /// Encodes the timestamp into a 5-byte big-endian array, including the
    /// marker bits and the 4-bit `check_bits` prefix.
    ///
    /// This is a byte-level convenience wrapper around
    /// [`Timestamp::write_to`][Self::write_to] for callers that want the
    /// encoded bytes directly.
    pub fn to_bytes(self, check_bits: u8) -> (bytes: [u8; 5])
        ensures
            bytes@ == timestamp_encoding(self@, check_bits as nat),
    {
        let mut buf: Vec<u8> = Vec::new();
        let _ = self.write_to(&mut buf, check_bits);
        proof {
            lemma_be_bytes_len(timestamp_word(self@, check_bits as nat), 5);
        }
        let bytes: [u8; 5] = [buf[0], buf[1], buf[2], buf[3], buf[4]];
        assert(bytes@ =~= buf@);
        bytes
    }
}

impl From<u32> for Timestamp {
    fn from(n: u32) -> (t: Self)
        ensures
            t@ == n,
    {
        Timestamp(n as u64)
    }
}

impl vstd::std_specs::convert::FromSpecImpl<u32> for Timestamp {
    open spec fn obeys_from_spec() -> bool {
        true
    }

    closed spec fn from_spec(n: u32) -> Timestamp {
        Timestamp(n as u64)
    }
}

/// Timestamp type for PCR/OPCR/ESCR.
///
/// Its view is the value of the clock reference, in units of 1/27000000 second. The value is
/// 300 times the base plus the extension.
#[derive(Debug, Clone, Copy, PartialEq, Eq, Structural, Hash, PartialOrd, Ord)]
pub struct ClockReference(u64);

impl View for ClockReference {
    type V = nat;

    closed spec fn view(&self) -> nat {
        self.0 as nat
    }
}

/// The 33-bit base of a clock reference of value `v`: the number of whole units of 300, as far as
/// 33 bits hold it.
pub open spec fn clock_base(v: nat) -> nat {
    if v / 300 < pow2(33) {
        v / 300
    } else {
        (pow2(33) - 1) as nat
    }
}

/// The 9-bit extension of a clock reference of value `v`: what the base leaves of it. It is below
/// 300 but for values above 300 times the greatest base, where it goes on up to 511.
pub open spec fn clock_extension(v: nat) -> nat {
    (v - 300 * clock_base(v)) as nat
}

/// The word of a PCR of value `v`: the base, six reserved bits, nine bits of extension.
pub open spec fn pcr_word(v: nat, reserved: nat) -> nat {
    clock_base(v) * pow2(15) + reserved * pow2(9) + clock_extension(v)
}

/// The six bytes of a PCR of value `v` with the given reserved bits.
pub open spec fn pcr_encoding(v: nat, reserved: nat) -> Seq<u8> {
    be_bytes(pcr_word(v, reserved), 6)
}

/// The value that a 48-bit PCR word denotes.
pub open spec fn pcr_of_word(word: nat) -> nat {
    word / pow2(15) * 300 + field(word, 0, 9)
}

/// What the first six bytes of `bytes` denote as a PCR.
pub open spec fn pcr_at(bytes: Seq<u8>) -> Result<nat, ErrorModel> {
    if bytes.len() < 6 {
        Err(eof_error())
    } else {
        Ok(pcr_of_word(be_value(bytes.take(6))))
    }
}

/// The word of an ESCR of value `v`: the three highest, the fifteen middle and the fifteen lowest
/// bits of the base, then the extension, each followed by a marker bit.
pub open spec fn escr_word(v: nat) -> nat {
    let base = clock_base(v);
    field(base, 30, 3) * pow2(43) + pow2(42) + field(base, 15, 15) * pow2(27) + pow2(26) + field(
        base,
        0,
        15,
    ) * pow2(11) + pow2(10) + clock_extension(v) * pow2(1) + 1
}

/// The six bytes of an ESCR of value `v`.
pub open spec fn escr_encoding(v: nat) -> Seq<u8> {
    be_bytes(escr_word(v), 6)
}

/// What a 48-bit ESCR word denotes: a value, if the two reserved bits are zero and the four
/// marker bits are set.
pub open spec fn escr_of_word(word: nat) -> Result<nat, ErrorModel> {
    if word / pow2(46) != 0 {
        Err(invalid_input_error("Expected zero in reserved bits"@))
    } else if field(word, 0, 1) == 1 && field(word, 10, 1) == 1 && field(word, 26, 1) == 1 && field(
        word,
        42,
        1,
    ) == 1 {
        let base = field(word, 43, 3) * pow2(30) + field(word, 27, 15) * pow2(15) + field(
            word,
            11,
            15,
        );
        Ok(base * 300 + field(word, 1, 9))
    } else {
        Err(invalid_input_error("Unexpected marker bit"@))
    }
}

/// What the first six bytes of `bytes` denote as an ESCR.
pub open spec fn escr_at(bytes: Seq<u8>) -> Result<nat, ErrorModel> {
    if bytes.len() < 6 {
        Err(eof_error())
    } else {
        escr_of_word(be_value(bytes.take(6)))
    }
}

impl ClockReference {
    /// 27MHz.
    pub const RESOLUTION: u64 = 27_000_000;

    /// Maximum PCR value: the greatest 33-bit base with the greatest 9-bit extension.
    pub const MAX: u64 = 0x1_FFFF_FFFF * 300 + 0b1_1111_1111;

    /// A clock reference is at most the value of the greatest base and extension.
    #[verifier::type_invariant]
    pub open spec fn wf(self) -> bool {
        self@ <= ClockReference::MAX
    }

    /// Makes a new `ClockReference` instance.
    ///
    /// # Errors
    ///
    /// If `n` exceeds `ClockReference::MAX`, it will return an `ErrorKind::InvalidInput` error.
    pub fn new(n: u64) -> (r: Result<Self, Error>)
        ensures
            outcome(r) == (if n <= ClockReference::MAX {
                Ok(n as nat)
            } else {
                Err(too_large_error(n as nat))
            }),
    {
        if n > Self::MAX {
            return Err(too_large(n));
        }
        Ok(ClockReference(n))
    }

    /// Returns the value of the PCR.
    pub fn as_u64(&self) -> (n: u64)
        ensures
            n == self@,
            n <= ClockReference::MAX,
    {
        proof {
            use_type_invariant(self);
        }
        self.0
    }

    /// Reads the 6-byte PCR representation of a clock reference. The reserved bits may have any
    /// value.
    ///
    /// # Errors
    ///
    /// If fewer than six bytes are left, it will return an `ErrorKind::UnexpectedEof` error.
    pub fn read_pcr_from(reader: &mut ByteReader) -> (r: Result<Self, Error>)
        ensures
            outcome(r) == pcr_at(old(reader)@),
            final(reader)@ == old(reader)@.skip(taken(old(reader)@, 6)),
    {
        let n: u64 = match reader.read_uint::<6>() {
            Ok(n) => n,
            Err(e) => return Err(e),
        };
        let base: u64 = n >> 15;
        let extension: u64 = n & 0b1_1111_1111;
        proof {
            lemma2_to64();
            lemma_be_value_bound(old(reader)@.take(6));
            lemma_byte_spans();
            assert(base == n / 0x8000 && extension == n % 0x200) by (bit_vector)
                requires
                    base == n >> 15,
                    extension == n & 0b1_1111_1111,
            ;
        }
        Ok(ClockReference(base * 300 + extension))
    }

    /// Returns the 33-bit base and the 9-bit extension of the clock reference. Where the units of
    /// 300 are too many for the base, it has its greatest value and the extension holds the rest.
    fn base_and_extension(&self) -> (parts: (u64, u64))
        ensures
            parts.0 == clock_base(self@),
            parts.1 == clock_extension(self@),
            parts.0 <= 0x1_FFFF_FFFF,
            parts.1 < 512,
    {
        proof {
            use_type_invariant(self);
            lemma2_to64_rest();
        }
        let units: u64 = self.0 / 300;
        let base: u64 = if units <= 0x1_FFFF_FFFF {
            units
        } else {
            0x1_FFFF_FFFF
        };
        (base, self.0 - base * 300)
    }

    /// Writes the 6-byte PCR representation of the clock reference to the
    /// given writer (33-bit base, 6 zero reserved bits, 9-bit extension).
    ///
    /// Note that [`ClockReference::pcr_to_bytes`][Self::pcr_to_bytes] emits
    /// the spec-conformant `'111111'` reserved bits instead.
    pub fn write_pcr_to(&self, writer: &mut Vec<u8>) -> (r: Result<(), Error>)
        ensures
            r is Ok,
            final(writer)@ == old(writer)@ + pcr_encoding(self@, 0),
    {
        let (base, extension): (u64, u64) = self.base_and_extension();
        let n: u64 = (base << 15) | extension;
        proof {
            lemma2_to64();
            assert(n == base * 0x8000 + extension) by (bit_vector)
                requires
                    n == (base << 15) | extension,
                    base <= 0x1_FFFF_FFFF,
                    extension < 512,
            ;
        }
        write_uint::<6>(writer, n);
        Ok(())
    }

    /// Encodes the clock reference into a 6-byte big-endian PCR array:
    /// 33-bit base, 6 reserved bits set to `'111111'`, 9-bit extension,
    /// as required by ISO/IEC 13818-1 section 2.4.4.9 (and as emitted by ffmpeg).
    pub fn pcr_to_bytes(self) -> (bytes: [u8; 6])
        ensures
            bytes@ == pcr_encoding(self@, 0b11_1111),
    {
        let (base, extension): (u64, u64) = self.base_and_extension();
        let bytes: [u8; 6] = [
            (base >> 25) as u8,
            (base >> 17) as u8,
            (base >> 9) as u8,
            (base >> 1) as u8,
            (((base & 1) << 7) | 0x7E | (extension >> 8)) as u8,
            (extension & 0xFF) as u8,
        ];
        proof {
            lemma2_to64();
            lemma_pcr_bytes(base, extension);
            assert(bytes@ =~= pcr_encoding(self@, 0b11_1111));
        }
        bytes
    }

    /// Reads the 6-byte ESCR representation of a clock reference.
    ///
    /// # Errors
    ///
    /// If a reserved bit is set or a marker bit is not, it will return an
    /// `ErrorKind::InvalidInput` error; if fewer than six bytes are left, an
    /// `ErrorKind::UnexpectedEof` error.
    pub fn read_escr_from(reader: &mut ByteReader) -> (r: Result<Self, Error>)
        ensures
            outcome(r) == escr_at(old(reader)@),
            final(reader)@ == old(reader)@.skip(taken(old(reader)@, 6)),
    {
        let word: u64 = match reader.read_uint::<6>() {
            Ok(n) => n,
            Err(e) => return Err(e),
        };
        proof {
            lemma2_to64();
            lemma2_to64_rest();
            assert(word >> 46 == word / 0x4000_0000_0000) by (bit_vector);
            assert(word & 1 == word % 2) by (bit_vector);
        }
        if word >> 46 != 0 {
            return Err(Error::invalid_input("Expected zero in reserved bits".to_owned()));
        }
        if (word & 1) != 1 {
            return Err(unexpected_marker_bit());
        }
        let extension: u64 = (word >> 1) & 0b1_1111_1111;
        let n: u64 = word >> 10;
        proof {
            assert(extension == word / 2 % 0x200) by (bit_vector)
                requires
                    extension == (word >> 1) & 0b1_1111_1111,
            ;
            assert(n & 1 == word / 0x400 % 2 && (n >> 16) & 1 == word / 0x400_0000 % 2 && (n >> 32)
                & 1 == word / 0x400_0000_0000 % 2) by (bit_vector)
                requires
                    n == word >> 10,
            ;
        }
        if (n & 1) != 1 {
            return Err(unexpected_marker_bit());
        }
        if ((n >> 16) & 1) != 1 {
            return Err(unexpected_marker_bit());
        }
        if ((n >> 32) & 1) != 1 {
            return Err(unexpected_marker_bit());
        }
        let n0: u64 = (n >> 1) & 0x7FFF;
        let n1: u64 = (n >> 17) & 0x7FFF;
        let n2: u64 = (n >> 33) & 0x7;
        let base: u64 = n0 | (n1 << 15) | (n2 << 30);
        proof {
            assert(n0 == word / 0x800 % 0x8000) by (bit_vector)
                requires
                    n == word >> 10,
                    n0 == (n >> 1) & 0x7FFF,
            ;
            assert(n1 == word / 0x800_0000 % 0x8000) by (bit_vector)
                requires
                    n == word >> 10,
                    n1 == (n >> 17) & 0x7FFF,
            ;
            assert(n2 == word / 0x800_0000_0000 % 8) by (bit_vector)
                requires
                    n == word >> 10,
                    n2 == (n >> 33) & 0x7,
            ;
            assert(base == n2 * 0x4000_0000 + n1 * 0x8000 + n0 && base <= 0x1_FFFF_FFFF)
                by (bit_vector)
                requires
                    base == n0 | (n1 << 15) | (n2 << 30),
                    n0 < 0x8000,
                    n1 < 0x8000,
                    n2 < 8,
            ;
        }
        Ok(ClockReference(base * 300 + extension))
    }

    /// Writes the 6-byte ESCR representation of the clock reference to the given writer,
    /// including the marker bits.
    pub fn write_escr_to(&self, writer: &mut Vec<u8>) -> (r: Result<(), Error>)
        ensures
            r is Ok,
            final(writer)@ == old(writer)@ + escr_encoding(self@),
    {
        let (base, extension): (u64, u64) = self.base_and_extension();
        let marker: u64 = 1;
        let base0: u64 = base & 0x7FFF;
        let base1: u64 = (base >> 15) & 0x7FFF;
        let base2: u64 = base >> 30;
        let n: u64 = marker | (extension << 1) | (marker << 10) | (base0 << 11) | (marker << 26) | (
        base1 << 27) | (marker << 42) | (base2 << 43);
        proof {
            lemma2_to64();
            lemma2_to64_rest();
            assert(base0 == base % 0x8000 && base1 == base / 0x8000 % 0x8000 && base2 == base
                / 0x4000_0000 % 8) by (bit_vector)
                requires
                    base <= 0x1_FFFF_FFFF,
                    base0 == base & 0x7FFF,
                    base1 == (base >> 15) & 0x7FFF,
                    base2 == base >> 30,
            ;
            assert(n == base2 * 0x800_0000_0000 + 0x400_0000_0000 + base1 * 0x800_0000 + 0x400_0000
                + base0 * 0x800 + 0x400 + extension * 2 + 1) by (bit_vector)
                requires
                    n == 1u64 | (extension << 1) | (1u64 << 10) | (base0 << 11) | (1u64 << 26) | (
                    base1 << 27) | (1u64 << 42) | (base2 << 43),
                    extension < 512,
                    base0 < 0x8000,
                    base1 < 0x8000,
                    base2 < 8,
            ;
        }
        write_uint::<6>(writer, n);
        Ok(())
    }
}

/// The bytes of a PCR whose reserved bits are set, computed from base and extension.
proof fn lemma_pcr_bytes(base: u64, extension: u64)
    requires
        base <= 0x1_FFFF_FFFF,
        extension < 512,
    ensures
        be_bytes((base * 0x8000 + 0b11_1111 * 0x200 + extension) as nat, 6) == seq![
            (base >> 25) as u8,
            (base >> 17) as u8,
            (base >> 9) as u8,
            (base >> 1) as u8,
            (((base & 1) << 7) | 0x7E | (extension >> 8)) as u8,
            (extension & 0xFF) as u8,
        ],
{
    let w: u64 = (base * 0x8000 + 0b11_1111 * 0x200 + extension) as u64;
    assert(w == (base << 15) | (0b11_1111u64 << 9) | extension) by (bit_vector)
        requires
            w == base * 0x8000 + 0b11_1111 * 0x200 + extension,
            base <= 0x1_FFFF_FFFF,
            extension < 512,
    ;
    assert((w / 0x100_0000_0000 % 256) as u8 == (base >> 25) as u8 && (w / 0x1_0000_0000 % 256)
        as u8 == (base >> 17) as u8 && (w / 0x100_0000 % 256) as u8 == (base >> 9) as u8 && (w
        / 0x1_0000 % 256) as u8 == (base >> 1) as u8 && (w / 0x100 % 256) as u8 == (((base & 1) << 7)
        | 0x7E | (extension >> 8)) as u8 && (w % 256) as u8 == (extension & 0xFF) as u8)
        by (bit_vector)
        requires
            w == (base << 15) | (0b11_1111u64 << 9) | extension,
            base <= 0x1_FFFF_FFFF,
            extension < 512,
    ;
    lemma_six_be_bytes(w as nat);
}

impl From<u32> for ClockReference {
    fn from(n: u32) -> (c: Self)
        ensures
            c@ == n,
    {
        ClockReference(n as u64)
    }
}

impl vstd::std_specs::convert::FromSpecImpl<u32> for ClockReference {
    open spec fn obeys_from_spec() -> bool {
        true
    }

    closed spec fn from_spec(n: u32) -> ClockReference {
        ClockReference(n as u64)
    }
}

impl From<Timestamp> for ClockReference {
    fn from(f: Timestamp) -> (c: Self)
        ensures
            c@ == f@ * 300,
    {
        proof {
            use_type_invariant(&f);
        }
        ClockReference(f.0 * 300)
    }
}

impl vstd::std_specs::convert::FromSpecImpl<Timestamp> for ClockReference {
    open spec fn obeys_from_spec() -> bool {
        true
    }

    closed spec fn from_spec(f: Timestamp) -> ClockReference {
        ClockReference((f.0 * 300) as u64)
    }
}

/// The value of an optional timestamp.
pub open spec fn timestamp_value(t: Option<Timestamp>) -> Option<nat> {
    match t {
        Some(t) => Some(t@),
        None => None,
    }
}

/// The value of an optional clock reference.
pub open spec fn clock_value(c: Option<ClockReference>) -> Option<nat> {
    match c {
        Some(c) => Some(c@),
        None => None,
    }
}

/// Timestamps of the same value are equal.
pub proof fn timestamp_is_its_value(a: Timestamp, b: Timestamp)
    requires
        a@ == b@,
    ensures
        a == b,
{
}

/// Clock references of the same value are equal.
pub proof fn clock_reference_is_its_value(a: ClockReference, b: ClockReference)
    requires
        a@ == b@,
    ensures
        a == b,
{
}

} // verus!
