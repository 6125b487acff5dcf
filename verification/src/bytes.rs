//! Big-endian integers on byte strings, and a reader over a byte slice.
use crate::error::{eof_error, invalid_input_error, outcome, Error, ErrorModel};
use vstd::arithmetic::div_mod::{lemma_mod_breakdown, lemma_small_mod};
use vstd::arithmetic::power2::{lemma2_to64, pow2};
use vstd::prelude::*;

pub mod operations;

verus! {

/// The number that the bytes of `s` denote, most significant byte first.
pub open spec fn be_value(s: Seq<u8>) -> nat
    decreases s.len(),
{
    if s.len() == 0 {
        0
    } else {
        be_value(s.drop_last()) * 256 + s.last() as nat
    }
}

/// The lowest `len` bytes of `n`, most significant byte first.
pub open spec fn be_bytes(n: nat, len: nat) -> Seq<u8>
    decreases len,
{
    if len == 0 {
        Seq::empty()
    } else {
        be_bytes(n / 256, (len - 1) as nat).push((n % 256) as u8)
    }
}

/// The number in the `width` bits of `n` that begin `at` bits above the lowest one.
pub open spec fn field(n: nat, at: nat, width: nat) -> nat {
    n / pow2(at) % pow2(width)
}

/// Whether bit `at` of `b` is set.
pub open spec fn flag(b: u8, at: nat) -> bool {
    field(b as nat, at, 1) == 1
}

/// The number of byte strings of length `len`: 256 to the power of `len`.
pub open spec fn byte_span(len: nat) -> nat
    decreases len,
{
    if len == 0 {
        1
    } else {
        256 * byte_span((len - 1) as nat)
    }
}

/// How many of the bytes of `s` a read of `want` bytes takes.
pub open spec fn taken(s: Seq<u8>, want: nat) -> int {
    if want <= s.len() {
        want as int
    } else {
        s.len() as int
    }
}

/// A field that is read where it is present.
pub open spec fn where_present<T>(present: bool, value: Result<T, ErrorModel>) -> Result<
    Option<T>,
    ErrorModel,
> {
    if !present {
        Ok(None)
    } else {
        match value {
            Ok(v) => Ok(Some(v)),
            Err(e) => Err(e),
        }
    }
}

/// What is left of `s` behind a field of `size` bytes where it is present.
pub open spec fn behind(present: bool, s: Seq<u8>, size: int) -> Seq<u8> {
    if present {
        s.skip(size)
    } else {
        s
    }
}

/// Whether all bytes of `s` are stuffing.
pub open spec fn is_stuffing(s: Seq<u8>) -> bool {
    forall|i: int| 0 <= i < s.len() ==> s[i] == 0xFF
}

/// The error for a byte that is not stuffing where only stuffing may stand.
pub open spec fn stuffing_error() -> ErrorModel {
    invalid_input_error("Unexpected stuffing byte"@)
}

/// `be_bytes` yields as many bytes as it is asked for.
pub proof fn lemma_be_bytes_len(n: nat, len: nat)
    ensures
        be_bytes(n, len).len() == len,
    decreases len,
{
    if len > 0 {
        lemma_be_bytes_len(n / 256, (len - 1) as nat);
    }
}

/// A byte string of length `len` denotes a number below `byte_span(len)`.
pub proof fn lemma_be_value_bound(s: Seq<u8>)
    ensures
        be_value(s) < byte_span(s.len()),
    decreases s.len(),
{
    if s.len() > 0 {
        lemma_be_value_bound(s.drop_last());
    }
}

/// Reading back the lowest `len` bytes of `n` gives `n` modulo `byte_span(len)`.
pub proof fn lemma_be_value_of_be_bytes(n: nat, len: nat)
    ensures
        be_value(be_bytes(n, len)) == n % byte_span(len),
        byte_span(len) > 0,
    decreases len,
{
    if len > 0 {
        let k = (len - 1) as nat;
        lemma_be_value_of_be_bytes(n / 256, k);
        let s = be_bytes(n, len);
        assert(s.drop_last() =~= be_bytes(n / 256, k));
        lemma_mod_breakdown(n as int, 256, byte_span(k) as int);
    }
}

/// A number that was written in enough bytes is read back, whatever follows it.
pub proof fn lemma_written_bytes(n: nat, len: nat, rest: Seq<u8>)
    requires
        n < byte_span(len),
    ensures
        be_bytes(n, len).len() == len,
        (be_bytes(n, len) + rest).take(len as int) == be_bytes(n, len),
        be_value(be_bytes(n, len)) == n,
{
    lemma_be_bytes_len(n, len);
    lemma_be_value_of_be_bytes(n, len);
    lemma_small_mod(n, byte_span(len));
}

/// Writing the number that `s` denotes in as many bytes as `s` has gives `s` back.
pub proof fn lemma_be_bytes_of_be_value(s: Seq<u8>)
    ensures
        be_bytes(be_value(s), s.len()) == s,
    decreases s.len(),
{
    if s.len() > 0 {
        lemma_be_bytes_of_be_value(s.drop_last());
        assert(s =~= s.drop_last().push(s.last()));
    } else {
        assert(s =~= Seq::empty());
    }
}

/// The lowest `len` bytes of `n` depend on `n` modulo `byte_span(len)` only.
pub proof fn lemma_be_bytes_of_low_part(n: nat, len: nat)
    ensures
        be_bytes(n % byte_span(len), len) == be_bytes(n, len),
{
    lemma_be_bytes_len(n, len);
    lemma_be_value_of_be_bytes(n, len);
    lemma_be_bytes_of_be_value(be_bytes(n, len));
}

/// The lowest six bytes of `n`, one by one.
pub proof fn lemma_six_be_bytes(n: nat)
    ensures
        be_bytes(n, 6) == seq![
            (n / 0x100_0000_0000 % 256) as u8,
            (n / 0x1_0000_0000 % 256) as u8,
            (n / 0x100_0000 % 256) as u8,
            (n / 0x1_0000 % 256) as u8,
            (n / 0x100 % 256) as u8,
            (n % 256) as u8,
        ],
{
    let n1 = n / 256;
    let n2 = n1 / 256;
    let n3 = n2 / 256;
    let n4 = n3 / 256;
    let n5 = n4 / 256;
    assert(n2 == n / 0x1_0000);
    assert(n3 == n / 0x100_0000);
    assert(n4 == n / 0x1_0000_0000);
    assert(n5 == n / 0x100_0000_0000);
    let none = Seq::<u8>::empty();
    assert(be_bytes(n5 / 256, 0) == none);
    assert(be_bytes(n5, 1) == none.push((n5 % 256) as u8));
    assert(be_bytes(n4, 2) == be_bytes(n5, 1).push((n4 % 256) as u8));
    assert(be_bytes(n3, 3) == be_bytes(n4, 2).push((n3 % 256) as u8));
    assert(be_bytes(n2, 4) == be_bytes(n3, 3).push((n2 % 256) as u8));
    assert(be_bytes(n1, 5) == be_bytes(n2, 4).push((n1 % 256) as u8));
    assert(be_bytes(n, 6) == be_bytes(n1, 5).push((n % 256) as u8));
}

/// The spans of the integer widths in use.
pub proof fn lemma_byte_spans()
    ensures
        byte_span(1) == 0x100,
        byte_span(2) == 0x1_0000,
        byte_span(3) == 0x100_0000,
        byte_span(5) == 0x100_0000_0000,
        byte_span(6) == 0x1_0000_0000_0000,
        byte_span(8) == 0x1_0000_0000_0000_0000,
{
    reveal_with_fuel(byte_span, 9);
}

/// Longer byte strings have the greater span.
pub proof fn lemma_byte_span_order(a: nat, b: nat)
    requires
        a <= b,
    ensures
        byte_span(a) <= byte_span(b),
    decreases b,
{
    if a < b {
        lemma_byte_span_order(a, (b - 1) as nat);
    }
}

/// The bits of a byte, by masks and by place value.
pub proof fn lemma_flags(b: u8)
    ensures
        (b & 0b1000_0000 != 0) == flag(b, 7),
        (b & 0b0100_0000 != 0) == flag(b, 6),
        (b & 0b0010_0000 != 0) == flag(b, 5),
        (b & 0b0001_0000 != 0) == flag(b, 4),
        (b & 0b0000_1000 != 0) == flag(b, 3),
        (b & 0b0000_0100 != 0) == flag(b, 2),
        (b & 0b0000_0010 != 0) == flag(b, 1),
        (b & 0b0000_0001 != 0) == flag(b, 0),
        (b & 0b1100_0000 == 0b1000_0000) == (field(b as nat, 6, 2) == 2),
        (b & 0b0011_0000) >> 4 == field(b as nat, 4, 2),
{
    lemma2_to64();
    assert((b & 0b1000_0000 != 0) == (b / 128 % 2 == 1) && (b & 0b0100_0000 != 0) == (b / 64 % 2
        == 1) && (b & 0b0010_0000 != 0) == (b / 32 % 2 == 1) && (b & 0b0001_0000 != 0) == (b / 16
        % 2 == 1) && (b & 0b0000_1000 != 0) == (b / 8 % 2 == 1) && (b & 0b0000_0100 != 0) == (b / 4
        % 2 == 1) && (b & 0b0000_0010 != 0) == (b / 2 % 2 == 1) && (b & 0b0000_0001 != 0) == (b % 2
        == 1)) by (bit_vector);
    assert((b & 0b1100_0000 == 0b1000_0000) == (b / 64 % 4 == 2) && (b & 0b0011_0000) >> 4 == b / 16
        % 4) by (bit_vector);
}

/// Appends the lowest `N` bytes of `n` to `out`, most significant byte first.
pub fn write_uint<const N: usize>(out: &mut Vec<u8>, n: u64)
    ensures
        final(out)@ == old(out)@ + be_bytes(n as nat, N as nat),
{
    write_low_bytes(out, n, N);
}

fn write_low_bytes(out: &mut Vec<u8>, n: u64, len: usize)
    ensures
        final(out)@ == old(out)@ + be_bytes(n as nat, len as nat),
    decreases len,
{
    if len > 0 {
        write_low_bytes(out, n / 256, len - 1);
        out.push((n % 256) as u8);
    }
    assert(out@ =~= old(out)@ + be_bytes(n as nat, len as nat));
}

/// A reader that hands out the bytes of a slice from front to back.
///
/// Its view is the string of bytes not yet read.
#[derive(Debug, Clone, Copy)]
pub struct ByteReader<'a> {
    rest: &'a [u8],
}

impl<'a> View for ByteReader<'a> {
    type V = Seq<u8>;

    closed spec fn view(&self) -> Seq<u8> {
        self.rest@
    }
}

impl<'a> ByteReader<'a> {
    /// Makes a reader of all the bytes of `bytes`.
    pub fn new(bytes: &'a [u8]) -> (r: Self)
        ensures
            r@ == bytes@,
    {
        ByteReader { rest: bytes }
    }

    /// Returns the bytes not yet read.
    pub fn remaining(&self) -> (s: &'a [u8])
        ensures
            s@ == self@,
    {
        self.rest
    }

    /// Cuts the next `limit` bytes off, or all that are left if there are fewer, and returns a
    /// reader of them.
    pub fn take(&mut self, limit: usize) -> (front: ByteReader<'a>)
        ensures
            front@ == old(self)@.take(taken(old(self)@, limit as nat)),
            final(self)@ == old(self)@.skip(taken(old(self)@, limit as nat)),
    {
        let n: usize = if limit < self.rest.len() {
            limit
        } else {
            self.rest.len()
        };
        let (front, back) = self.rest.split_at(n);
        self.rest = back;
        ByteReader { rest: front }
    }

    /// Reads an unsigned integer of `N` bytes, most significant byte first.
    ///
    /// # Errors
    ///
    /// If fewer than `N` bytes are left, it reads them all and returns an
    /// [`ErrorKind::UnexpectedEof`][crate::error::ErrorKind] error.
    pub fn read_uint<const N: usize>(&mut self) -> (r: Result<u64, Error>)
        requires
            N <= 8,
        ensures
            match r {
                Ok(n) => N <= old(self)@.len() && n == be_value(old(self)@.take(N as int)),
                Err(e) => N > old(self)@.len() && e@ == eof_error(),
            },
            final(self)@ == old(self)@.skip(taken(old(self)@, N as nat)),
    {
        let bytes: &'a [u8] = self.take(N).rest;
        if bytes.len() < N {
            return Err(Error::unexpected_eof());
        }
        let mut n: u64 = 0;
        let mut i: usize = 0;
        while i < N
            invariant
                i <= N,
                N <= 8,
                bytes@.len() == N,
                n == be_value(bytes@.take(i as int)),
            decreases N - i,
        {
            proof {
                let s = bytes@.take(i + 1);
                assert(s.drop_last() =~= bytes@.take(i as int));
                lemma_be_value_bound(s);
                lemma_byte_span_order((i + 1) as nat, 8);
                lemma_byte_spans();
            }
            n = n * 256 + bytes[i] as u64;
            i = i + 1;
        }
        proof {
            assert(bytes@.take(N as int) =~= bytes@);
        }
        Ok(n)
    }

    /// Reads a byte.
    ///
    /// # Errors
    ///
    /// If no byte is left, it returns an [`ErrorKind::UnexpectedEof`][crate::error::ErrorKind] error.
    pub fn read_u8(&mut self) -> (r: Result<u8, Error>)
        ensures
            match r {
                Ok(b) => 1 <= old(self)@.len() && b == old(self)@[0],
                Err(e) => old(self)@.len() == 0 && e@ == eof_error(),
            },
            final(self)@ == old(self)@.skip(taken(old(self)@, 1)),
    {
        let bytes: &'a [u8] = self.take(1).rest;
        if bytes.len() < 1 {
            return Err(Error::unexpected_eof());
        }
        Ok(bytes[0])
    }

    /// Reads an unsigned integer of two bytes, most significant byte first.
    ///
    /// # Errors
    ///
    /// If fewer than two bytes are left, it reads them all and returns an
    /// [`ErrorKind::UnexpectedEof`][crate::error::ErrorKind] error.
    pub fn read_u16(&mut self) -> (r: Result<u16, Error>)
        ensures
            match r {
                Ok(n) => 2 <= old(self)@.len() && n == be_value(old(self)@.take(2)),
                Err(e) => 2 > old(self)@.len() && e@ == eof_error(),
            },
            final(self)@ == old(self)@.skip(taken(old(self)@, 2)),
    {
        proof {
            if self@.len() >= 2 {
                lemma_be_value_bound(self@.take(2));
            }
            lemma_byte_spans();
        }
        match self.read_uint::<2>() {
            Ok(n) => Ok(n as u16),
            Err(e) => Err(e),
        }
    }
}

/// Reads all the bytes that are left and makes sure that they are stuffing.
///
/// # Errors
///
/// If one of them is not `0xFF`, it returns an `ErrorKind::InvalidInput` error.
pub fn consume_stuffing_bytes(reader: &mut ByteReader) -> (r: Result<(), Error>)
    ensures
        outcome(r) == (if is_stuffing(old(reader)@) {
            Ok(())
        } else {
            Err(stuffing_error())
        }),
        final(reader)@ == old(reader)@.skip(old(reader)@.len() as int),
{
    let bytes: &[u8] = reader.take(reader.remaining().len()).remaining();
    let mut i: usize = 0;
    while i < bytes.len()
        invariant
            i <= bytes@.len(),
            bytes@ == old(reader)@,
            reader@ == old(reader)@.skip(old(reader)@.len() as int),
            forall|j: int| 0 <= j < i ==> bytes@[j] == 0xFF,
        decreases bytes.len() - i,
    {
        if bytes[i] != 0xFF {
            return Err(Error::invalid_input("Unexpected stuffing byte".to_owned()));
        }
        i = i + 1;
    }
    Ok(())
}

} // verus!
