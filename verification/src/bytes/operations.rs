//! What the operations on byte strings do, stated of their arguments and results.
use crate::bytes::{
    be_bytes, be_value, byte_span, consume_stuffing_bytes, lemma_be_bytes_len,
    lemma_be_bytes_of_be_value, lemma_be_value_bound, write_uint, ByteReader,
};
use crate::error::{is_eof, is_invalid_input, Error};
use vstd::arithmetic::div_mod::lemma_div_denominator;
use vstd::arithmetic::power::{lemma_pow0, lemma_pow_positive, pow};
use vstd::prelude::*;

verus! {

/// Whether `n` in base 256 has the `len` bytes of `s` from `at` on as its lowest digits, the most
/// significant one first.
pub open spec fn are_digits_of(s: Seq<u8>, at: int, len: nat, n: int) -> bool {
    forall|i: int|
        0 <= i < len ==> (#[trigger] s[at + i]) == n / pow(256, (len - 1 - i) as nat) % 256
}

/// Writing a number appends exactly as many bytes as are asked for, which are its lowest digits in
/// base 256, and leaves what stood before.
pub proof fn written_number_is_appended<const N: usize>(out: &mut Vec<u8>, n: u64)
    requires
        call_ensures(write_uint::<N>, (out, n), ()),
    ensures
        final(out)@.len() == old(out)@.len() + N,
        forall|i: int| 0 <= i < old(out)@.len() ==> final(out)@[i] == old(out)@[i],
        are_digits_of(final(out)@, old(out)@.len() as int, N as nat, n as int),
{
    lemma_be_bytes_len(n as nat, N as nat);
    assert forall|i: int| 0 <= i < N implies (#[trigger] final(out)@[old(out)@.len() + i]) == n
        as int / pow(256, (N - 1 - i) as nat) % 256 by {
        lemma_digit(n as nat, N as nat, i);
    }
}

/// Reading a number takes its bytes and gives the number that has them as its digits in base 256.
/// It fails if and only if there are too few bytes, and takes them all in that case.
pub proof fn read_number_has_the_bytes_as_digits<const N: usize>(
    reader: &mut ByteReader,
    r: Result<u64, Error>,
)
    requires
        N <= 8,
        call_ensures(ByteReader::read_uint::<N>, (reader,), r),
    ensures
        match r {
            Ok(n) => {
                &&& N <= old(reader)@.len()
                &&& n < pow(256, N as nat)
                &&& are_digits_of(old(reader)@, 0, N as nat, n as int)
                &&& final(reader)@ == old(reader)@.skip(N as int)
            },
            Err(e) => {
                &&& N > old(reader)@.len()
                &&& is_eof(e)
                &&& final(reader)@.len() == 0
            },
        },
{
    if let Ok(n) = r {
        let s = old(reader)@.take(N as int);
        lemma_be_value_bound(s);
        lemma_byte_span_is_a_power(N as nat);
        lemma_be_bytes_of_be_value(s);
        assert forall|i: int| 0 <= i < N implies (#[trigger] old(reader)@[0 + i]) == n as int / pow(
            256,
            (N - 1 - i) as nat,
        ) % 256 by {
            lemma_digit(n as nat, N as nat, i);
            assert(s[i] == old(reader)@[i]);
        }
    }
}

/// Reading a byte gives the first one and leaves the others. It fails if and only if none is left.
pub proof fn read_byte_is_the_first(reader: &mut ByteReader, r: Result<u8, Error>)
    requires
        call_ensures(ByteReader::read_u8, (reader,), r),
    ensures
        match r {
            Ok(b) => {
                &&& old(reader)@.len() >= 1
                &&& old(reader)@ == seq![b] + final(reader)@
            },
            Err(e) => {
                &&& old(reader)@.len() == 0
                &&& is_eof(e)
                &&& final(reader)@.len() == 0
            },
        },
{
}

/// Reading two bytes gives the first as the high and the second as the low byte of the number. It
/// fails if and only if fewer are left, and takes them all in that case.
pub proof fn read_two_bytes_are_high_and_low(reader: &mut ByteReader, r: Result<u16, Error>)
    requires
        call_ensures(ByteReader::read_u16, (reader,), r),
    ensures
        match r {
            Ok(n) => {
                &&& old(reader)@.len() >= 2
                &&& n == old(reader)@[0] * 256 + old(reader)@[1]
                &&& final(reader)@ == old(reader)@.skip(2)
            },
            Err(e) => {
                &&& old(reader)@.len() < 2
                &&& is_eof(e)
                &&& final(reader)@.len() == 0
            },
        },
{
    if r is Ok {
        lemma_two_bytes(old(reader)@.take(2));
    }
}

/// Taking the front of a reader's bytes splits them: what is taken, then what is left, at the limit
/// or at the end if that comes first.
pub proof fn taken_front_and_rest_make_up_the_bytes<'a>(
    reader: &mut ByteReader<'a>,
    limit: usize,
    front: ByteReader<'a>,
)
    requires
        call_ensures(ByteReader::<'a>::take, (reader, limit), front),
    ensures
        front@ + final(reader)@ == old(reader)@,
        front@.len() <= limit,
        front@.len() < limit ==> final(reader)@.len() == 0,
{
}

/// A new reader hands out all the bytes of its slice, and those that are left are told by
/// `remaining`.
pub proof fn new_reader_holds_all_bytes<'a>(
    bytes: &'a [u8],
    reader: ByteReader<'a>,
    rest: &'a [u8],
)
    requires
        call_ensures(ByteReader::<'a>::new, (bytes,), reader),
        call_ensures(ByteReader::<'a>::remaining, (&reader,), rest),
    ensures
        reader@ == bytes@,
        rest@ == bytes@,
{
}

/// Stuffing is accepted if and only if every byte of it is `0xFF`; it is taken whole either way.
pub proof fn stuffing_is_all_ones(reader: &mut ByteReader, r: Result<(), Error>)
    requires
        call_ensures(consume_stuffing_bytes, (reader,), r),
    ensures
        r is Ok <==> old(reader)@ == Seq::new(old(reader)@.len(), |i: int| 0xFFu8),
        r matches Err(e) ==> is_invalid_input(e, "Unexpected stuffing byte"@),
        final(reader)@.len() == 0,
{
    let ones = Seq::new(old(reader)@.len(), |i: int| 0xFFu8);
    if r is Ok {
        assert(old(reader)@ =~= ones);
    } else if old(reader)@ == ones {
        assert forall|i: int| 0 <= i < old(reader)@.len() implies old(reader)@[i] == 0xFF by {
            assert(ones[i] == 0xFF);
        }
    }
}

/// The span of byte strings is a power of 256.
proof fn lemma_byte_span_is_a_power(len: nat)
    ensures
        byte_span(len) == pow(256, len),
    decreases len,
{
    reveal(pow);
    if len > 0 {
        lemma_byte_span_is_a_power((len - 1) as nat);
    }
}

/// The byte at `i` of the lowest `len` bytes of `n`.
proof fn lemma_digit(n: nat, len: nat, i: int)
    requires
        0 <= i < len,
    ensures
        be_bytes(n, len)[i] == n as int / pow(256, (len - 1 - i) as nat) % 256,
    decreases len,
{
    let k = (len - 1) as nat;
    lemma_be_bytes_len(n / 256, k);
    if i == k {
        lemma_pow0(256);
    } else {
        lemma_digit(n / 256, k, i);
        let e = (k - 1 - i) as nat;
        lemma_pow_positive(256, e);
        lemma_div_denominator(n as int, 256, pow(256, e));
        reveal(pow);
        assert(pow(256, (len - 1 - i) as nat) == 256 * pow(256, e));
    }
}

/// The number that two bytes denote.
pub proof fn lemma_two_bytes(s: Seq<u8>)
    requires
        s.len() == 2,
    ensures
        be_value(s) == s[0] * 0x100 + s[1],
{
    let s1 = s.drop_last();
    assert(be_value(s1.drop_last()) == 0);
    assert(be_value(s1) == s[0]);
}

/// The number that three bytes denote.
pub proof fn lemma_three_bytes(s: Seq<u8>)
    requires
        s.len() == 3,
    ensures
        be_value(s) == s[0] * 0x1_0000 + s[1] * 0x100 + s[2],
{
    lemma_two_bytes(s.drop_last());
}

/// The number that five bytes denote.
pub proof fn lemma_five_bytes(s: Seq<u8>)
    requires
        s.len() == 5,
    ensures
        be_value(s) == s[0] * 0x1_0000_0000 + s[1] * 0x100_0000 + s[2] * 0x1_0000 + s[3] * 0x100
            + s[4],
{
    let s4 = s.drop_last();
    let s3 = s4.drop_last();
    lemma_three_bytes(s3);
    assert(be_value(s4) == be_value(s3) * 256 + s[3]);
}

/// The number that six bytes denote.
pub proof fn lemma_six_bytes(s: Seq<u8>)
    requires
        s.len() == 6,
    ensures
        be_value(s) == s[0] * 0x100_0000_0000 + s[1] * 0x1_0000_0000 + s[2] * 0x100_0000 + s[3]
            * 0x1_0000 + s[4] * 0x100 + s[5],
{
    lemma_five_bytes(s.drop_last());
}

} // verus!
