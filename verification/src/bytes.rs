//! Big-endian integers and UTF-8 strings as byte sequences.

use vstd::prelude::*;
use vstd::slice::{slice_subrange, slice_to_vec};
use vstd::utf8::{decode_utf8, valid_utf8};

verus! {

/// The two bytes of `n`, most significant first.
pub open spec fn u16_be(n: u16) -> Seq<u8> {
    seq![(n / 256) as u8, (n % 256) as u8]
}

/// The number whose big-endian bytes are `hi`, `lo`.
pub open spec fn u16_from_be(hi: u8, lo: u8) -> u16 {
    (hi * 256 + lo) as u16
}

/// The four bytes of `n`, most significant first.
pub open spec fn u32_be(n: u32) -> Seq<u8> {
    seq![
        (n / 0x100_0000) as u8,
        (n / 0x1_0000 % 256) as u8,
        (n / 0x100 % 256) as u8,
        (n % 256) as u8,
    ]
}

/// The number whose big-endian bytes are `b0` to `b3`.
pub open spec fn u32_from_be(b0: u8, b1: u8, b2: u8, b3: u8) -> u32 {
    (b0 * 0x100_0000 + b1 * 0x1_0000 + b2 * 0x100 + b3) as u32
}

/// The four bytes of `n` in two's complement, most significant first.
pub open spec fn i32_be(n: i32) -> Seq<u8> {
    u32_be(n as u32)
}

/// The signed number whose two's-complement big-endian bytes are `b0` to `b3`.
pub open spec fn i32_from_be(b0: u8, b1: u8, b2: u8, b3: u8) -> i32 {
    u32_from_be(b0, b1, b2, b3) as i32
}

/// The two bytes of a number hold that number.
pub proof fn lemma_u16_be_round_trip(n: u16)
    ensures
        u16_be(n).len() == 2,
        u16_from_be(u16_be(n)[0], u16_be(n)[1]) == n,
{
}

/// The four bytes of a number hold that number.
pub proof fn lemma_u32_be_round_trip(n: u32)
    ensures
        u32_be(n).len() == 4,
        u32_from_be(u32_be(n)[0], u32_be(n)[1], u32_be(n)[2], u32_be(n)[3]) == n,
{
}

/// A two-byte number reads back, whatever follows it.
pub proof fn lemma_parse_u16_of_bytes(n: u16, rest: Seq<u8>)
    ensures
        parse_u16(u16_be(n) + rest) == Some(n),
{
    lemma_u16_be_round_trip(n);
    let b = u16_be(n) + rest;
    assert(b[0] == u16_be(n)[0]);
    assert(b[1] == u16_be(n)[1]);
}

/// A four-byte number reads back, whatever follows it.
pub proof fn lemma_parse_u32_of_bytes(n: u32, rest: Seq<u8>)
    ensures
        parse_u32(u32_be(n) + rest) == Some(n),
{
    lemma_u32_be_round_trip(n);
    let b = u32_be(n) + rest;
    assert(b[0] == u32_be(n)[0]);
    assert(b[1] == u32_be(n)[1]);
    assert(b[2] == u32_be(n)[2]);
    assert(b[3] == u32_be(n)[3]);
}

/// A signed four-byte number reads back, whatever follows it.
pub proof fn lemma_parse_i32_of_bytes(n: i32, rest: Seq<u8>)
    ensures
        parse_i32(i32_be(n) + rest) == Some(n),
{
    lemma_parse_u32_of_bytes(n as u32, rest);
    assert((n as u32) as i32 == n) by (bit_vector);
}

/// A string reads back from its UTF-8 bytes, whatever follows them.
pub proof fn lemma_parse_str_of_bytes(s: Seq<char>, rest: Seq<u8>)
    ensures
        parse_str(utf8(s) + rest, utf8(s).len()) == Some(s),
{
    let b = utf8(s) + rest;
    assert(b.take(utf8(s).len() as int) =~= utf8(s));
    vstd::utf8::encode_utf8_valid_utf8(s);
    vstd::utf8::encode_utf8_decode_utf8(s);
}

/// What was read as a two-byte number is those two bytes.
pub proof fn lemma_bytes_of_parsed_u16(b: Seq<u8>)
    requires
        parse_u16(b) is Some,
    ensures
        u16_be(parse_u16(b)->0) == b.take(2),
{
    assert(u16_be(parse_u16(b)->0) =~= b.take(2));
}

/// What was read as a four-byte number is those four bytes.
pub proof fn lemma_bytes_of_parsed_u32(b: Seq<u8>)
    requires
        parse_u32(b) is Some,
    ensures
        u32_be(parse_u32(b)->0) == b.take(4),
{
    let n = u32_from_be(b[0], b[1], b[2], b[3]);
    let b0 = b[0] as int;
    let b1 = b[1] as int;
    let b2 = b[2] as int;
    let b3 = b[3] as int;
    assert(n == b0 * 0x100_0000 + b1 * 0x1_0000 + b2 * 0x100 + b3);
    assert(n / 0x100_0000 == b0);
    assert(n / 0x1_0000 % 256 == b1);
    assert(n / 0x100 % 256 == b2);
    assert(n % 256 == b3);
    assert(u32_be(n) =~= b.take(4));
}

/// What was read as a signed four-byte number is those four bytes.
pub proof fn lemma_bytes_of_parsed_i32(b: Seq<u8>)
    requires
        parse_i32(b) is Some,
    ensures
        i32_be(parse_i32(b)->0) == b.take(4),
{
    let n = u32_from_be(b[0], b[1], b[2], b[3]);
    assert(((n as i32) as u32) == n) by (bit_vector);
    lemma_bytes_of_parsed_u32(b);
}

/// What was read as a string is the bytes of that string.
pub proof fn lemma_bytes_of_parsed_str(b: Seq<u8>, len: nat)
    requires
        parse_str(b, len) is Some,
    ensures
        utf8(parse_str(b, len)->0) == b.take(len as int),
{
    vstd::utf8::decode_utf8_encode_utf8(b.take(len as int));
}

/// Appends the two big-endian bytes of `n` to `out`.
pub fn push_u16_be(out: &mut Vec<u8>, n: u16)
    ensures
        final(out)@ == old(out)@ + u16_be(n),
{
    out.push((n / 256) as u8);
    out.push((n % 256) as u8);
    assert(out@ =~= old(out)@ + u16_be(n));
}

/// Appends the four big-endian bytes of `n` to `out`.
pub fn push_u32_be(out: &mut Vec<u8>, n: u32)
    ensures
        final(out)@ == old(out)@ + u32_be(n),
{
    out.push((n / 0x100_0000) as u8);
    out.push((n / 0x1_0000 % 256) as u8);
    out.push((n / 0x100 % 256) as u8);
    out.push((n % 256) as u8);
    assert(out@ =~= old(out)@ + u32_be(n));
}

/// Appends the four two's-complement big-endian bytes of `n` to `out`.
pub fn push_i32_be(out: &mut Vec<u8>, n: i32)
    ensures
        final(out)@ == old(out)@ + i32_be(n),
{
    push_u32_be(out, n as u32);
}

/// The UTF-8 bytes of a string.
pub open spec fn utf8(s: Seq<char>) -> Seq<u8> {
    vstd::utf8::encode_utf8(s)
}

/// Appends `src` to `out`.
pub fn push_bytes(out: &mut Vec<u8>, src: &[u8])
    ensures
        final(out)@ == old(out)@ + src@,
{
    out.extend_from_slice(src);
    assert(out@ =~= old(out)@ + src@);
}

/// Appends the UTF-8 bytes of `s` to `out`.
pub fn push_str_bytes(out: &mut Vec<u8>, s: &String)
    ensures
        final(out)@ == old(out)@ + utf8(s@),
{
    push_bytes(out, s.as_str().as_bytes());
}

/// The length of `s` in UTF-8 bytes.
pub fn str_byte_len(s: &String) -> (n: usize)
    ensures
        n == utf8(s@).len(),
{
    s.as_str().as_bytes().len()
}

/// A parse that went on after `items` had been read from `used` bytes: what
/// it read in all, or nothing where the rest failed.
pub open spec fn prepend<T>(items: Seq<T>, used: int, rest: Option<(Seq<T>, int)>) -> Option<(Seq<T>, int)> {
    match rest {
        Some((more, n)) => Some((items + more, used + n)),
        None => None,
    }
}

/// Reading on after a prefix that was read before: the two prefixes join.
pub proof fn lemma_prepend_twice<T>(a: Seq<T>, i: int, b: Seq<T>, j: int, rest: Option<(Seq<T>, int)>)
    ensures
        prepend(a, i, prepend(b, j, rest)) == prepend(a + b, i + j, rest),
{
    match rest {
        Some((more, n)) => {
            assert(a + (b + more) =~= (a + b) + more);
        },
        None => {},
    }
}

/// Reading with nothing read before is reading.
pub proof fn lemma_prepend_nothing<T>(rest: Option<(Seq<T>, int)>)
    ensures
        prepend(Seq::<T>::empty(), 0, rest) == rest,
{
    match rest {
        Some((more, n)) => {
            assert(Seq::<T>::empty() + more =~= more);
        },
        None => {},
    }
}

/// The number that the first two bytes of `b` hold, if there are two.
pub open spec fn parse_u16(b: Seq<u8>) -> Option<u16> {
    if b.len() >= 2 {
        Some(u16_from_be(b[0], b[1]))
    } else {
        None
    }
}

/// The signed number that the first four bytes of `b` hold, if there are four.
pub open spec fn parse_i32(b: Seq<u8>) -> Option<i32> {
    if b.len() >= 4 {
        Some(i32_from_be(b[0], b[1], b[2], b[3]))
    } else {
        None
    }
}

/// The number that the first four bytes of `b` hold, if there are four.
pub open spec fn parse_u32(b: Seq<u8>) -> Option<u32> {
    if b.len() >= 4 {
        Some(u32_from_be(b[0], b[1], b[2], b[3]))
    } else {
        None
    }
}

/// The string that the first `len` bytes of `b` hold, if there are so many
/// and they are UTF-8.
pub open spec fn parse_str(b: Seq<u8>, len: nat) -> Option<Seq<char>> {
    if len <= b.len() && valid_utf8(b.take(len as int)) {
        Some(decode_utf8(b.take(len as int)))
    } else {
        None
    }
}

/// Reads two big-endian bytes at `offset`.
pub(crate) fn read_u16(bytes: &[u8], offset: usize) -> (r: Option<u16>)
    requires
        offset <= bytes@.len(),
    ensures
        r == parse_u16(bytes@.skip(offset as int)),
        r is Some ==> offset + 2 <= bytes@.len(),
{
    if bytes.len() - offset < 2 {
        return None;
    }
    let hi: u16 = bytes[offset] as u16;
    let lo: u16 = bytes[offset + 1] as u16;
    Some(hi * 256 + lo)
}

/// Reads four big-endian bytes at `offset`.
pub(crate) fn read_u32(bytes: &[u8], offset: usize) -> (r: Option<u32>)
    requires
        offset <= bytes@.len(),
    ensures
        r == parse_u32(bytes@.skip(offset as int)),
        r is Some ==> offset + 4 <= bytes@.len(),
{
    if bytes.len() - offset < 4 {
        return None;
    }
    let b0: u32 = bytes[offset] as u32;
    let b1: u32 = bytes[offset + 1] as u32;
    let b2: u32 = bytes[offset + 2] as u32;
    let b3: u32 = bytes[offset + 3] as u32;
    Some(b0 * 0x100_0000 + b1 * 0x1_0000 + b2 * 0x100 + b3)
}

/// Reads four two's-complement big-endian bytes at `offset`.
pub(crate) fn read_i32(bytes: &[u8], offset: usize) -> (r: Option<i32>)
    requires
        offset <= bytes@.len(),
    ensures
        r == parse_i32(bytes@.skip(offset as int)),
        r is Some ==> offset + 4 <= bytes@.len(),
{
    match read_u32(bytes, offset) {
        Some(n) => Some(#[verifier::truncate] (n as i32)),
        None => None,
    }
}

/// `String::from_utf8` of std: the string that `bytes` encode, or nothing
/// where they are not UTF-8. Trusted: that it succeeds exactly on valid UTF-8
/// and gives the characters that the bytes decode to.
#[verifier::external_body]
fn string_from_utf8(bytes: Vec<u8>) -> (s: Option<String>)
    ensures
        s is Some <==> valid_utf8(bytes@),
        s is Some ==> s->0@ == decode_utf8(bytes@),
{
    String::from_utf8(bytes).ok()
}

/// Reads a string of `len` UTF-8 bytes at `offset`.
pub(crate) fn read_str(bytes: &[u8], offset: usize, len: usize) -> (r: Option<String>)
    requires
        offset <= bytes@.len(),
    ensures
        match r {
            Some(s) => parse_str(bytes@.skip(offset as int), len as nat) == Some(s@),
            None => parse_str(bytes@.skip(offset as int), len as nat) is None,
        },
        r is Some ==> offset + len <= bytes@.len(),
{
    if bytes.len() - offset < len {
        return None;
    }
    let part = slice_to_vec(slice_subrange(bytes, offset, offset + len));
    assert(part@ =~= bytes@.skip(offset as int).take(len as int));
    string_from_utf8(part)
}

} // verus!
