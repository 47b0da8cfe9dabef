//! Calls whose contracts are taken on trust: functions of other crates and
//! functions of the standard library that have no verified specification.

use vstd::prelude::*;
use vstd::utf8::{decode_utf8, valid_utf8};
use byteorder::{BigEndian, ByteOrder};

verus! {

/// The big-endian number of four bytes.
pub open spec fn be_u32(b0: u8, b1: u8, b2: u8, b3: u8) -> u32 {
    (b0 as int * 0x100_0000 + b1 as int * 0x1_0000 + b2 as int * 0x100 + b3 as int) as u32
}

/// `byteorder::BigEndian::read_u32`: the number whose big-endian form the
/// first four bytes of `buf` are. The call panics on a shorter slice.
#[verifier::external_body]
pub(crate) fn read_be_u32(buf: &[u8]) -> (n: u32)
    requires
        buf@.len() >= 4,
    ensures
        n == be_u32(buf@[0], buf@[1], buf@[2], buf@[3]),
{
    BigEndian::read_u32(buf)
}

/// `byteorder::BigEndian::write_u32`: the four bytes of the big-endian form
/// of `n`.
#[verifier::external_body]
pub(crate) fn write_be_u32(n: u32) -> (buf: [u8; 4])
    ensures
        be_u32(buf@[0], buf@[1], buf@[2], buf@[3]) == n,
{
    let mut buf = [0u8; 4];
    BigEndian::write_u32(&mut buf, n);
    buf
}

/// `String::push`: appends one character to the string.
#[verifier::external_body]
pub(crate) fn push_char(text: &mut String, c: char)
    ensures
        final(text)@ == old(text)@.push(c),
{
    text.push(c);
}

/// The decimal digits of a natural number, without leading zeros.
pub open spec fn digits_text(n: nat) -> Seq<char>
    decreases n,
{
    let last = seq![(0x30 + n % 10) as char];
    if n < 10 {
        last
    } else {
        digits_text(n / 10) + last
    }
}

/// The decimal text of an integer, with a minus sign if it is negative.
pub open spec fn int_text(v: int) -> Seq<char> {
    if v < 0 {
        seq!['-'] + digits_text((-v) as nat)
    } else {
        digits_text(v as nat)
    }
}

/// `i64`'s `Display`, through `format!`: the decimal text of the number.
#[verifier::external_body]
pub(crate) fn format_int(v: i64) -> (text: String)
    ensures
        text@ == int_text(v as int),
{
    format!("{}", v)
}

/// The text that a byte string is shown as: the text it is the UTF-8 form
/// of, with the replacement character U+FFFD for what is not UTF-8 in it.
pub uninterp spec fn lossy_text(bytes: Seq<u8>) -> Seq<char>;

/// `String::from_utf8_lossy`: the bytes as text, invalid sequences
/// replaced. Bytes that are UTF-8 are shown as the text they encode.
#[verifier::external_body]
pub(crate) fn format_lossy(bytes: &[u8]) -> (text: String)
    ensures
        text@ == lossy_text(bytes@),
        valid_utf8(bytes@) ==> text@ == decode_utf8(bytes@),
{
    String::from_utf8_lossy(bytes).to_string()
}

/// The hexadecimal digit of a number below sixteen, in lower case.
pub open spec fn hex_digit(d: nat) -> char {
    if d < 10 {
        (0x30 + d) as char
    } else {
        (0x61 + d - 10) as char
    }
}

/// A byte in hexadecimal, without a leading zero.
pub open spec fn hex_byte(b: u8) -> Seq<char> {
    if b < 16 {
        seq![hex_digit(b as nat)]
    } else {
        seq![hex_digit((b / 16) as nat), hex_digit((b % 16) as nat)]
    }
}

/// The bytes from index `from` on in hexadecimal, separated by a comma and
/// a space.
pub open spec fn hex_items(bytes: Seq<u8>, from: int) -> Seq<char>
    decreases bytes.len() - from,
{
    if from < 0 || from >= bytes.len() {
        Seq::empty()
    } else if from == bytes.len() - 1 {
        hex_byte(bytes[from])
    } else {
        hex_byte(bytes[from]) + seq![',', ' '] + hex_items(bytes, from + 1)
    }
}

/// The text that a blob is shown as: its bytes in lower-case hexadecimal
/// without padding, separated by a comma and a space, in square brackets.
pub open spec fn hex_text(bytes: Seq<u8>) -> Seq<char> {
    seq!['['] + hex_items(bytes, 0) + seq![']']
}

/// `Vec<u8>`'s `Debug` with the flag `x`, through `format!`: the list of
/// the bytes in hexadecimal.
#[verifier::external_body]
pub(crate) fn format_hex(bytes: &Vec<u8>) -> (text: String)
    ensures
        text@ == hex_text(bytes@),
{
    format!("{:x?}", bytes)
}

/// `String::from_utf8`: the text that the bytes are the UTF-8 form of, and
/// nothing for bytes that are not UTF-8.
#[verifier::external_body]
pub(crate) fn utf8_text(bytes: Vec<u8>) -> (text: Option<String>)
    ensures
        valid_utf8(bytes@) ==> text is Some && text->Some_0@ == decode_utf8(bytes@),
        !valid_utf8(bytes@) ==> text is None,
{
    String::from_utf8(bytes).ok()
}

/// `TryFrom<Vec<T>>` for `[T; N]`: the items of the vector as an array, if
/// there are exactly `N` of them.
#[verifier::external_body]
pub(crate) fn array_of<T, const N: usize>(items: Vec<T>) -> (array: Option<[T; N]>)
    ensures
        items@.len() == N ==> array is Some && array->Some_0@ == items@,
        items@.len() != N ==> array is None,
{
    items.try_into().ok()
}

} // verus!
