//! The label codec: four characters of the alphabet `{space, 0-9, A-Z}`
//! packed into three bytes.
//!
//! Of each character six bits are kept: bit 6, which tells a letter from a
//! digit or a space, and the five low bits.

use vstd::prelude::*;
use crate::outside::push_char;

verus! {

/// The alphabet of labels: space, digits and upper-case letters.
pub open spec fn is_label_char(c: u8) -> bool {
    c == 0x20 || (0x30 <= c <= 0x39) || (0x41 <= c <= 0x5A)
}

/// A label in wire form: four characters of the alphabet.
pub open spec fn is_label(text: Seq<u8>) -> bool {
    &&& text.len() == 4
    &&& forall|i: int| 0 <= i < 4 ==> is_label_char(#[trigger] text[i])
}

/// The byte that is packed for the character `c`: a lower-case letter is
/// folded to upper case, an underscore becomes a space, and the control
/// byte 3 becomes NUL.
pub open spec fn fold_char(c: u8) -> u8 {
    if 0x61 <= c <= 0x7A {
        (c - 0x20) as u8
    } else if c == 0x5F {
        0x20
    } else if c == 3 {
        0
    } else {
        c
    }
}

/// The folded character at index `i` of a label; a space where the text is
/// shorter.
pub open spec fn label_char(text: Seq<u8>, i: int) -> u8 {
    if 0 <= i < text.len() {
        fold_char(text[i])
    } else {
        0x20
    }
}

/// First packed byte: bit 6 and the five low bits of the first character,
/// bit 6 and bit 4 of the second.
pub open spec fn pack_byte0(a0: u8, a1: u8) -> u8 {
    (a0 & 0x40) << 1 | (a0 & 0x1F) << 2 | (a1 & 0x40) >> 5 | (a1 & 0x10) >> 4
}

/// Second packed byte: the four low bits of the second character, bit 6 and
/// bits 4 to 2 of the third.
pub open spec fn pack_byte1(a1: u8, a2: u8) -> u8 {
    (a1 & 0xF) << 4 | (a2 & 0x40) >> 3 | (a2 & 0x10) >> 2 | (a2 & 0xC) >> 2
}

/// Third packed byte: the two low bits of the third character, bit 6 and
/// the five low bits of the fourth.
pub open spec fn pack_byte2(a2: u8, a3: u8) -> u8 {
    (a2 & 3) << 6 | (a3 & 0x40) >> 1 | a3 & 0x1F
}

/// The three bytes that a label is packed into. A text of fewer than four
/// bytes is padded with spaces on the right, a longer one is cut.
pub open spec fn pack_label(text: Seq<u8>) -> Seq<u8> {
    let a0 = label_char(text, 0);
    let a1 = label_char(text, 1);
    let a2 = label_char(text, 2);
    let a3 = label_char(text, 3);
    seq![pack_byte0(a0, a1), pack_byte1(a1, a2), pack_byte2(a2, a3)]
}

/// The packed label as one number, first byte highest.
pub open spec fn label_code(text: Seq<u8>) -> u32 {
    let p = pack_label(text);
    (p[0] as u32 * 0x1_0000 + p[1] as u32 * 0x100 + p[2] as u32) as u32
}

/// The character for a case bit `m` (0 or 0x40) and five low bits `c`: a
/// space where both are zero, a digit without the case bit, else a letter.
pub open spec fn unpack_char(m: u8, c: u8) -> u8 {
    if m | c == 0 {
        0x20
    } else if m & 0x40 == 0 {
        0x30 | c
    } else {
        m | c
    }
}

/// The first character of a packed label.
pub open spec fn unpack_char0(b0: u8) -> u8 {
    unpack_char((b0 & 0x80) >> 1, (b0 & 0x7C) >> 2)
}

/// The second character of a packed label.
pub open spec fn unpack_char1(b0: u8, b1: u8) -> u8 {
    unpack_char((b0 & 2) << 5, ((b0 & 1) << 4) | ((b1 & 0xF0) >> 4))
}

/// The third character of a packed label.
pub open spec fn unpack_char2(b1: u8, b2: u8) -> u8 {
    unpack_char((b1 & 8) << 3, ((b1 & 7) << 2) | ((b2 & 0xC0) >> 6))
}

/// The fourth character of a packed label.
pub open spec fn unpack_char3(b2: u8) -> u8 {
    unpack_char((b2 & 0x20) << 1, b2 & 0x1F)
}

/// The four characters of a packed label.
pub open spec fn unpack_label(b0: u8, b1: u8, b2: u8) -> Seq<u8> {
    seq![unpack_char0(b0), unpack_char1(b0, b1), unpack_char2(b1, b2), unpack_char3(b2)]
}

/// The text of a packed label: its four characters, all below 0x80.
pub open spec fn unpack_text(b0: u8, b1: u8, b2: u8) -> Seq<char> {
    let bytes = unpack_label(b0, b1, b2);
    seq![bytes[0] as char, bytes[1] as char, bytes[2] as char, bytes[3] as char]
}

/// The label as the wire carries it: packed and unpacked again.
pub open spec fn canonical_label(text: Seq<u8>) -> Seq<u8> {
    let p = pack_label(text);
    unpack_label(p[0], p[1], p[2])
}

/// Four characters of the alphabet are unpacked from their packed form as
/// themselves.
proof fn lemma_chars_round_trip(a0: u8, a1: u8, a2: u8, a3: u8)
    by (bit_vector)
    requires
        a0 == 0x20 || (0x30 <= a0 <= 0x39) || (0x41 <= a0 <= 0x5A),
        a1 == 0x20 || (0x30 <= a1 <= 0x39) || (0x41 <= a1 <= 0x5A),
        a2 == 0x20 || (0x30 <= a2 <= 0x39) || (0x41 <= a2 <= 0x5A),
        a3 == 0x20 || (0x30 <= a3 <= 0x39) || (0x41 <= a3 <= 0x5A),
    ensures
        unpack_char0(pack_byte0(a0, a1)) == a0,
        unpack_char1(pack_byte0(a0, a1), pack_byte1(a1, a2)) == a1,
        unpack_char2(pack_byte1(a1, a2), pack_byte2(a2, a3)) == a2,
        unpack_char3(pack_byte2(a2, a3)) == a3,
{
}

/// Label law: a label of four characters of the alphabet is unpacked from
/// its packed form as itself.
pub proof fn lemma_label_round_trip(text: Seq<u8>)
    requires
        is_label(text),
    ensures
        pack_label(text).len() == 3,
        canonical_label(text) == text,
{
    assert(is_label_char(text[0]) && is_label_char(text[1]) && is_label_char(text[2])
        && is_label_char(text[3]));
    lemma_chars_round_trip(text[0], text[1], text[2], text[3]);
    assert(canonical_label(text) =~= text);
}

/// Packing folds case, takes an underscore for a space, pads a short text
/// with spaces and cuts a long one: the text is packed as the label of
/// its folded first four characters.
pub proof fn lemma_pack_folds(text: Seq<u8>)
    ensures
        pack_label(text) == pack_label(
            seq![
                label_char(text, 0),
                label_char(text, 1),
                label_char(text, 2),
                label_char(text, 3),
            ],
        ),
        forall|c: u8| 0x61 <= c <= 0x7A ==> #[trigger] fold_char(c) == c - 0x20,
        fold_char(0x5F) == 0x20,
        forall|c: u8| is_label_char(c) ==> #[trigger] fold_char(c) == c,
{
    let folded = seq![
        label_char(text, 0),
        label_char(text, 1),
        label_char(text, 2),
        label_char(text, 3),
    ];
    assert(pack_label(text) =~= pack_label(folded));
}

/// Folds one character of a label: see [`fold_char`].
pub fn fold(c: u8) -> (folded: u8)
    ensures
        folded == fold_char(c),
{
    if 0x61 <= c && c <= 0x7A {
        c - 0x20
    } else if c == 0x5F {
        0x20
    } else if c == 3 {
        0
    } else {
        c
    }
}

/// Packs a label into its three bytes.
pub fn pack(text: &[u8]) -> (packed: [u8; 3])
    ensures
        packed@ == pack_label(text@),
{
    let a0: u8 = if text.len() > 0 { fold(text[0]) } else { 0x20 };
    let a1: u8 = if text.len() > 1 { fold(text[1]) } else { 0x20 };
    let a2: u8 = if text.len() > 2 { fold(text[2]) } else { 0x20 };
    let a3: u8 = if text.len() > 3 { fold(text[3]) } else { 0x20 };
    let packed: [u8; 3] = [
        (a0 & 0x40) << 1 | (a0 & 0x1F) << 2 | (a1 & 0x40) >> 5 | (a1 & 0x10) >> 4,
        (a1 & 0xF) << 4 | (a2 & 0x40) >> 3 | (a2 & 0x10) >> 2 | (a2 & 0xC) >> 2,
        (a2 & 3) << 6 | (a3 & 0x40) >> 1 | a3 & 0x1F,
    ];
    assert(packed@ =~= pack_label(text@));
    packed
}

/// The packed label as one number, by which labels are compared.
pub fn code(text: &[u8]) -> (n: u32)
    ensures
        n == label_code(text@),
{
    let p = pack(text);
    p[0] as u32 * 0x1_0000 + p[1] as u32 * 0x100 + p[2] as u32
}

/// Unpacks one character: see [`unpack_char`].
fn unpack_one(m: u8, c: u8) -> (a: u8)
    ensures
        a == unpack_char(m, c),
{
    if m | c == 0 {
        0x20
    } else if m & 0x40 == 0 {
        0x30 | c
    } else {
        m | c
    }
}

/// Unpacks three bytes into the four characters of a label.
pub fn unpack(b0: u8, b1: u8, b2: u8) -> (text: String)
    ensures
        text@ == unpack_text(b0, b1, b2),
{
    let c0 = unpack_one((b0 & 0x80) >> 1, (b0 & 0x7C) >> 2);
    let c1 = unpack_one((b0 & 2) << 5, ((b0 & 1) << 4) | ((b1 & 0xF0) >> 4));
    let c2 = unpack_one((b1 & 8) << 3, ((b1 & 7) << 2) | ((b2 & 0xC0) >> 6));
    let c3 = unpack_one((b2 & 0x20) << 1, b2 & 0x1F);
    let mut text = String::new();
    push_char(&mut text, c0 as char);
    push_char(&mut text, c1 as char);
    push_char(&mut text, c2 as char);
    push_char(&mut text, c3 as char);
    assert(text@ =~= unpack_text(b0, b1, b2));
    text
}

} // verus!
