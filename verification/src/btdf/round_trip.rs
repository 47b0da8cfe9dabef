//! The round trip of the binary form: what the encoder writes for a
//! well-formed token buffer, the decoder reads back as that buffer.

use vstd::prelude::*;
use vstd::utf8::{encode_utf8, is_ascii_chars, is_ascii_chars_encode_utf8};
use crate::btdf::des::{
    advances, count_of, decode_blob, decode_document, decode_entries, decode_field, decode_float,
    decode_generic, decode_int, decode_int_list, decode_ints, decode_items, decode_list,
    decode_pair_list, decode_pairs, decode_string, decode_type, decode_union, decode_value,
    is_gbra, Decoded,
};
use crate::btdf::label::{
    is_label, is_label_char, label_char, lemma_label_round_trip, pack_byte0, pack_label,
    unpack_label, unpack_text,
};
use crate::btdf::progress::{
    lemma_entries_consume, lemma_nul_within, lemma_value_consumes, lemma_varint_advances,
};
use crate::btdf::reader::{byte_at, bytes_at};
use crate::btdf::ser::{
    be_bytes, encode_blob, encode_document, encode_end, encode_entries, encode_field, encode_float,
    encode_generic, encode_int, encode_int_list, encode_ints, encode_items, encode_list,
    encode_pair_list, encode_pairs, encode_string, encode_union, encode_value, lemma_be_bytes,
    Encoded,
};
use crate::btdf::varint::{lemma_varint_round_trip, read_varint, write_varint};
use crate::error::TdfError;
use crate::token::{lemma_stands_index, lemma_stands_split, stands, TokenView, UnionType};

verus! {

/// Whether `bytes` stand in `s` from offset `at` on.
pub open spec fn occurs(s: Seq<u8>, at: int, bytes: Seq<u8>) -> bool {
    &&& 0 <= at
    &&& at + bytes.len() <= s.len()
    &&& s.subrange(at, at + bytes.len()) == bytes
}

/// Where a sequence of two parts stands, its parts stand one behind the
/// other.
pub proof fn lemma_occurs_split(s: Seq<u8>, at: int, first: Seq<u8>, second: Seq<u8>)
    requires
        occurs(s, at, first + second),
    ensures
        occurs(s, at, first),
        occurs(s, at + first.len(), second),
{
    let whole = first + second;
    assert(s.subrange(at, at + first.len()) =~= whole.subrange(0, first.len() as int));
    assert(whole.subrange(0, first.len() as int) =~= first);
    assert(s.subrange(at + first.len(), at + first.len() + second.len()) =~= whole.subrange(
        first.len() as int,
        whole.len() as int,
    ));
    assert(whole.subrange(first.len() as int, whole.len() as int) =~= second);
}

/// The byte at an offset within bytes that stand in `s`.
pub proof fn lemma_occurs_index(s: Seq<u8>, at: int, bytes: Seq<u8>, i: int)
    requires
        occurs(s, at, bytes),
        0 <= i < bytes.len(),
    ensures
        s[at + i] == bytes[i],
{
    assert(s.subrange(at, at + bytes.len())[i] == s[at + i]);
}

/// The tokens from `pos` to `mid` and those from `mid` to `end` are the
/// tokens from `pos` to `end`.
pub proof fn lemma_subrange_join(tokens: Seq<TokenView>, pos: int, mid: int, end: int)
    requires
        0 <= pos <= mid <= end <= tokens.len(),
    ensures
        tokens.subrange(pos, mid) + tokens.subrange(mid, end) == tokens.subrange(pos, end),
{
    assert(tokens.subrange(pos, mid) + tokens.subrange(mid, end) =~= tokens.subrange(pos, end));
}

/// An integer that stands in `s` is read back with its end.
pub proof fn lemma_varint_at(v: i64, s: Seq<u8>, at: int)
    requires
        occurs(s, at, write_varint(v)),
    ensures
        read_varint(s, at) == Ok::<(i64, int), TdfError>((v, at + write_varint(v).len())),
        write_varint(v).len() > 0,
{
    let bytes = write_varint(v);
    let before = s.subrange(0, at);
    let after = s.subrange(at + bytes.len(), s.len() as int);
    assert(before + bytes + after =~= s);
    lemma_varint_round_trip(v, before, after);
}

/// The characters of labels on the wire: space, digits, upper-case
/// letters.
pub open spec fn is_wire_char(c: char) -> bool {
    c == ' ' || ('0' <= c <= '9') || ('A' <= c <= 'Z')
}

/// A label as the decoder gives it and the encoder keeps it: four
/// characters of the alphabet, the first of them no space.
pub open spec fn is_wire_label(text: Seq<char>) -> bool {
    &&& text.len() == 4
    &&& forall|i: int| 0 <= i < 4 ==> is_wire_char(#[trigger] text[i])
    &&& text[0] != ' '
}

/// A label that begins with a digit or a letter is packed to a first byte
/// above 2.
proof fn lemma_first_byte(a0: u8, a1: u8)
    by (bit_vector)
    requires
        (0x30 <= a0 <= 0x39) || (0x41 <= a0 <= 0x5A),
    ensures
        pack_byte0(a0, a1) > 2,
{
}

/// A wire label is unpacked from its packed form as itself, and its first
/// packed byte is neither a terminator nor a union mark.
pub proof fn lemma_wire_label(text: Seq<char>)
    requires
        is_wire_label(text),
    ensures
        ({
            let p = pack_label(encode_utf8(text));
            &&& p.len() == 3
            &&& unpack_text(p[0], p[1], p[2]) == text
            &&& p[0] > 2
        }),
{
    assert(is_wire_char(text[0]) && is_wire_char(text[1]) && is_wire_char(text[2])
        && is_wire_char(text[3]));
    assert(is_ascii_chars(text));
    is_ascii_chars_encode_utf8(text);
    let bytes = encode_utf8(text);
    assert(bytes.len() == 4);
    assert(bytes[0] == text[0] as u8 && bytes[1] == text[1] as u8 && bytes[2] == text[2] as u8
        && bytes[3] == text[3] as u8);
    assert(is_label(bytes)) by {
        assert forall|i: int| 0 <= i < 4 implies is_label_char(#[trigger] bytes[i]) by {
            assert(is_wire_char(text[i]));
            assert(bytes[i] == text[i] as u8);
        }
    }
    lemma_label_round_trip(bytes);
    let p = pack_label(bytes);
    let back = unpack_label(p[0], p[1], p[2]);
    assert(back == bytes);
    assert(unpack_text(p[0], p[1], p[2]) =~= text) by {
        assert forall|i: int| 0 <= i < 4 implies unpack_text(p[0], p[1], p[2])[i] == text[i] by {
            assert(back[i] == text[i] as u8);
            assert((text[i] as u8) as char == text[i]);
        }
    }
    lemma_first_byte(label_char(bytes, 0), label_char(bytes, 1));
}

/// What a reading back is: the tokens from `pos` to `end` of the buffer,
/// and the offset `stop` behind the bytes read.
pub open spec fn read_back(
    decoded: Decoded,
    tokens: Seq<TokenView>,
    pos: int,
    end: int,
    stop: int,
) -> bool {
    &&& 0 <= pos <= end <= tokens.len()
    &&& decoded == Ok::<(Seq<TokenView>, int), TdfError>((tokens.subrange(pos, end), stop))
}

/// An encoded `Int` token is read back.
pub proof fn lemma_int_back(tokens: Seq<TokenView>, pos: int, s: Seq<u8>, at: int)
    requires
        encode_int(tokens, pos) is Ok,
        occurs(s, at, encode_int(tokens, pos)->Ok_0.0),
    ensures
        read_back(
            decode_int(s, at),
            tokens,
            pos,
            pos + 1,
            at + encode_int(tokens, pos)->Ok_0.0.len(),
        ),
        encode_int(tokens, pos)->Ok_0.1 == pos + 1,
        encode_int(tokens, pos)->Ok_0.0.len() > 0,
{
    let v = tokens[pos]->Int_0;
    lemma_varint_at(v, s, at);
    assert(tokens.subrange(pos, pos + 1) =~= seq![TokenView::Int(v)]);
}

/// Encoded `Int` tokens in a row are read back.
pub proof fn lemma_ints_back(tokens: Seq<TokenView>, pos: int, count: nat, s: Seq<u8>, at: int)
    requires
        0 <= pos <= tokens.len(),
        encode_ints(tokens, pos, count) is Ok,
        occurs(s, at, encode_ints(tokens, pos, count)->Ok_0.0),
    ensures
        read_back(
            decode_ints(s, at, count),
            tokens,
            pos,
            pos + count,
            at + encode_ints(tokens, pos, count)->Ok_0.0.len(),
        ),
        encode_ints(tokens, pos, count)->Ok_0.1 == pos + count,
        count > 0 ==> encode_ints(tokens, pos, count)->Ok_0.0.len() > 0,
    decreases count,
{
    if count == 0 {
        assert(tokens.subrange(pos, pos) =~= Seq::<TokenView>::empty());
    } else {
        let first = encode_int(tokens, pos)->Ok_0.0;
        let rest = encode_ints(tokens, pos + 1, (count - 1) as nat);
        assert(encode_int(tokens, pos)->Ok_0.1 == pos + 1);
        lemma_occurs_split(s, at, first, rest->Ok_0.0);
        lemma_int_back(tokens, pos, s, at);
        lemma_ints_back(tokens, pos + 1, (count - 1) as nat, s, at + first.len());
        lemma_subrange_join(tokens, pos, pos + 1, pos + count);
    }
}

/// An encoded `String` token is read back.
pub proof fn lemma_string_back(tokens: Seq<TokenView>, pos: int, s: Seq<u8>, at: int)
    requires
        encode_string(tokens, pos) is Ok,
        occurs(s, at, encode_string(tokens, pos)->Ok_0.0),
    ensures
        read_back(
            decode_string(s, at),
            tokens,
            pos,
            pos + 1,
            at + encode_string(tokens, pos)->Ok_0.0.len(),
        ),
        encode_string(tokens, pos)->Ok_0.1 == pos + 1,
        encode_string(tokens, pos)->Ok_0.0.len() > 0,
{
    reveal(encode_string);
    reveal(decode_string);
    let text = tokens[pos]->String_0;
    let size = (text.len() + 1) as i64;
    let head = write_varint(size);
    lemma_occurs_split(s, at, head + text, seq![0u8]);
    lemma_occurs_split(s, at, head, text);
    lemma_varint_at(size, s, at);
    let start = at + head.len();
    assert(bytes_at(s, start, size - 1) == Ok::<Seq<u8>, TdfError>(text));
    assert(byte_at(s, start + size - 1) is Ok);
    assert(tokens.subrange(pos, pos + 1) =~= seq![TokenView::String(text)]);
}

/// An encoded `Blob` token is read back.
pub proof fn lemma_blob_back(tokens: Seq<TokenView>, pos: int, s: Seq<u8>, at: int)
    requires
        encode_blob(tokens, pos) is Ok,
        occurs(s, at, encode_blob(tokens, pos)->Ok_0.0),
    ensures
        read_back(
            decode_blob(s, at),
            tokens,
            pos,
            pos + 1,
            at + encode_blob(tokens, pos)->Ok_0.0.len(),
        ),
        encode_blob(tokens, pos)->Ok_0.1 == pos + 1,
        encode_blob(tokens, pos)->Ok_0.0.len() > 0,
{
    reveal(encode_blob);
    reveal(decode_blob);
    let data = tokens[pos]->Blob_0;
    let size = data.len() as i64;
    let head = write_varint(size);
    lemma_occurs_split(s, at, head, data);
    lemma_varint_at(size, s, at);
    assert(bytes_at(s, at + head.len(), size as int) == Ok::<Seq<u8>, TdfError>(data));
    assert(tokens.subrange(pos, pos + 1) =~= seq![TokenView::Blob(data)]);
}

/// An encoded `Float` token is read back.
pub proof fn lemma_float_back(tokens: Seq<TokenView>, pos: int, s: Seq<u8>, at: int)
    requires
        encode_float(tokens, pos) is Ok,
        occurs(s, at, encode_float(tokens, pos)->Ok_0.0),
    ensures
        read_back(
            decode_float(s, at),
            tokens,
            pos,
            pos + 1,
            at + encode_float(tokens, pos)->Ok_0.0.len(),
        ),
        encode_float(tokens, pos)->Ok_0.1 == pos + 1,
        encode_float(tokens, pos)->Ok_0.0.len() > 0,
{
    reveal(encode_float);
    reveal(decode_float);
    let bits = tokens[pos]->Float_0;
    let b = be_bytes(bits);
    assert(bytes_at(s, at, 4) == Ok::<Seq<u8>, TdfError>(b));
    lemma_be_bytes(bits, b[0], b[1], b[2], b[3]);
    assert(seq![b[0], b[1], b[2], b[3]] =~= b);
    assert(tokens.subrange(pos, pos + 1) =~= seq![TokenView::Float(bits)]);
}

/// An encoded closing token is the token at its place.
pub proof fn lemma_end_back(tokens: Seq<TokenView>, pos: int, closer: TokenView, bytes: Seq<u8>)
    requires
        encode_end(tokens, pos, closer.kind(), bytes) is Ok,
        !closer.has_payload(),
    ensures
        0 <= pos < tokens.len(),
        tokens.subrange(pos, pos + 1) == seq![closer],
        encode_end(tokens, pos, closer.kind(), bytes) == Ok::<(Seq<u8>, int), TdfError>(
            (bytes, pos + 1),
        ),
{
    assert(tokens[pos].kind() == closer.kind());
    assert(tokens[pos] == closer);
    assert(tokens.subrange(pos, pos + 1) =~= seq![closer]);
}

/// An encoded list of integers is read back.
pub proof fn lemma_int_list_back(tokens: Seq<TokenView>, pos: int, s: Seq<u8>, at: int)
    requires
        encode_int_list(tokens, pos) is Ok,
        occurs(s, at, encode_int_list(tokens, pos)->Ok_0.0),
    ensures
        read_back(
            decode_int_list(s, at),
            tokens,
            pos,
            encode_int_list(tokens, pos)->Ok_0.1,
            at + encode_int_list(tokens, pos)->Ok_0.0.len(),
        ),
        encode_int_list(tokens, pos)->Ok_0.1 > pos,
        encode_int_list(tokens, pos)->Ok_0.0.len() > 0,
{
    reveal(encode_int_list);
    reveal(decode_int_list);
    let n = tokens[pos]->IntListStart_0;
    let count = write_varint(n as i64);
    let items = encode_ints(tokens, pos + 1, n as nat)->Ok_0.0;
    let end = encode_ints(tokens, pos + 1, n as nat)->Ok_0.1;
    lemma_occurs_split(s, at, count + items, Seq::<u8>::empty());
    lemma_occurs_split(s, at, count, items);
    lemma_varint_at(n as i64, s, at);
    lemma_ints_back(tokens, pos + 1, n as nat, s, at + count.len());
    lemma_end_back(tokens, end, TokenView::IntListEnd, Seq::empty());
    assert((count + items) + Seq::<u8>::empty() =~= count + items);
    assert(encode_int_list(tokens, pos)->Ok_0.1 == end + 1);
    assert(read_varint(s, at) == Ok::<(i64, int), TdfError>((n as i64, at + count.len())));
    assert(count_of(n as i64, at) == Ok::<usize, TdfError>(n));
    assert(seq![TokenView::IntListStart(n)] + (tokens.subrange(pos + 1, end) + seq![
        TokenView::IntListEnd,
    ]) =~= tokens.subrange(pos, end + 1));
}

/// A token buffer whose labels the wire keeps as they are, and which does
/// not use the leniency of the decoder for the field `GBRA`: every label
/// is a wire label, and a pair list that follows a label `GBRA` has pair
/// lists for values.
#[verifier::opaque]
pub open spec fn canonical(tokens: Seq<TokenView>) -> bool {
    forall|i: int|
        0 <= i < tokens.len() && (#[trigger] tokens[i]) is Label ==> {
            &&& is_wire_label(tokens[i]->Label_0)
            &&& (i + 4 < tokens.len() && tokens[i + 1] == TokenView::PairListType && is_gbra(
                pack_label(encode_utf8(tokens[i]->Label_0)),
            )) ==> tokens[i + 4] == TokenView::PairListType
        }
}

/// What is asked of an encoding to be read back: the tokens are
/// canonical, the encoding succeeded, its bytes stand in `s` at `at`.
pub open spec fn written(
    tokens: Seq<TokenView>,
    pos: int,
    encoded: Encoded,
    s: Seq<u8>,
    at: int,
) -> bool {
    &&& canonical(tokens)
    &&& 0 <= pos
    &&& encoded is Ok
    &&& occurs(s, at, encoded->Ok_0.0)
}

/// A tag byte that stands in `s` is read as its type marker.
pub proof fn lemma_type_back(ty: TokenView, s: Seq<u8>, at: int)
    requires
        ty.tag() is Some,
        0 <= at < s.len(),
        s[at] == ty.tag()->Some_0,
    ensures
        decode_type(s, at) == Ok::<TokenView, TdfError>(ty),
{
    ty.lemma_tag_round_trip(0);
}

/// An encoded value is read back.
pub proof fn lemma_value_back(
    tokens: Seq<TokenView>,
    pos: int,
    ty: TokenView,
    root: bool,
    s: Seq<u8>,
    at: int,
)
    requires
        written(tokens, pos, encode_value(tokens, pos, ty, root), s, at),
        root ==> at + encode_value(tokens, pos, ty, root)->Ok_0.0.len() == s.len(),
    ensures
        read_back(
            decode_value(s, at, ty, root),
            tokens,
            pos,
            encode_value(tokens, pos, ty, root)->Ok_0.1,
            at + encode_value(tokens, pos, ty, root)->Ok_0.0.len(),
        ),
        encode_value(tokens, pos, ty, root)->Ok_0.1 > pos,
        !root ==> encode_value(tokens, pos, ty, root)->Ok_0.0.len() > 0,
    decreases tokens.len() - pos, 2nat, 0nat,
{
    match ty {
        TokenView::IntType => {
            lemma_int_back(tokens, pos, s, at);
        },
        TokenView::StringType => {
            lemma_string_back(tokens, pos, s, at);
        },
        TokenView::BlobType => {
            lemma_blob_back(tokens, pos, s, at);
        },
        TokenView::MapType => {
            let end = encode_entries(tokens, pos + 1, root)->Ok_0.1;
            lemma_entries_back(tokens, pos + 1, root, s, at);
            assert(tokens.subrange(pos, pos + 1) =~= seq![TokenView::MapStart]);
            lemma_subrange_join(tokens, pos, pos + 1, end);
        },
        TokenView::ListType => {
            lemma_list_back(tokens, pos, s, at);
        },
        TokenView::PairListType => {
            lemma_pair_list_back(tokens, pos, false, s, at);
        },
        TokenView::UnionType => {
            lemma_union_back(tokens, pos, s, at);
        },
        TokenView::IntListType => {
            lemma_int_list_back(tokens, pos, s, at);
        },
        TokenView::ObjectTypeType => {
            lemma_ints_back(tokens, pos, 2, s, at);
        },
        TokenView::ObjectIdType => {
            lemma_ints_back(tokens, pos, 3, s, at);
        },
        TokenView::FloatType => {
            lemma_float_back(tokens, pos, s, at);
        },
        TokenView::GenericType => {
            lemma_generic_back(tokens, pos, s, at);
        },
        _ => {},
    }
}

/// An encoded field is read back. Its first byte is neither a terminator
/// nor a union mark.
#[verifier::rlimit(50)]
pub proof fn lemma_field_back(tokens: Seq<TokenView>, pos: int, in_map: bool, s: Seq<u8>, at: int)
    requires
        written(tokens, pos, encode_field(tokens, pos), s, at),
    ensures
        read_back(
            decode_field(s, at, in_map),
            tokens,
            pos,
            encode_field(tokens, pos)->Ok_0.1,
            at + encode_field(tokens, pos)->Ok_0.0.len(),
        ),
        encode_field(tokens, pos)->Ok_0.1 > pos,
        encode_field(tokens, pos)->Ok_0.0.len() >= 4,
        s[at] > 2,
    decreases tokens.len() - pos, 0nat, 0nat,
{
    let text = tokens[pos]->Label_0;
    let ty = tokens[pos + 1];
    let tag = ty.tag()->Some_0;
    let packed = pack_label(encode_utf8(text));
    let value = encode_value(tokens, pos + 2, ty, false);
    let end = value->Ok_0.1;
    assert(tokens[pos] is Label);
    assert(is_wire_label(text) && (pos + 4 < tokens.len() && tokens[pos + 1]
        == TokenView::PairListType && is_gbra(packed) ==> tokens[pos + 4]
        == TokenView::PairListType)) by {
        reveal(canonical);
    }
    lemma_wire_label(text);
    lemma_occurs_split(s, at, packed + seq![tag], value->Ok_0.0);
    lemma_occurs_split(s, at, packed, seq![tag]);
    lemma_occurs_index(s, at, packed, 0);
    lemma_occurs_index(s, at + 3, seq![tag], 0);
    assert(bytes_at(s, at, 3) == Ok::<Seq<u8>, TdfError>(packed));
    lemma_type_back(ty, s, at + 3);
    let head = seq![TokenView::Label(unpack_text(packed[0], packed[1], packed[2])), ty];
    assert(tokens.subrange(pos, pos + 2) =~= head);
    if in_map && is_gbra(packed) && ty == TokenView::PairListType {
        assert(encode_pair_list(tokens, pos + 2) is Ok);
        assert(tokens[pos + 4] == TokenView::PairListType);
        lemma_pair_list_back(tokens, pos + 2, true, s, at + 4);
    } else {
        lemma_value_back(tokens, pos + 2, ty, false, s, at + 4);
    }
    lemma_subrange_join(tokens, pos, pos + 2, end);
}

/// The encoded entries of a map are read back.
#[verifier::rlimit(50)]
pub proof fn lemma_entries_back(tokens: Seq<TokenView>, pos: int, root: bool, s: Seq<u8>, at: int)
    requires
        written(tokens, pos, encode_entries(tokens, pos, root), s, at),
        root ==> at + encode_entries(tokens, pos, root)->Ok_0.0.len() == s.len(),
    ensures
        read_back(
            decode_entries(s, at, root),
            tokens,
            pos,
            encode_entries(tokens, pos, root)->Ok_0.1,
            at + encode_entries(tokens, pos, root)->Ok_0.0.len(),
        ),
        encode_entries(tokens, pos, root)->Ok_0.1 > pos,
        !root ==> encode_entries(tokens, pos, root)->Ok_0.0.len() > 0,
    decreases tokens.len() - pos, 1nat, 0nat,
{
    let t = tokens[pos];
    if t == TokenView::MapEnd {
        assert(tokens.subrange(pos, pos + 1) =~= seq![TokenView::MapEnd]);
        if !root {
            lemma_occurs_index(s, at, seq![0u8], 0);
        }
    } else {
        let marked = t == TokenView::MapUnion;
        let start = if marked { pos + 1 } else { pos };
        let mark = if marked { seq![2u8] } else { Seq::<u8>::empty() };
        let mark_tokens = if marked {
            seq![TokenView::MapUnion]
        } else {
            Seq::<TokenView>::empty()
        };
        let field = encode_field(tokens, start);
        let mid = field->Ok_0.1;
        let rest = encode_entries(tokens, mid, root);
        let end = rest->Ok_0.1;
        lemma_occurs_split(s, at, mark + field->Ok_0.0, rest->Ok_0.0);
        lemma_occurs_split(s, at, mark, field->Ok_0.0);
        let from = at + mark.len();
        lemma_field_back(tokens, start, true, s, from);
        if marked {
            lemma_occurs_index(s, at, mark, 0);
        }
        assert(s[at] != 0 && (s[at] <= 2 <==> marked));
        lemma_entries_back(tokens, mid, root, s, from + field->Ok_0.0.len());
        assert(tokens.subrange(pos, start) =~= mark_tokens);
        lemma_subrange_join(tokens, pos, start, mid);
        lemma_subrange_join(tokens, pos, mid, end);
        assert(advances(s, at, from + field->Ok_0.0.len()));
    }
}

/// Encoded values in a row are read back.
pub proof fn lemma_items_back(
    tokens: Seq<TokenView>,
    pos: int,
    ty: TokenView,
    count: nat,
    s: Seq<u8>,
    at: int,
)
    requires
        written(tokens, pos, encode_items(tokens, pos, ty, count), s, at),
        pos <= tokens.len(),
    ensures
        read_back(
            decode_items(s, at, ty, count),
            tokens,
            pos,
            encode_items(tokens, pos, ty, count)->Ok_0.1,
            at + encode_items(tokens, pos, ty, count)->Ok_0.0.len(),
        ),
    decreases tokens.len() - pos, 3nat, count,
{
    if count == 0 {
        assert(tokens.subrange(pos, pos) =~= Seq::<TokenView>::empty());
    } else {
        let item = encode_value(tokens, pos, ty, false);
        let mid = item->Ok_0.1;
        let rest = encode_items(tokens, mid, ty, (count - 1) as nat);
        lemma_occurs_split(s, at, item->Ok_0.0, rest->Ok_0.0);
        lemma_value_back(tokens, pos, ty, false, s, at);
        lemma_items_back(tokens, mid, ty, (count - 1) as nat, s, at + item->Ok_0.0.len());
        lemma_subrange_join(tokens, pos, mid, rest->Ok_0.1);
        assert(advances(s, at, at + item->Ok_0.0.len()));
    }
}

/// Encoded pairs in a row are read back.
pub proof fn lemma_pairs_back(
    tokens: Seq<TokenView>,
    pos: int,
    key: TokenView,
    value: TokenView,
    count: nat,
    s: Seq<u8>,
    at: int,
)
    requires
        written(tokens, pos, encode_pairs(tokens, pos, key, value, count), s, at),
        pos <= tokens.len(),
    ensures
        read_back(
            decode_pairs(s, at, key, value, count),
            tokens,
            pos,
            encode_pairs(tokens, pos, key, value, count)->Ok_0.1,
            at + encode_pairs(tokens, pos, key, value, count)->Ok_0.0.len(),
        ),
    decreases tokens.len() - pos, 3nat, count,
{
    if count == 0 {
        assert(tokens.subrange(pos, pos) =~= Seq::<TokenView>::empty());
    } else {
        let k = encode_value(tokens, pos, key, false);
        let mid = k->Ok_0.1;
        let v = encode_value(tokens, mid, value, false);
        let next = v->Ok_0.1;
        let rest = encode_pairs(tokens, next, key, value, (count - 1) as nat);
        lemma_occurs_split(s, at, k->Ok_0.0 + v->Ok_0.0, rest->Ok_0.0);
        lemma_occurs_split(s, at, k->Ok_0.0, v->Ok_0.0);
        lemma_value_back(tokens, pos, key, false, s, at);
        let at2 = at + k->Ok_0.0.len();
        lemma_value_back(tokens, mid, value, false, s, at2);
        let at3 = at2 + v->Ok_0.0.len();
        lemma_pairs_back(tokens, next, key, value, (count - 1) as nat, s, at3);
        lemma_subrange_join(tokens, pos, mid, next);
        lemma_subrange_join(tokens, pos, next, rest->Ok_0.1);
        assert(advances(s, at, at2));
        assert(advances(s, at2, at3));
    }
}

/// An encoded list is read back.
pub proof fn lemma_list_back(tokens: Seq<TokenView>, pos: int, s: Seq<u8>, at: int)
    requires
        written(tokens, pos, encode_list(tokens, pos), s, at),
    ensures
        read_back(
            decode_list(s, at),
            tokens,
            pos,
            encode_list(tokens, pos)->Ok_0.1,
            at + encode_list(tokens, pos)->Ok_0.0.len(),
        ),
        encode_list(tokens, pos)->Ok_0.1 > pos,
        encode_list(tokens, pos)->Ok_0.0.len() > 0,
    decreases tokens.len() - pos, 0nat, 0nat,
{
    let n = tokens[pos]->ListStart_0;
    let ty = tokens[pos + 1];
    let tag = ty.tag()->Some_0;
    let count = write_varint(n as i64);
    let items = encode_items(tokens, pos + 2, ty, n as nat);
    let end = items->Ok_0.1;
    let body = seq![tag] + count + items->Ok_0.0;
    assert(body + Seq::<u8>::empty() =~= body);
    lemma_occurs_split(s, at, seq![tag] + count, items->Ok_0.0);
    lemma_occurs_split(s, at, seq![tag], count);
    lemma_occurs_index(s, at, seq![tag], 0);
    lemma_type_back(ty, s, at);
    lemma_varint_at(n as i64, s, at + 1);
    let start = at + 1 + count.len();
    assert(count_of(n as i64, at + 1) == Ok::<usize, TdfError>(n));
    lemma_items_back(tokens, pos + 2, ty, n as nat, s, start);
    lemma_end_back(tokens, end, TokenView::ListEnd, Seq::empty());
    assert(advances(s, at, start));
    assert(seq![TokenView::ListStart(n), ty] + (tokens.subrange(pos + 2, end) + seq![
        TokenView::ListEnd,
    ]) =~= tokens.subrange(pos, end + 1));
}

/// An encoded pair list is read back, also where the decoder takes its
/// values for pair lists whatever it reads.
pub proof fn lemma_pair_list_back(
    tokens: Seq<TokenView>,
    pos: int,
    bugged: bool,
    s: Seq<u8>,
    at: int,
)
    requires
        written(tokens, pos, encode_pair_list(tokens, pos), s, at),
        bugged ==> tokens[pos + 2] == TokenView::PairListType,
    ensures
        read_back(
            decode_pair_list(s, at, bugged),
            tokens,
            pos,
            encode_pair_list(tokens, pos)->Ok_0.1,
            at + encode_pair_list(tokens, pos)->Ok_0.0.len(),
        ),
        encode_pair_list(tokens, pos)->Ok_0.1 > pos,
        encode_pair_list(tokens, pos)->Ok_0.0.len() > 0,
    decreases tokens.len() - pos, 0nat, 0nat,
{
    let n = tokens[pos]->PairListStart_0;
    let key = tokens[pos + 1];
    let value = tokens[pos + 2];
    let key_tag = key.tag()->Some_0;
    let value_tag = value.tag()->Some_0;
    let count = write_varint(n as i64);
    let pairs = encode_pairs(tokens, pos + 3, key, value, n as nat);
    let end = pairs->Ok_0.1;
    let tags = seq![key_tag, value_tag];
    let body = tags + count + pairs->Ok_0.0;
    assert(body + Seq::<u8>::empty() =~= body);
    lemma_occurs_split(s, at, tags + count, pairs->Ok_0.0);
    lemma_occurs_split(s, at, tags, count);
    lemma_occurs_index(s, at, tags, 0);
    lemma_occurs_index(s, at, tags, 1);
    lemma_type_back(key, s, at);
    lemma_type_back(value, s, at + 1);
    lemma_varint_at(n as i64, s, at + 2);
    let start = at + 2 + count.len();
    assert(count_of(n as i64, at + 2) == Ok::<usize, TdfError>(n));
    lemma_pairs_back(tokens, pos + 3, key, value, n as nat, s, start);
    lemma_end_back(tokens, end, TokenView::PairListEnd, Seq::empty());
    assert(advances(s, at, start));
    assert(seq![TokenView::PairListStart(n), key, value] + (tokens.subrange(pos + 3, end) + seq![
        TokenView::PairListEnd,
    ]) =~= tokens.subrange(pos, end + 1));
}

/// An encoded union is read back.
#[verifier::rlimit(50)]
pub proof fn lemma_union_back(tokens: Seq<TokenView>, pos: int, s: Seq<u8>, at: int)
    requires
        written(tokens, pos, encode_union(tokens, pos), s, at),
    ensures
        read_back(
            decode_union(s, at),
            tokens,
            pos,
            encode_union(tokens, pos)->Ok_0.1,
            at + encode_union(tokens, pos)->Ok_0.0.len(),
        ),
        encode_union(tokens, pos)->Ok_0.1 > pos,
        encode_union(tokens, pos)->Ok_0.0.len() > 0,
    decreases tokens.len() - pos, 0nat, 0nat,
{
    let variant = tokens[pos]->UnionStart_0;
    let d = seq![variant.discriminant()];
    variant.lemma_discriminant_round_trip();
    if variant == UnionType::Unset {
        lemma_end_back(tokens, pos + 1, TokenView::UnionEnd, Seq::empty());
        assert(d + Seq::<u8>::empty() =~= d);
        lemma_occurs_index(s, at, d, 0);
        assert(seq![TokenView::UnionStart(UnionType::Unset), TokenView::UnionEnd]
            =~= tokens.subrange(pos, pos + 2));
    } else {
        let field = encode_field(tokens, pos + 1);
        let end = field->Ok_0.1;
        let body = d + field->Ok_0.0;
        assert(body + Seq::<u8>::empty() =~= body);
        lemma_occurs_split(s, at, d, field->Ok_0.0);
        lemma_occurs_index(s, at, d, 0);
        lemma_field_back(tokens, pos + 1, false, s, at + 1);
        lemma_end_back(tokens, end, TokenView::UnionEnd, Seq::empty());
        assert(seq![TokenView::UnionStart(variant)] + (tokens.subrange(pos + 1, end) + seq![
            TokenView::UnionEnd,
        ]) =~= tokens.subrange(pos, end + 1));
    }
}

/// An encoded generic is read back.
#[verifier::rlimit(50)]
pub proof fn lemma_generic_back(tokens: Seq<TokenView>, pos: int, s: Seq<u8>, at: int)
    requires
        written(tokens, pos, encode_generic(tokens, pos), s, at),
    ensures
        read_back(
            decode_generic(s, at),
            tokens,
            pos,
            encode_generic(tokens, pos)->Ok_0.1,
            at + encode_generic(tokens, pos)->Ok_0.0.len(),
        ),
        encode_generic(tokens, pos)->Ok_0.1 > pos,
        encode_generic(tokens, pos)->Ok_0.0.len() > 0,
    decreases tokens.len() - pos, 0nat, 0nat,
{
    let present = tokens[pos]->GenericStart_0;
    if !present {
        lemma_end_back(tokens, pos + 1, TokenView::GenericEnd, Seq::empty());
        assert(seq![0u8] + Seq::<u8>::empty() =~= seq![0u8]);
        lemma_occurs_index(s, at, seq![0u8], 0);
        assert(seq![TokenView::GenericStart(false), TokenView::GenericEnd] =~= tokens.subrange(
            pos,
            pos + 2,
        ));
    } else {
        let id = tokens[pos + 1]->Int_0;
        let id_bytes = write_varint(id);
        let start = at + 1 + id_bytes.len();
        if tokens[pos + 2] == TokenView::GenericEnd {
            lemma_occurs_split(s, at, seq![1u8] + id_bytes, seq![0u8]);
            lemma_occurs_split(s, at, seq![1u8], id_bytes);
            lemma_occurs_index(s, at, seq![1u8], 0);
            lemma_occurs_index(s, start, seq![0u8], 0);
            lemma_varint_at(id, s, at + 1);
            assert(seq![
                TokenView::GenericStart(true),
                TokenView::Int(id),
                TokenView::GenericEnd,
            ] =~= tokens.subrange(pos, pos + 3));
        } else {
            let field = encode_field(tokens, pos + 2);
            let end = field->Ok_0.1;
            let body = seq![1u8] + id_bytes + field->Ok_0.0;
            lemma_end_back(tokens, end, TokenView::GenericEnd, seq![0u8]);
            lemma_occurs_split(s, at, body, seq![0u8]);
            lemma_occurs_split(s, at, seq![1u8] + id_bytes, field->Ok_0.0);
            lemma_occurs_split(s, at, seq![1u8], id_bytes);
            lemma_occurs_index(s, at, seq![1u8], 0);
            lemma_varint_at(id, s, at + 1);
            lemma_field_back(tokens, pos + 2, false, s, start);
            let stop = start + field->Ok_0.0.len();
            lemma_occurs_index(s, stop, seq![0u8], 0);
            assert(seq![TokenView::GenericStart(true), TokenView::Int(id)] + tokens.subrange(
                pos + 2,
                end,
            ) + seq![TokenView::GenericEnd] =~= tokens.subrange(pos, end + 1));
        }
    }
}

/// Round trip of the token form: of a canonical token buffer that holds a
/// root map and nothing else, the encoder writes bytes which the decoder
/// reads back as that buffer.
pub proof fn lemma_token_round_trip(tokens: Seq<TokenView>)
    requires
        canonical(tokens),
        tokens.len() > 0,
        tokens[0] == TokenView::MapType,
        encode_document(tokens, 0) is Ok,
        encode_value(tokens, 1, TokenView::MapType, true)->Ok_0.1 == tokens.len(),
    ensures
        decode_document(encode_document(tokens, 0)->Ok_0, 0, false) == Ok::<
            Seq<TokenView>,
            TdfError,
        >(tokens),
{
    let bytes = encode_document(tokens, 0)->Ok_0;
    assert(bytes.subrange(0, bytes.len() as int) =~= bytes);
    lemma_value_back(tokens, 1, TokenView::MapType, true, bytes, 0);
    let entries = encode_entries(tokens, 2, true);
    lemma_entries_back(tokens, 2, true, bytes, 0);
    assert(seq![TokenView::MapType, TokenView::MapStart] + tokens.subrange(2, tokens.len() as int)
        =~= tokens);
}

/// The leniency for the field `GBRA` is confined to it: a field with
/// another label is read in a map as it is read anywhere, and so is a
/// field `GBRA` that holds no pair list.
pub proof fn lemma_quirk_confined(s: Seq<u8>, at: int)
    requires
        bytes_at(s, at, 3) is Ok,
        !is_gbra(bytes_at(s, at, 3)->Ok_0) || decode_type(s, at + 3) != Ok::<TokenView, TdfError>(
            TokenView::PairListType,
        ),
    ensures
        decode_field(s, at, true) == decode_field(s, at, false),
{
}

/// In the field `GBRA` the values of a pair list are read as pair lists
/// whatever the type byte of the values says: the tokens read announce
/// pair lists, which is what the encoder writes for them.
pub proof fn lemma_quirk_reads_pair_lists(s: Seq<u8>, at: int)
    requires
        decode_pair_list(s, at, true) is Ok,
    ensures
        decode_pair_list(s, at, true)->Ok_0.0.len() >= 3,
        decode_pair_list(s, at, true)->Ok_0.0[2] == TokenView::PairListType,
{
}

/// What it is for decoded tokens to be encodable: the encoder takes them
/// where they stand, all of them.
pub open spec fn taken(encoded: Encoded, pos: int, part: Seq<TokenView>) -> bool {
    encoded is Ok && encoded->Ok_0.1 == pos + part.len()
}

/// What is asked of a decoding for its tokens to be encodable: it
/// succeeded, on an input that is no longer than a length can say, and
/// its tokens stand in `tokens` at `pos`.
pub open spec fn decoded_at(decoded: Decoded, s: Seq<u8>, tokens: Seq<TokenView>, pos: int) -> bool {
    &&& decoded is Ok
    &&& s.len() < i64::MAX
    &&& stands(tokens, pos, decoded->Ok_0.0)
}

/// Decoded integers are encodable.
pub proof fn lemma_ints_again(s: Seq<u8>, at: int, count: nat, tokens: Seq<TokenView>, pos: int)
    requires
        decoded_at(decode_ints(s, at, count), s, tokens, pos),
    ensures
        taken(encode_ints(tokens, pos, count), pos, decode_ints(s, at, count)->Ok_0.0),
        decode_ints(s, at, count)->Ok_0.0.len() == count,
    decreases count,
{
    if count > 0 {
        let v = read_varint(s, at)->Ok_0.0;
        let next = read_varint(s, at)->Ok_0.1;
        let rest = decode_ints(s, next, (count - 1) as nat)->Ok_0.0;
        lemma_stands_split(tokens, pos, seq![TokenView::Int(v)], rest);
        lemma_stands_index(tokens, pos, seq![TokenView::Int(v)], 0);
        lemma_ints_again(s, next, (count - 1) as nat, tokens, pos + 1);
    }
}

/// A decoded value of a type without parts is encodable.
#[verifier::rlimit(50)]
pub proof fn lemma_leaf_again(s: Seq<u8>, at: int, ty: TokenView, tokens: Seq<TokenView>, pos: int)
    requires
        decoded_at(decode_value(s, at, ty, false), s, tokens, pos),
        ty == TokenView::IntType || ty == TokenView::StringType || ty == TokenView::BlobType || ty
            == TokenView::FloatType || ty == TokenView::IntListType || ty
            == TokenView::ObjectTypeType || ty == TokenView::ObjectIdType,
    ensures
        taken(encode_value(tokens, pos, ty, false), pos, decode_value(s, at, ty, false)->Ok_0.0),
{
    let part = decode_value(s, at, ty, false)->Ok_0.0;
    match ty {
        TokenView::IntType => {
            lemma_stands_index(tokens, pos, part, 0);
        },
        TokenView::StringType => {
            reveal(decode_string);
            reveal(encode_string);
            lemma_stands_index(tokens, pos, part, 0);
            let size = read_varint(s, at)->Ok_0.0;
            let start = read_varint(s, at)->Ok_0.1;
            lemma_varint_advances(s, at);
            if size < 0 {
                lemma_nul_within(s, start);
            }
        },
        TokenView::BlobType => {
            reveal(decode_blob);
            reveal(encode_blob);
            lemma_stands_index(tokens, pos, part, 0);
        },
        TokenView::FloatType => {
            reveal(decode_float);
            reveal(encode_float);
            lemma_stands_index(tokens, pos, part, 0);
        },
        TokenView::IntListType => {
            reveal(decode_int_list);
            reveal(encode_int_list);
            let n = read_varint(s, at)->Ok_0.0;
            let start = read_varint(s, at)->Ok_0.1;
            let count = n as usize;
            let items = decode_ints(s, start, count as nat)->Ok_0.0;
            let head = seq![TokenView::IntListStart(count)];
            let tail = seq![TokenView::IntListEnd];
            lemma_stands_split(tokens, pos, head, items + tail);
            lemma_stands_split(tokens, pos + 1, items, tail);
            lemma_stands_index(tokens, pos, head, 0);
            lemma_ints_again(s, start, count as nat, tokens, pos + 1);
            lemma_stands_index(tokens, pos + 1 + items.len(), tail, 0);
        },
        TokenView::ObjectTypeType => {
            lemma_ints_again(s, at, 2, tokens, pos);
        },
        TokenView::ObjectIdType => {
            lemma_ints_again(s, at, 3, tokens, pos);
        },
        _ => {},
    }
}

/// A decoded value is encodable.
pub proof fn lemma_value_again(
    s: Seq<u8>,
    at: int,
    ty: TokenView,
    root: bool,
    tokens: Seq<TokenView>,
    pos: int,
)
    requires
        decoded_at(decode_value(s, at, ty, root), s, tokens, pos),
    ensures
        taken(encode_value(tokens, pos, ty, root), pos, decode_value(s, at, ty, root)->Ok_0.0),
    decreases s.len() - at, 2nat, 0nat,
{
    let part = decode_value(s, at, ty, root)->Ok_0.0;
    match ty {
        TokenView::MapType => {
            let entries = decode_entries(s, at, root)->Ok_0.0;
            lemma_stands_split(tokens, pos, seq![TokenView::MapStart], entries);
            lemma_stands_index(tokens, pos, seq![TokenView::MapStart], 0);
            lemma_entries_again(s, at, root, tokens, pos + 1);
        },
        TokenView::ListType => {
            lemma_list_again(s, at, tokens, pos);
        },
        TokenView::PairListType => {
            lemma_pair_list_again(s, at, false, tokens, pos);
        },
        TokenView::UnionType => {
            lemma_union_again(s, at, tokens, pos);
        },
        TokenView::GenericType => {
            lemma_generic_again(s, at, tokens, pos);
        },
        TokenView::IntType => {
            lemma_leaf_again(s, at, ty, tokens, pos);
        },
        TokenView::StringType => {
            lemma_leaf_again(s, at, ty, tokens, pos);
        },
        TokenView::BlobType => {
            lemma_leaf_again(s, at, ty, tokens, pos);
        },
        TokenView::FloatType => {
            lemma_leaf_again(s, at, ty, tokens, pos);
        },
        TokenView::IntListType => {
            lemma_leaf_again(s, at, ty, tokens, pos);
        },
        TokenView::ObjectTypeType => {
            lemma_leaf_again(s, at, ty, tokens, pos);
        },
        TokenView::ObjectIdType => {
            lemma_leaf_again(s, at, ty, tokens, pos);
        },
        _ => {},
    }
}

/// A decoded field is encodable.
pub proof fn lemma_field_again(
    s: Seq<u8>,
    at: int,
    in_map: bool,
    tokens: Seq<TokenView>,
    pos: int,
)
    requires
        decoded_at(decode_field(s, at, in_map), s, tokens, pos),
    ensures
        taken(encode_field(tokens, pos), pos, decode_field(s, at, in_map)->Ok_0.0),
        decode_field(s, at, in_map)->Ok_0.0.len() >= 2,
        decode_field(s, at, in_map)->Ok_0.0[0] is Label,
    decreases s.len() - at, 0nat, 0nat,
{
    let p = bytes_at(s, at, 3)->Ok_0;
    let ty = decode_type(s, at + 3)->Ok_0;
    let head = seq![TokenView::Label(unpack_text(p[0], p[1], p[2])), ty];
    ty.lemma_tag_round_trip(s[at + 3]);
    if in_map && is_gbra(p) && ty == TokenView::PairListType {
        let value = decode_pair_list(s, at + 4, true)->Ok_0.0;
        lemma_stands_split(tokens, pos, head, value);
        lemma_stands_index(tokens, pos, head, 0);
        lemma_stands_index(tokens, pos, head, 1);
        lemma_pair_list_again(s, at + 4, true, tokens, pos + 2);
    } else {
        let value = decode_value(s, at + 4, ty, false)->Ok_0.0;
        lemma_stands_split(tokens, pos, head, value);
        lemma_stands_index(tokens, pos, head, 0);
        lemma_stands_index(tokens, pos, head, 1);
        lemma_value_again(s, at + 4, ty, false, tokens, pos + 2);
    }
}

/// The decoded entries of a map are encodable.
#[verifier::rlimit(40)]
pub proof fn lemma_entries_again(
    s: Seq<u8>,
    at: int,
    root: bool,
    tokens: Seq<TokenView>,
    pos: int,
)
    requires
        decoded_at(decode_entries(s, at, root), s, tokens, pos),
    ensures
        taken(encode_entries(tokens, pos, root), pos, decode_entries(s, at, root)->Ok_0.0),
    decreases s.len() - at, 1nat, 0nat,
{
    let part = decode_entries(s, at, root)->Ok_0.0;
    if byte_at(s, at) is Err || s[at] == 0 {
        lemma_stands_index(tokens, pos, part, 0);
    } else {
        let marked = s[at] <= 2;
        let start = if marked { at + 1 } else { at };
        let mark = if marked { seq![TokenView::MapUnion] } else { Seq::<TokenView>::empty() };
        let field = decode_field(s, start, true)->Ok_0.0;
        let end = decode_field(s, start, true)->Ok_0.1;
        let rest = decode_entries(s, end, root)->Ok_0.0;
        lemma_stands_split(tokens, pos, mark + field, rest);
        lemma_stands_split(tokens, pos, mark, field);
        if marked {
            lemma_stands_index(tokens, pos, mark, 0);
        }
        lemma_field_again(s, start, true, tokens, pos + mark.len());
        lemma_stands_index(tokens, pos + mark.len(), field, 0);
        lemma_entries_again(s, end, root, tokens, pos + mark.len() + field.len());
        lemma_entries_consume(tokens, pos + mark.len() + field.len(), root);
    }
}

/// Decoded values in a row are encodable.
pub proof fn lemma_items_again(
    s: Seq<u8>,
    at: int,
    ty: TokenView,
    count: nat,
    tokens: Seq<TokenView>,
    pos: int,
)
    requires
        decoded_at(decode_items(s, at, ty, count), s, tokens, pos),
    ensures
        taken(encode_items(tokens, pos, ty, count), pos, decode_items(s, at, ty, count)->Ok_0.0),
    decreases s.len() - at, 3nat, count,
{
    if count > 0 {
        let item = decode_value(s, at, ty, false)->Ok_0.0;
        let end = decode_value(s, at, ty, false)->Ok_0.1;
        let rest = decode_items(s, end, ty, (count - 1) as nat)->Ok_0.0;
        lemma_stands_split(tokens, pos, item, rest);
        lemma_value_again(s, at, ty, false, tokens, pos);
        lemma_value_consumes(tokens, pos, ty, false);
        lemma_items_again(s, end, ty, (count - 1) as nat, tokens, pos + item.len());
    }
}

/// Decoded pairs in a row are encodable.
pub proof fn lemma_pairs_again(
    s: Seq<u8>,
    at: int,
    key: TokenView,
    value: TokenView,
    count: nat,
    tokens: Seq<TokenView>,
    pos: int,
)
    requires
        decoded_at(decode_pairs(s, at, key, value, count), s, tokens, pos),
    ensures
        taken(
            encode_pairs(tokens, pos, key, value, count),
            pos,
            decode_pairs(s, at, key, value, count)->Ok_0.0,
        ),
    decreases s.len() - at, 3nat, count,
{
    if count > 0 {
        let k = decode_value(s, at, key, false)->Ok_0.0;
        let mid = decode_value(s, at, key, false)->Ok_0.1;
        let v = decode_value(s, mid, value, false)->Ok_0.0;
        let end = decode_value(s, mid, value, false)->Ok_0.1;
        let rest = decode_pairs(s, end, key, value, (count - 1) as nat)->Ok_0.0;
        lemma_stands_split(tokens, pos, k + v, rest);
        lemma_stands_split(tokens, pos, k, v);
        lemma_value_again(s, at, key, false, tokens, pos);
        lemma_value_consumes(tokens, pos, key, false);
        lemma_value_again(s, mid, value, false, tokens, pos + k.len());
        lemma_value_consumes(tokens, pos + k.len(), value, false);
        lemma_pairs_again(s, end, key, value, (count - 1) as nat, tokens, pos + k.len() + v.len());
    }
}

/// A decoded list is encodable.
pub proof fn lemma_list_again(s: Seq<u8>, at: int, tokens: Seq<TokenView>, pos: int)
    requires
        decoded_at(decode_list(s, at), s, tokens, pos),
    ensures
        taken(encode_list(tokens, pos), pos, decode_list(s, at)->Ok_0.0),
    decreases s.len() - at, 0nat, 0nat,
{
    let ty = decode_type(s, at)->Ok_0;
    let n = read_varint(s, at + 1)->Ok_0.0;
    let start = read_varint(s, at + 1)->Ok_0.1;
    let count = n as usize;
    let items = decode_items(s, start, ty, count as nat)->Ok_0.0;
    let head = seq![TokenView::ListStart(count), ty];
    let tail = seq![TokenView::ListEnd];
    ty.lemma_tag_round_trip(s[at]);
    lemma_stands_split(tokens, pos, head, items + tail);
    lemma_stands_split(tokens, pos + 2, items, tail);
    lemma_stands_index(tokens, pos, head, 0);
    lemma_stands_index(tokens, pos, head, 1);
    lemma_items_again(s, start, ty, count as nat, tokens, pos + 2);
    lemma_stands_index(tokens, pos + 2 + items.len(), tail, 0);
}

/// A decoded pair list is encodable, also one whose values were taken for
/// pair lists whatever their type byte said.
pub proof fn lemma_pair_list_again(
    s: Seq<u8>,
    at: int,
    bugged: bool,
    tokens: Seq<TokenView>,
    pos: int,
)
    requires
        decoded_at(decode_pair_list(s, at, bugged), s, tokens, pos),
    ensures
        taken(encode_pair_list(tokens, pos), pos, decode_pair_list(s, at, bugged)->Ok_0.0),
    decreases s.len() - at, 0nat, 0nat,
{
    let key = decode_type(s, at)->Ok_0;
    let declared = decode_type(s, at + 1)->Ok_0;
    let value = if bugged { TokenView::PairListType } else { declared };
    let n = read_varint(s, at + 2)->Ok_0.0;
    let start = read_varint(s, at + 2)->Ok_0.1;
    let count = n as usize;
    let pairs = decode_pairs(s, start, key, value, count as nat)->Ok_0.0;
    let head = seq![TokenView::PairListStart(count), key, value];
    let tail = seq![TokenView::PairListEnd];
    key.lemma_tag_round_trip(s[at]);
    declared.lemma_tag_round_trip(s[at + 1]);
    lemma_stands_split(tokens, pos, head, pairs + tail);
    lemma_stands_split(tokens, pos + 3, pairs, tail);
    lemma_stands_index(tokens, pos, head, 0);
    lemma_stands_index(tokens, pos, head, 1);
    lemma_stands_index(tokens, pos, head, 2);
    lemma_pairs_again(s, start, key, value, count as nat, tokens, pos + 3);
    lemma_stands_index(tokens, pos + 3 + pairs.len(), tail, 0);
}

/// A decoded union is encodable.
pub proof fn lemma_union_again(s: Seq<u8>, at: int, tokens: Seq<TokenView>, pos: int)
    requires
        decoded_at(decode_union(s, at), s, tokens, pos),
    ensures
        taken(encode_union(tokens, pos), pos, decode_union(s, at)->Ok_0.0),
    decreases s.len() - at, 0nat, 0nat,
{
    let part = decode_union(s, at)->Ok_0.0;
    let variant = UnionType::of_discriminant(s[at])->Some_0;
    lemma_stands_index(tokens, pos, part, 0);
    if variant == UnionType::Unset {
        lemma_stands_index(tokens, pos, part, 1);
    } else {
        let field = decode_field(s, at + 1, false)->Ok_0.0;
        let head = seq![TokenView::UnionStart(variant)];
        let tail = seq![TokenView::UnionEnd];
        lemma_stands_split(tokens, pos, head, field + tail);
        lemma_stands_split(tokens, pos + 1, field, tail);
        lemma_field_again(s, at + 1, false, tokens, pos + 1);
        lemma_stands_index(tokens, pos + 1 + field.len(), tail, 0);
    }
}

/// A decoded generic is encodable.
pub proof fn lemma_generic_again(s: Seq<u8>, at: int, tokens: Seq<TokenView>, pos: int)
    requires
        decoded_at(decode_generic(s, at), s, tokens, pos),
    ensures
        taken(encode_generic(tokens, pos), pos, decode_generic(s, at)->Ok_0.0),
    decreases s.len() - at, 0nat, 0nat,
{
    let part = decode_generic(s, at)->Ok_0.0;
    lemma_stands_index(tokens, pos, part, 0);
    lemma_stands_index(tokens, pos, part, 1);
    if s[at] != 0 {
        let id = read_varint(s, at + 1)->Ok_0.0;
        let start = read_varint(s, at + 1)->Ok_0.1;
        if s[start] == 0 {
            lemma_stands_index(tokens, pos, part, 2);
        } else {
            let field = decode_field(s, start, false)->Ok_0.0;
            let head = seq![TokenView::GenericStart(true), TokenView::Int(id)];
            let tail = seq![TokenView::GenericEnd];
            lemma_stands_split(tokens, pos, head + field, tail);
            lemma_stands_split(tokens, pos, head, field);
            lemma_field_again(s, start, false, tokens, pos + 2);
            lemma_stands_index(tokens, pos + 2, field, 0);
            lemma_stands_index(tokens, pos + 2 + field.len(), tail, 0);
        }
    }
}

/// What the decoder made of a document, the encoder takes, and what the
/// encoder then writes is read back as the same tokens, if the labels are
/// wire labels. So a document that used the leniency of the decoder, for
/// a string or for the field `GBRA`, is written anew in canonical form
/// without a change to what it holds.
pub proof fn lemma_decoded_round_trip(s: Seq<u8>)
    requires
        s.len() < i64::MAX,
        decode_document(s, 0, false) is Ok,
        canonical(decode_document(s, 0, false)->Ok_0),
    ensures
        encode_document(decode_document(s, 0, false)->Ok_0, 0) is Ok,
        decode_document(
            encode_document(decode_document(s, 0, false)->Ok_0, 0)->Ok_0,
            0,
            false,
        ) == decode_document(s, 0, false),
{
    let tokens = decode_document(s, 0, false)->Ok_0;
    let entries = decode_entries(s, 0, true)->Ok_0.0;
    assert(tokens == seq![TokenView::MapType, TokenView::MapStart] + entries);
    assert(tokens.subrange(2, 2 + entries.len() as int) =~= entries);
    lemma_entries_again(s, 0, true, tokens, 2);
    lemma_token_round_trip(tokens);
}

} // verus!
