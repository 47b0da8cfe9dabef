//! Every successful reading takes bytes, and every successful writing
//! takes tokens: neither the decoder nor the encoder stands still on a
//! value or runs past its input. This is what lets the codec of
//! collections ask for it without ever refusing a value on that account.

use vstd::prelude::*;
use crate::btdf::des::{
    advances, decode_blob, decode_entries, decode_field, decode_float, decode_int_list,
    decode_ints, decode_items, decode_pair_list, decode_pairs, decode_string, decode_union,
    decode_value, find_nul, is_gbra,
};
use crate::btdf::reader::{byte_at, bytes_at};
use crate::btdf::ser::{
    consumes, encode_blob, encode_entries, encode_field, encode_float, encode_int_list,
    encode_ints, encode_items, encode_pairs, encode_string, encode_value,
};
use crate::btdf::varint::{read_varint, varint_tail};
use crate::token::{TokenView, UnionType};

verus! {

/// The continuation bytes of an integer end within the input, behind
/// where they begin.
pub proof fn lemma_tail_advances(bytes: Seq<u8>, pos: int)
    requires
        varint_tail(bytes, pos) is Ok,
    ensures
        advances(bytes, pos, varint_tail(bytes, pos)->Ok_0.1),
    decreases bytes.len() - pos,
{
    if bytes[pos] >= 128 {
        lemma_tail_advances(bytes, pos + 1);
    }
}

/// An integer that is read takes at least one byte.
pub proof fn lemma_varint_advances(bytes: Seq<u8>, pos: int)
    requires
        read_varint(bytes, pos) is Ok,
    ensures
        advances(bytes, pos, read_varint(bytes, pos)->Ok_0.1),
{
    if bytes[pos] >= 128 {
        lemma_tail_advances(bytes, pos + 1);
    }
}

/// Integers in a row that are read end within the input.
pub proof fn lemma_ints_advance(bytes: Seq<u8>, pos: int, count: nat)
    requires
        decode_ints(bytes, pos, count) is Ok,
    ensures
        decode_ints(bytes, pos, count)->Ok_0.1 >= pos,
        count > 0 ==> advances(bytes, pos, decode_ints(bytes, pos, count)->Ok_0.1),
    decreases count,
{
    if count > 0 {
        lemma_varint_advances(bytes, pos);
        lemma_ints_advance(bytes, read_varint(bytes, pos)->Ok_0.1, (count - 1) as nat);
    }
}

/// The first NUL that is found lies within the input.
pub proof fn lemma_nul_within(bytes: Seq<u8>, pos: int)
    requires
        find_nul(bytes, pos) is Ok,
    ensures
        pos <= find_nul(bytes, pos)->Ok_0 < bytes.len(),
    decreases bytes.len() - pos,
{
    if bytes[pos] != 0 {
        lemma_nul_within(bytes, pos + 1);
    }
}

/// The entries of a map that are read end where they began or behind it.
pub proof fn lemma_entries_advance(bytes: Seq<u8>, pos: int, root: bool)
    requires
        decode_entries(bytes, pos, root) is Ok,
    ensures
        decode_entries(bytes, pos, root)->Ok_0.1 >= pos,
        !root ==> advances(bytes, pos, decode_entries(bytes, pos, root)->Ok_0.1),
    decreases bytes.len() - pos,
{
    if byte_at(bytes, pos) is Ok && bytes[pos] != 0 {
        let start = if bytes[pos] <= 2 { pos + 1 } else { pos };
        let end = decode_field(bytes, start, true)->Ok_0.1;
        lemma_entries_advance(bytes, end, root);
    }
}

/// Values in a row that are read end within the input.
pub proof fn lemma_items_advance(bytes: Seq<u8>, pos: int, ty: TokenView, count: nat)
    requires
        decode_items(bytes, pos, ty, count) is Ok,
    ensures
        decode_items(bytes, pos, ty, count)->Ok_0.1 >= pos,
        count > 0 ==> advances(bytes, pos, decode_items(bytes, pos, ty, count)->Ok_0.1),
    decreases count,
{
    if count > 0 {
        let end = decode_value(bytes, pos, ty, false)->Ok_0.1;
        lemma_items_advance(bytes, end, ty, (count - 1) as nat);
    }
}

/// Pairs in a row that are read end within the input.
pub proof fn lemma_pairs_advance(
    bytes: Seq<u8>,
    pos: int,
    key: TokenView,
    value: TokenView,
    count: nat,
)
    requires
        decode_pairs(bytes, pos, key, value, count) is Ok,
    ensures
        decode_pairs(bytes, pos, key, value, count)->Ok_0.1 >= pos,
        count > 0 ==> advances(bytes, pos, decode_pairs(bytes, pos, key, value, count)->Ok_0.1),
    decreases count,
{
    if count > 0 {
        let mid = decode_value(bytes, pos, key, false)->Ok_0.1;
        let end = decode_value(bytes, mid, value, false)->Ok_0.1;
        lemma_pairs_advance(bytes, end, key, value, (count - 1) as nat);
    }
}

/// A pair list that is read takes bytes.
pub proof fn lemma_pair_list_advances(bytes: Seq<u8>, pos: int, bugged: bool)
    requires
        decode_pair_list(bytes, pos, bugged) is Ok,
    ensures
        advances(bytes, pos, decode_pair_list(bytes, pos, bugged)->Ok_0.1),
{
    let key = TokenView::read_tag(bytes[pos], pos as usize)->Ok_0;
    let declared = TokenView::read_tag(bytes[pos + 1], (pos + 1) as usize)->Ok_0;
    let value = if bugged { TokenView::PairListType } else { declared };
    let n = read_varint(bytes, pos + 2)->Ok_0.0;
    let start = read_varint(bytes, pos + 2)->Ok_0.1;
    lemma_varint_advances(bytes, pos + 2);
    lemma_pairs_advance(bytes, start, key, value, n as nat);
}

/// A value that is read, and is not the root, takes bytes: it ends within
/// the input, behind where it began.
pub proof fn lemma_value_advances(bytes: Seq<u8>, pos: int, ty: TokenView)
    requires
        decode_value(bytes, pos, ty, false) is Ok,
    ensures
        advances(bytes, pos, decode_value(bytes, pos, ty, false)->Ok_0.1),
    decreases bytes.len() - pos, 1nat,
{
    match ty {
        TokenView::IntType => {
            lemma_varint_advances(bytes, pos);
        },
        TokenView::StringType => {
            reveal(decode_string);
            lemma_varint_advances(bytes, pos);
            let size = read_varint(bytes, pos)->Ok_0.0;
            if size < 0 {
                lemma_nul_within(bytes, read_varint(bytes, pos)->Ok_0.1);
            }
        },
        TokenView::BlobType => {
            reveal(decode_blob);
            lemma_varint_advances(bytes, pos);
        },
        TokenView::MapType => {
            lemma_entries_advance(bytes, pos, false);
        },
        TokenView::ListType => {
            let item = TokenView::read_tag(bytes[pos], pos as usize)->Ok_0;
            let n = read_varint(bytes, pos + 1)->Ok_0.0;
            let start = read_varint(bytes, pos + 1)->Ok_0.1;
            lemma_varint_advances(bytes, pos + 1);
            lemma_items_advance(bytes, start, item, n as nat);
        },
        TokenView::PairListType => {
            lemma_pair_list_advances(bytes, pos, false);
        },
        TokenView::UnionType => {
            if decode_union(bytes, pos)->Ok_0.1 != pos + 1 {
                lemma_field_advances(bytes, pos + 1, false);
            }
        },
        TokenView::IntListType => {
            reveal(decode_int_list);
            lemma_varint_advances(bytes, pos);
            let n = read_varint(bytes, pos)->Ok_0.0;
            lemma_ints_advance(bytes, read_varint(bytes, pos)->Ok_0.1, n as nat);
        },
        TokenView::ObjectTypeType => {
            lemma_ints_advance(bytes, pos, 2);
        },
        TokenView::ObjectIdType => {
            lemma_ints_advance(bytes, pos, 3);
        },
        TokenView::FloatType => {
            reveal(decode_float);
        },
        TokenView::GenericType => {
            if bytes[pos] != 0 {
                lemma_varint_advances(bytes, pos + 1);
                let start = read_varint(bytes, pos + 1)->Ok_0.1;
                if bytes[start] != 0 {
                    lemma_field_advances(bytes, start, false);
                }
            }
        },
        _ => {},
    }
}

/// A field that is read takes bytes.
pub proof fn lemma_field_advances(bytes: Seq<u8>, pos: int, in_map: bool)
    requires
        decode_field(bytes, pos, in_map) is Ok,
    ensures
        advances(bytes, pos, decode_field(bytes, pos, in_map)->Ok_0.1),
    decreases bytes.len() - pos, 0nat,
{
    let ty = TokenView::read_tag(bytes[pos + 3], (pos + 3) as usize)->Ok_0;
    let p = bytes_at(bytes, pos, 3)->Ok_0;
    if in_map && is_gbra(p) && ty == TokenView::PairListType {
        lemma_pair_list_advances(bytes, pos + 4, true);
    } else {
        lemma_value_advances(bytes, pos + 4, ty);
    }
}

/// `Int` tokens in a row that are written end within the buffer.
pub proof fn lemma_ints_consume(tokens: Seq<TokenView>, pos: int, count: nat)
    requires
        encode_ints(tokens, pos, count) is Ok,
    ensures
        encode_ints(tokens, pos, count)->Ok_0.1 == pos + count,
        count > 0 ==> consumes(tokens, pos, pos + count),
    decreases count,
{
    if count > 0 {
        lemma_ints_consume(tokens, pos + 1, (count - 1) as nat);
    }
}

/// The entries of a map that are written take at least the closing token.
pub proof fn lemma_entries_consume(tokens: Seq<TokenView>, pos: int, root: bool)
    requires
        encode_entries(tokens, pos, root) is Ok,
    ensures
        consumes(tokens, pos, encode_entries(tokens, pos, root)->Ok_0.1),
    decreases tokens.len() - pos,
{
    if tokens[pos] != TokenView::MapEnd {
        let start = if tokens[pos] == TokenView::MapUnion { pos + 1 } else { pos };
        lemma_entries_consume(tokens, encode_field(tokens, start)->Ok_0.1, root);
    }
}

/// Values in a row that are written end within the buffer.
pub proof fn lemma_items_consume(tokens: Seq<TokenView>, pos: int, ty: TokenView, count: nat)
    requires
        encode_items(tokens, pos, ty, count) is Ok,
    ensures
        encode_items(tokens, pos, ty, count)->Ok_0.1 >= pos,
        count > 0 ==> consumes(tokens, pos, encode_items(tokens, pos, ty, count)->Ok_0.1),
    decreases count,
{
    if count > 0 {
        let end = encode_value(tokens, pos, ty, false)->Ok_0.1;
        lemma_items_consume(tokens, end, ty, (count - 1) as nat);
    }
}

/// Pairs in a row that are written end within the buffer.
pub proof fn lemma_pairs_consume(
    tokens: Seq<TokenView>,
    pos: int,
    key: TokenView,
    value: TokenView,
    count: nat,
)
    requires
        encode_pairs(tokens, pos, key, value, count) is Ok,
    ensures
        encode_pairs(tokens, pos, key, value, count)->Ok_0.1 >= pos,
        count > 0 ==> consumes(tokens, pos, encode_pairs(tokens, pos, key, value, count)->Ok_0.1),
    decreases count,
{
    if count > 0 {
        let mid = encode_value(tokens, pos, key, false)->Ok_0.1;
        let end = encode_value(tokens, mid, value, false)->Ok_0.1;
        lemma_pairs_consume(tokens, end, key, value, (count - 1) as nat);
    }
}

/// A value that is written takes tokens: it ends within the buffer, behind
/// where it began.
pub proof fn lemma_value_consumes(tokens: Seq<TokenView>, pos: int, ty: TokenView, root: bool)
    requires
        encode_value(tokens, pos, ty, root) is Ok,
    ensures
        consumes(tokens, pos, encode_value(tokens, pos, ty, root)->Ok_0.1),
    decreases tokens.len() - pos, 1nat,
{
    match ty {
        TokenView::StringType => {
            reveal(encode_string);
        },
        TokenView::BlobType => {
            reveal(encode_blob);
        },
        TokenView::MapType => {
            lemma_entries_consume(tokens, pos + 1, root);
        },
        TokenView::ListType => {
            let n = tokens[pos]->ListStart_0;
            lemma_items_consume(tokens, pos + 2, tokens[pos + 1], n as nat);
        },
        TokenView::PairListType => {
            let n = tokens[pos]->PairListStart_0;
            lemma_pairs_consume(tokens, pos + 3, tokens[pos + 1], tokens[pos + 2], n as nat);
        },
        TokenView::UnionType => {
            if tokens[pos]->UnionStart_0 != UnionType::Unset {
                lemma_field_consumes(tokens, pos + 1);
            }
        },
        TokenView::IntListType => {
            reveal(encode_int_list);
            let n = tokens[pos]->IntListStart_0;
            lemma_ints_consume(tokens, pos + 1, n as nat);
        },
        TokenView::ObjectTypeType => {
            lemma_ints_consume(tokens, pos, 2);
        },
        TokenView::ObjectIdType => {
            lemma_ints_consume(tokens, pos, 3);
        },
        TokenView::FloatType => {
            reveal(encode_float);
        },
        TokenView::GenericType => {
            if tokens[pos]->GenericStart_0 && tokens[pos + 2] != TokenView::GenericEnd {
                lemma_field_consumes(tokens, pos + 2);
            }
        },
        _ => {},
    }
}

/// A field that is written takes tokens.
pub proof fn lemma_field_consumes(tokens: Seq<TokenView>, pos: int)
    requires
        encode_field(tokens, pos) is Ok,
    ensures
        consumes(tokens, pos, encode_field(tokens, pos)->Ok_0.1),
    decreases tokens.len() - pos, 0nat,
{
    lemma_value_consumes(tokens, pos + 2, tokens[pos + 1], false);
}

} // verus!
