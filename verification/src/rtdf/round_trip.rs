//! The round trip of the record form: what a value is written as, it is
//! read back from.

use vstd::prelude::*;
use vstd::array::array_len_matches_n;
use vstd::std_specs::vec::axiom_spec_len;
use vstd::utf8::{encode_utf8, encode_utf8_valid_utf8};
use vstd::utf8::{is_ascii_chars, is_ascii_chars_encode_utf8};
use crate::btdf::label::{
    is_label, is_label_char, label_char, lemma_label_round_trip, lemma_pack_folds, pack_label,
    unpack_label, unpack_text,
};
use crate::btdf::ser::{lemma_be_bytes, token_at};
use crate::error::TdfError;
use crate::outside::be_u32;
use crate::rtdf::des::Deserialize;
use crate::rtdf::des::{
    address_field, address_tokens, expansion_from, field_canon, field_tokens, generic_tokens,
    int_field, ints_from, pairs_from, payload_head, payload_tail, union_tokens, wire_text,
};
use crate::rtdf::ser::{
    code_of, label_matches, named_field, parsed_field, parsed_ints, parsed_ip_addr, parsed_ip_pair,
    parsed_items, parsed_pairs, parsed_xbox_client, payload_end, payload_start, Parsed, Serialize,
};
use crate::rtdf::{
    FloatBits, Generic, GenericContent, GenericType, IntList, IpAddress, Localization, ObjectId,
    ObjectType, Union,
};
use crate::btdf::des::is_gbra;
use crate::btdf::progress::lemma_entries_consume;
use crate::btdf::round_trip::{canonical, is_wire_label};
use crate::btdf::ser::{encode_entries, encode_field, encode_value};
use crate::token::{lemma_stands_index, lemma_stands_split, stands, TokenView, UnionType};
use crate::{binary_of_record, lemma_record_round_trip, record_of_binary};

verus! {

/// What it is to be read back: reading gives a value that is written as
/// the tokens `part`, and ends behind them.
pub open spec fn read_back(parsed: Parsed, pos: int, part: Seq<TokenView>) -> bool {
    parsed == Ok::<(Seq<TokenView>, int), TdfError>((part, pos + part.len()))
}

/// A type whose values are read back from what they are written as:
/// wherever the tokens of a value stand, reading a value of the type there
/// gives one that is written as the same tokens, and takes exactly those
/// tokens.
pub trait RoundTrip: Serialize {
    /// The tokens of the value, standing in `tokens` at `pos`, are read
    /// back as a value that is written as them.
    proof fn lemma_read_back(&self, tokens: Seq<TokenView>, pos: int)
        requires
            self.expansion() is Ok,
            stands(tokens, pos, self.expansion()->Ok_0),
        ensures
            read_back(Self::parsed(tokens, pos), pos, self.expansion()->Ok_0),
    ;
}

/// An integer of a narrower type is found again in its 64-bit form.
proof fn lemma_casts(a: u64, b: i32, c: u32)
    by (bit_vector)
    ensures
        ((a as i64) as u64) == a,
        ((b as i64) as i32) == b,
        ((c as i64) as u32) == c,
{
}

impl RoundTrip for i64 {
    proof fn lemma_read_back(&self, tokens: Seq<TokenView>, pos: int) {
        lemma_stands_index(tokens, pos, self.expansion()->Ok_0, 0);
    }
}

impl RoundTrip for u64 {
    proof fn lemma_read_back(&self, tokens: Seq<TokenView>, pos: int) {
        lemma_stands_index(tokens, pos, self.expansion()->Ok_0, 0);
        lemma_casts(*self, 0, 0);
    }
}

impl RoundTrip for i32 {
    proof fn lemma_read_back(&self, tokens: Seq<TokenView>, pos: int) {
        lemma_stands_index(tokens, pos, self.expansion()->Ok_0, 0);
        lemma_casts(0, *self, 0);
    }
}

impl RoundTrip for u32 {
    proof fn lemma_read_back(&self, tokens: Seq<TokenView>, pos: int) {
        lemma_stands_index(tokens, pos, self.expansion()->Ok_0, 0);
        lemma_casts(0, 0, *self);
    }
}

impl RoundTrip for bool {
    proof fn lemma_read_back(&self, tokens: Seq<TokenView>, pos: int) {
        lemma_stands_index(tokens, pos, self.expansion()->Ok_0, 0);
    }
}

impl RoundTrip for String {
    proof fn lemma_read_back(&self, tokens: Seq<TokenView>, pos: int) {
        lemma_stands_index(tokens, pos, self.expansion()->Ok_0, 0);
        encode_utf8_valid_utf8(self@);
    }
}

impl RoundTrip for Vec<u8> {
    proof fn lemma_read_back(&self, tokens: Seq<TokenView>, pos: int) {
        lemma_stands_index(tokens, pos, self.expansion()->Ok_0, 0);
    }
}

impl RoundTrip for FloatBits {
    proof fn lemma_read_back(&self, tokens: Seq<TokenView>, pos: int) {
        lemma_stands_index(tokens, pos, self.expansion()->Ok_0, 0);
    }
}

/// Integers in a row are read back.
pub proof fn lemma_ints_read_back(items: Seq<i64>, from: int, tokens: Seq<TokenView>, pos: int)
    requires
        0 <= from <= items.len(),
        stands(tokens, pos, ints_from(items, from)),
    ensures
        read_back(
            parsed_ints(tokens, pos, (items.len() - from) as nat),
            pos,
            ints_from(items, from),
        ),
    decreases items.len() - from,
{
    if from < items.len() {
        let first = seq![TokenView::Int(items[from])];
        let rest = ints_from(items, from + 1);
        lemma_stands_split(tokens, pos, first, rest);
        lemma_stands_index(tokens, pos, first, 0);
        lemma_ints_read_back(items, from + 1, tokens, pos + 1);
    }
}

impl RoundTrip for ObjectId {
    proof fn lemma_read_back(&self, tokens: Seq<TokenView>, pos: int) {
        let items = seq![self.0, self.1, self.2];
        reveal_with_fuel(ints_from, 4);
        assert(ints_from(items, 0) =~= self.expansion()->Ok_0);
        lemma_ints_read_back(items, 0, tokens, pos);
    }
}

impl RoundTrip for ObjectType {
    proof fn lemma_read_back(&self, tokens: Seq<TokenView>, pos: int) {
        let items = seq![self.0, self.1];
        reveal_with_fuel(ints_from, 3);
        assert(ints_from(items, 0) =~= self.expansion()->Ok_0);
        lemma_ints_read_back(items, 0, tokens, pos);
    }
}

impl RoundTrip for IntList {
    proof fn lemma_read_back(&self, tokens: Seq<TokenView>, pos: int) {
        axiom_spec_len(&self.0);
        assert(self.0@.len() == self.0.len());
        let n = self.0@.len() as usize;
        let items = ints_from(self.0@, 0);
        let head = seq![TokenView::IntListStart(n)];
        let tail = seq![TokenView::IntListEnd];
        lemma_stands_split(tokens, pos, head + items, tail);
        lemma_stands_split(tokens, pos, head, items);
        lemma_stands_index(tokens, pos, head, 0);
        lemma_stands_index(tokens, pos + 1 + items.len(), tail, 0);
        lemma_ints_read_back(self.0@, 0, tokens, pos + 1);
    }
}

/// Values in a row are read back.
pub proof fn lemma_items_read_back<T: RoundTrip>(
    items: Seq<T>,
    from: int,
    tokens: Seq<TokenView>,
    pos: int,
)
    requires
        0 <= from <= items.len(),
        expansion_from(items, from) is Ok,
        stands(tokens, pos, expansion_from(items, from)->Ok_0),
    ensures
        read_back(
            parsed_items::<T>(tokens, pos, (items.len() - from) as nat),
            pos,
            expansion_from(items, from)->Ok_0,
        ),
    decreases items.len() - from,
{
    if from < items.len() {
        let first = items[from].expansion()->Ok_0;
        let rest = expansion_from(items, from + 1)->Ok_0;
        lemma_stands_split(tokens, pos, first, rest);
        items[from].lemma_read_back(tokens, pos);
        lemma_items_read_back(items, from + 1, tokens, pos + first.len());
    }
}

/// Pairs in a row are read back.
pub proof fn lemma_pairs_read_back<K: RoundTrip, V: RoundTrip>(
    pairs: Seq<(K, V)>,
    from: int,
    tokens: Seq<TokenView>,
    pos: int,
)
    requires
        0 <= from <= pairs.len(),
        pairs_from(pairs, from) is Ok,
        stands(tokens, pos, pairs_from(pairs, from)->Ok_0),
    ensures
        read_back(
            parsed_pairs::<K, V>(tokens, pos, (pairs.len() - from) as nat),
            pos,
            pairs_from(pairs, from)->Ok_0,
        ),
    decreases pairs.len() - from,
{
    if from < pairs.len() {
        let key = pairs[from].0.expansion()->Ok_0;
        let value = pairs[from].1.expansion()->Ok_0;
        let rest = pairs_from(pairs, from + 1)->Ok_0;
        lemma_stands_split(tokens, pos, key + value, rest);
        lemma_stands_split(tokens, pos, key, value);
        pairs[from].0.lemma_read_back(tokens, pos);
        pairs[from].1.lemma_read_back(tokens, pos + key.len());
        lemma_pairs_read_back(pairs, from + 1, tokens, pos + key.len() + value.len());
    }
}

impl<T: RoundTrip> RoundTrip for Vec<T> {
    proof fn lemma_read_back(&self, tokens: Seq<TokenView>, pos: int) {
        axiom_spec_len(self);
        assert(self@.len() == self.len());
        let n = self@.len() as usize;
        let items = expansion_from(self@, 0)->Ok_0;
        let head = seq![TokenView::ListStart(n), T::marker()];
        let tail = seq![TokenView::ListEnd];
        lemma_stands_split(tokens, pos, head, items + tail);
        lemma_stands_split(tokens, pos + 2, items, tail);
        lemma_stands_index(tokens, pos, head, 0);
        lemma_stands_index(tokens, pos, head, 1);
        lemma_stands_index(tokens, pos + 2 + items.len(), tail, 0);
        lemma_items_read_back(self@, 0, tokens, pos + 2);
    }
}

impl<T: RoundTrip, const N: usize> RoundTrip for [T; N] {
    proof fn lemma_read_back(&self, tokens: Seq<TokenView>, pos: int) {
        array_len_matches_n(self);
        let items = expansion_from(self@, 0)->Ok_0;
        let head = seq![TokenView::ListStart(N), T::marker()];
        let tail = seq![TokenView::ListEnd];
        lemma_stands_split(tokens, pos, head, items + tail);
        lemma_stands_split(tokens, pos + 2, items, tail);
        lemma_stands_index(tokens, pos, head, 0);
        lemma_stands_index(tokens, pos, head, 1);
        lemma_stands_index(tokens, pos + 2 + items.len(), tail, 0);
        lemma_items_read_back(self@, 0, tokens, pos + 2);
    }
}

impl<K: RoundTrip, V: RoundTrip> RoundTrip for Vec<(K, V)> {
    proof fn lemma_read_back(&self, tokens: Seq<TokenView>, pos: int) {
        axiom_spec_len(self);
        assert(self@.len() == self.len());
        let n = self@.len() as usize;
        let pairs = pairs_from(self@, 0)->Ok_0;
        let head = seq![TokenView::PairListStart(n), K::marker(), V::marker()];
        let tail = seq![TokenView::PairListEnd];
        lemma_stands_split(tokens, pos, head, pairs + tail);
        lemma_stands_split(tokens, pos + 3, pairs, tail);
        lemma_stands_index(tokens, pos, head, 0);
        lemma_stands_index(tokens, pos, head, 1);
        lemma_stands_index(tokens, pos, head, 2);
        lemma_stands_index(tokens, pos + 3 + pairs.len(), tail, 0);
        lemma_pairs_read_back(self@, 0, tokens, pos + 3);
    }
}

impl RoundTrip for Localization {
    proof fn lemma_read_back(&self, tokens: Seq<TokenView>, pos: int) {
        let bytes = encode_utf8(self.0@);
        let n = be_u32(bytes[0], bytes[1], bytes[2], bytes[3]);
        lemma_stands_index(tokens, pos, self.expansion()->Ok_0, 0);
        lemma_casts(0, 0, n);
        lemma_be_bytes(n, bytes[0], bytes[1], bytes[2], bytes[3]);
        assert(seq![bytes[0], bytes[1], bytes[2], bytes[3]] =~= bytes);
        encode_utf8_valid_utf8(self.0@);
    }
}

/// A field is read back by its label.
pub proof fn lemma_field_read_back<T: RoundTrip>(
    value: &T,
    name: Seq<char>,
    tokens: Seq<TokenView>,
    pos: int,
)
    requires
        value.expansion() is Ok,
        stands(tokens, pos, field_canon(name, T::marker(), value.expansion()->Ok_0)),
    ensures
        named_field::<T>(tokens, pos, name) == Ok::<(Seq<TokenView>, int), TdfError>(
            (value.expansion()->Ok_0, pos + 2 + value.expansion()->Ok_0.len()),
        ),
{
    let head = seq![TokenView::Label(name), T::marker()];
    let own = value.expansion()->Ok_0;
    lemma_stands_split(tokens, pos, head, own);
    lemma_stands_index(tokens, pos, head, 0);
    lemma_stands_index(tokens, pos, head, 1);
    value.lemma_read_back(tokens, pos + 2);
}

impl RoundTrip for IpAddress {
    proof fn lemma_read_back(&self, tokens: Seq<TokenView>, pos: int) {
        let start = seq![TokenView::MapStart];
        let ip = int_field("IP  "@, self.ip as i64);
        let maci = int_field("MACI"@, self.maci as i64);
        let port = int_field("PORT"@, self.port as i64);
        let end = seq![TokenView::MapEnd];
        lemma_stands_split(tokens, pos, start + ip + maci + port, end);
        lemma_stands_split(tokens, pos, start + ip + maci, port);
        lemma_stands_split(tokens, pos, start + ip, maci);
        lemma_stands_split(tokens, pos, start, ip);
        lemma_stands_index(tokens, pos, start, 0);
        lemma_field_read_back(&self.ip, "IP  "@, tokens, pos + 1);
        lemma_field_read_back(&self.maci, "MACI"@, tokens, pos + 4);
        lemma_field_read_back(&self.port, "PORT"@, tokens, pos + 7);
        lemma_stands_index(tokens, pos + 10, end, 0);
    }
}

/// The opening of the payload of a union is read back.
pub proof fn lemma_payload_start(
    variant: UnionType,
    name: Seq<char>,
    tokens: Seq<TokenView>,
    pos: int,
)
    requires
        stands(tokens, pos, payload_head(variant, name)),
    ensures
        token_at(tokens, pos) == Ok::<TokenView, TdfError>(TokenView::UnionStart(variant)),
        payload_start(tokens, pos + 1, name) == Ok::<int, TdfError>(pos + 4),
{
    let head = payload_head(variant, name);
    lemma_stands_index(tokens, pos, head, 0);
    lemma_stands_index(tokens, pos, head, 1);
    lemma_stands_index(tokens, pos, head, 2);
    lemma_stands_index(tokens, pos, head, 3);
}

/// The end of the payload of a union is read back.
pub proof fn lemma_payload_end(tokens: Seq<TokenView>, pos: int)
    requires
        stands(tokens, pos, payload_tail()),
    ensures
        payload_end(tokens, pos) == Ok::<int, TdfError>(pos + 2),
{
    lemma_stands_index(tokens, pos, payload_tail(), 0);
    lemma_stands_index(tokens, pos, payload_tail(), 1);
}

/// The payload of an Xbox client address is read back.
pub proof fn lemma_xbox_client_back(dctx: i64, tokens: Seq<TokenView>, pos: int)
    requires
        stands(tokens, pos, union_tokens(Union::XboxClientAddr { dctx })->Ok_0),
    ensures
        token_at(tokens, pos) == Ok::<TokenView, TdfError>(
            TokenView::UnionStart(UnionType::XboxClientAddr),
        ),
        parsed_xbox_client(tokens, pos + 1) == Ok::<(Seq<TokenView>, int), TdfError>(
            (
                union_tokens(Union::XboxClientAddr { dctx })->Ok_0,
                pos + union_tokens(Union::XboxClientAddr { dctx })->Ok_0.len(),
            ),
        ),
{
    let head = payload_head(UnionType::XboxClientAddr, "DLSC"@);
    let field = int_field("DCTX"@, dctx);
    lemma_stands_split(tokens, pos, head + field, payload_tail());
    lemma_stands_split(tokens, pos, head, field);
    lemma_payload_start(UnionType::XboxClientAddr, "DLSC"@, tokens, pos);
    lemma_field_read_back(&dctx, "DCTX"@, tokens, pos + 4);
    lemma_payload_end(tokens, pos + 7);
}

/// The payload of a pair of addresses is read back.
#[verifier::rlimit(50)]
pub proof fn lemma_ip_pair_back(
    internal: IpAddress,
    external: IpAddress,
    mac_addr: i64,
    tokens: Seq<TokenView>,
    pos: int,
)
    requires
        stands(tokens, pos, union_tokens(Union::IpPairAddr { internal, external, mac_addr })->Ok_0),
    ensures
        token_at(tokens, pos) == Ok::<TokenView, TdfError>(
            TokenView::UnionStart(UnionType::IpPairAddr),
        ),
        parsed_ip_pair(tokens, pos + 1) == Ok::<(Seq<TokenView>, int), TdfError>(
            (
                union_tokens(Union::IpPairAddr { internal, external, mac_addr })->Ok_0,
                pos + union_tokens(Union::IpPairAddr { internal, external, mac_addr })->Ok_0.len(),
            ),
        ),
{
    let head = payload_head(UnionType::IpPairAddr, "VALU"@);
    let a = address_field("INIP"@, internal);
    let b = address_field("EXIP"@, external);
    let c = int_field("MACI"@, mac_addr);
    let at1 = pos + 4;
    let at2 = at1 + a.len();
    let at3 = at2 + b.len();
    let at4 = at3 + c.len();
    lemma_stands_split(tokens, pos, head + a + b + c, payload_tail());
    lemma_stands_split(tokens, pos, head + a + b, c);
    lemma_stands_split(tokens, pos, head + a, b);
    lemma_stands_split(tokens, pos, head, a);
    assert(stands(tokens, at1, a) && stands(tokens, at2, b) && stands(tokens, at3, c) && stands(
        tokens,
        at4,
        payload_tail(),
    ));
    lemma_payload_start(UnionType::IpPairAddr, "VALU"@, tokens, pos);
    lemma_field_read_back(&internal, "INIP"@, tokens, at1);
    lemma_field_read_back(&external, "EXIP"@, tokens, at2);
    lemma_field_read_back(&mac_addr, "MACI"@, tokens, at3);
    lemma_payload_end(tokens, at4);
    assert(named_field::<IpAddress>(tokens, at1, "INIP"@) == Ok::<(Seq<TokenView>, int), TdfError>(
        (address_tokens(internal), at2),
    ));
    assert(named_field::<IpAddress>(tokens, at2, "EXIP"@) == Ok::<(Seq<TokenView>, int), TdfError>(
        (address_tokens(external), at3),
    ));
    assert(named_field::<i64>(tokens, at3, "MACI"@) == Ok::<(Seq<TokenView>, int), TdfError>(
        (seq![TokenView::Int(mac_addr)], at4),
    ));
    assert(payload_end(tokens, at4) == Ok::<int, TdfError>(at4 + 2));
}

/// The payload of one address is read back.
pub proof fn lemma_ip_addr_back(addr: IpAddress, tokens: Seq<TokenView>, pos: int)
    requires
        stands(tokens, pos, union_tokens(Union::IpAddr { addr })->Ok_0),
    ensures
        token_at(tokens, pos) == Ok::<TokenView, TdfError>(
            TokenView::UnionStart(UnionType::IpAddr),
        ),
        parsed_ip_addr(tokens, pos + 1) == Ok::<(Seq<TokenView>, int), TdfError>(
            (
                union_tokens(Union::IpAddr { addr })->Ok_0,
                pos + union_tokens(Union::IpAddr { addr })->Ok_0.len(),
            ),
        ),
{
    let head = payload_head(UnionType::IpAddr, "VALU"@);
    let a = address_field("ADDR"@, addr);
    lemma_stands_split(tokens, pos, head + a, payload_tail());
    lemma_stands_split(tokens, pos, head, a);
    lemma_payload_start(UnionType::IpAddr, "VALU"@, tokens, pos);
    lemma_field_read_back(&addr, "ADDR"@, tokens, pos + 4);
    lemma_payload_end(tokens, pos + 4 + a.len());
}

impl RoundTrip for Union {
    proof fn lemma_read_back(&self, tokens: Seq<TokenView>, pos: int) {
        match *self {
            Union::XboxClientAddr { dctx } => {
                lemma_xbox_client_back(dctx, tokens, pos);
            },
            Union::IpPairAddr { internal, external, mac_addr } => {
                lemma_ip_pair_back(internal, external, mac_addr, tokens, pos);
            },
            Union::IpAddr { addr } => {
                lemma_ip_addr_back(addr, tokens, pos);
            },
            Union::Unset => {
                let own = self.expansion()->Ok_0;
                lemma_stands_index(tokens, pos, own, 0);
                lemma_stands_index(tokens, pos, own, 1);
            },
            _ => {},
        }
    }
}

impl RoundTrip for Generic {
    proof fn lemma_read_back(&self, tokens: Seq<TokenView>, pos: int) {
        let own = generic_tokens(*self);
        lemma_stands_index(tokens, pos, own, 0);
        lemma_stands_index(tokens, pos, own, 1);
        match *self {
            Generic::Invalid => {},
            Generic::Valid(id, GenericContent::Empty) => {
                lemma_stands_index(tokens, pos, own, 2);
            },
            Generic::Valid(id, GenericContent::Labeled(label, GenericType::Int(v))) => {
                lemma_stands_index(tokens, pos, own, 2);
                lemma_stands_index(tokens, pos, own, 3);
                lemma_stands_index(tokens, pos, own, 4);
                lemma_stands_index(tokens, pos, own, 5);
                let head = seq![
                    TokenView::GenericStart(true),
                    TokenView::Int(id),
                    TokenView::Label(label@),
                ];
                assert(head + seq![TokenView::IntType] + seq![TokenView::Int(v)] + seq![
                    TokenView::GenericEnd,
                ] =~= own);
            },
            Generic::Valid(id, GenericContent::Labeled(label, GenericType::String(text))) => {
                lemma_stands_index(tokens, pos, own, 2);
                lemma_stands_index(tokens, pos, own, 3);
                lemma_stands_index(tokens, pos, own, 4);
                lemma_stands_index(tokens, pos, own, 5);
                encode_utf8_valid_utf8(text@);
                let head = seq![
                    TokenView::GenericStart(true),
                    TokenView::Int(id),
                    TokenView::Label(label@),
                ];
                assert(head + seq![TokenView::StringType] + seq![
                    TokenView::String(encode_utf8(text@)),
                ] + seq![TokenView::GenericEnd] =~= own);
            },
        }
    }
}

/// A name that the wire keeps but for case, padding and length: the four
/// characters that are packed for it are characters of the alphabet of
/// labels.
pub open spec fn is_plain_name(name: Seq<char>) -> bool {
    forall|i: int| 0 <= i < 4 ==> is_label_char(#[trigger] label_char(encode_utf8(name), i))
}

/// The wire form of a plain name is the label that is packed for it, and is
/// packed as the name is.
pub proof fn lemma_plain_name(name: Seq<char>)
    requires
        is_plain_name(name),
    ensures
        code_of(wire_text(name)) == code_of(name),
        wire_text(wire_text(name)) == wire_text(name),
        wire_text(name).len() == 4,
{
    let bytes = encode_utf8(name);
    let folded = seq![
        label_char(bytes, 0),
        label_char(bytes, 1),
        label_char(bytes, 2),
        label_char(bytes, 3),
    ];
    assert(is_label_char(label_char(bytes, 0)) && is_label_char(label_char(bytes, 1))
        && is_label_char(label_char(bytes, 2)) && is_label_char(label_char(bytes, 3)));
    assert(is_label(folded));
    lemma_pack_folds(bytes);
    lemma_label_round_trip(folded);
    let p = pack_label(bytes);
    assert(unpack_label(p[0], p[1], p[2]) == folded);
    let text = wire_text(name);
    assert(text == unpack_text(p[0], p[1], p[2]));
    assert(is_ascii_chars(text)) by {
        assert forall|i: int| 0 <= i < text.len() implies '\0' <= #[trigger] text[i]
            <= '\u{7f}' by {
            assert(is_label_char(folded[i]));
        }
    }
    is_ascii_chars_encode_utf8(text);
    assert(encode_utf8(text) =~= folded) by {
        assert forall|i: int| 0 <= i < 4 implies encode_utf8(text)[i] == folded[i] by {
            assert(is_label_char(folded[i]));
            assert(text[i] == folded[i] as char);
        }
    }
}

/// A field that was written under a name is read back with the label that
/// the wire carries for the name.
pub proof fn lemma_written_field_read_back<T: RoundTrip>(
    value: &T,
    name: Seq<char>,
    tokens: Seq<TokenView>,
    pos: int,
)
    requires
        value.expansion() is Ok,
        stands(tokens, pos, field_tokens(name, T::marker(), value.expansion())->Ok_0),
    ensures
        parsed_field::<T>(tokens, pos) == Ok::<(Seq<char>, Seq<TokenView>, int), TdfError>(
            (wire_text(name), value.expansion()->Ok_0, pos + 2 + value.expansion()->Ok_0.len()),
        ),
{
    let head = seq![TokenView::Label(wire_text(name)), T::marker()];
    let own = value.expansion()->Ok_0;
    lemma_stands_split(tokens, pos, head, own);
    lemma_stands_index(tokens, pos, head, 0);
    lemma_stands_index(tokens, pos, head, 1);
    value.lemma_read_back(tokens, pos + 2);
}

/// Round trip of an optional field: a field that is present is read back
/// under its name, and where nothing was written for an absent field, the
/// token that stands there is no label of that name, so that nothing is
/// read.
pub proof fn lemma_optional_field_read_back<T: RoundTrip>(
    value: &Option<T>,
    name: Seq<char>,
    tokens: Seq<TokenView>,
    pos: int,
)
    requires
        is_plain_name(name),
        value matches Some(v) ==> v.expansion() is Ok && stands(
            tokens,
            pos,
            field_tokens(name, T::marker(), v.expansion())->Ok_0,
        ),
        value is None ==> !label_matches(tokens, pos, TokenView::Label(name)),
    ensures
        value matches Some(v) ==> label_matches(tokens, pos, TokenView::Label(name))
            && parsed_field::<T>(tokens, pos) == Ok::<(Seq<char>, Seq<TokenView>, int), TdfError>(
            (wire_text(name), v.expansion()->Ok_0, pos + 2 + v.expansion()->Ok_0.len()),
        ),
        value is None ==> !label_matches(tokens, pos, TokenView::Label(name)),
{
    lemma_plain_name(name);
    match value {
        Some(v) => {
            let head = seq![TokenView::Label(wire_text(name)), T::marker()];
            lemma_stands_split(tokens, pos, head, v.expansion()->Ok_0);
            lemma_stands_index(tokens, pos, head, 0);
            lemma_written_field_read_back(v, name, tokens, pos);
        },
        None => {},
    }
}

/// The labels of the fields of an address are wire labels, and none of
/// them is `GBRA`.
pub proof fn lemma_address_labels()
    ensures
        is_wire_label("IP  "@),
        is_wire_label("MACI"@),
        is_wire_label("PORT"@),
{
    reveal_strlit("IP  ");
    reveal_strlit("MACI");
    reveal_strlit("PORT");
    assert("IP  "@ =~= seq!['I', 'P', ' ', ' ']);
    assert("MACI"@ =~= seq!['M', 'A', 'C', 'I']);
    assert("PORT"@ =~= seq!['P', 'O', 'R', 'T']);
}

/// The encoder takes the tokens of an integer field.
pub proof fn lemma_int_field_encodable(
    name: Seq<char>,
    v: i64,
    tokens: Seq<TokenView>,
    pos: int,
    root: bool,
)
    requires
        stands(tokens, pos, int_field(name, v)),
        encode_entries(tokens, pos + 3, root) is Ok,
    ensures
        encode_entries(tokens, pos, root) is Ok,
        encode_entries(tokens, pos, root)->Ok_0.1 == encode_entries(tokens, pos + 3, root)->Ok_0.1,
{
    let field = int_field(name, v);
    lemma_stands_index(tokens, pos, field, 0);
    lemma_stands_index(tokens, pos, field, 1);
    lemma_stands_index(tokens, pos, field, 2);
    lemma_entries_consume(tokens, pos + 3, root);
    let value = encode_value(tokens, pos + 2, TokenView::IntType, false);
    assert(value is Ok && value->Ok_0.1 == pos + 3);
    let whole = encode_field(tokens, pos);
    assert(whole is Ok && whole->Ok_0.1 == pos + 3);
}

/// Round trip of an address through the binary form: every address, as
/// the record of a document, is read back from its bytes as an address
/// that is written as the same tokens.
pub proof fn lemma_address_round_trip(address: &IpAddress)
    ensures
        binary_of_record(address) is Ok,
        record_of_binary::<IpAddress>(binary_of_record(address)->Ok_0, 0) == Ok::<
            Seq<TokenView>,
            TdfError,
        >(address.expansion()->Ok_0),
{
    let own = address_tokens(*address);
    let tokens = seq![TokenView::MapType] + own;
    let ip = int_field("IP  "@, address.ip as i64);
    let maci = int_field("MACI"@, address.maci as i64);
    let port = int_field("PORT"@, address.port as i64);
    let start = seq![TokenView::MapStart];
    let end = seq![TokenView::MapEnd];
    assert(tokens.len() == 12);
    assert(tokens.subrange(1, 12) =~= own);
    assert(stands(tokens, 1, own));
    lemma_stands_split(tokens, 1, start + ip + maci + port, end);
    lemma_stands_split(tokens, 1, start + ip + maci, port);
    lemma_stands_split(tokens, 1, start + ip, maci);
    lemma_stands_split(tokens, 1, start, ip);
    lemma_stands_index(tokens, 1, start, 0);
    lemma_stands_index(tokens, 11, end, 0);
    assert(encode_entries(tokens, 11, true) == Ok::<(Seq<u8>, int), TdfError>(
        (Seq::empty(), 12),
    ));
    lemma_int_field_encodable("PORT"@, address.port as i64, tokens, 8, true);
    lemma_int_field_encodable("MACI"@, address.maci as i64, tokens, 5, true);
    lemma_int_field_encodable("IP  "@, address.ip as i64, tokens, 2, true);
    assert(encode_value(tokens, 1, TokenView::MapType, true)->Ok_0.1 == 12);
    assert(canonical(tokens)) by {
        reveal(canonical);
        lemma_address_labels();
        lemma_stands_index(tokens, 2, ip, 0);
        lemma_stands_index(tokens, 2, ip, 1);
        lemma_stands_index(tokens, 2, ip, 2);
        lemma_stands_index(tokens, 5, maci, 0);
        lemma_stands_index(tokens, 5, maci, 1);
        lemma_stands_index(tokens, 5, maci, 2);
        lemma_stands_index(tokens, 8, port, 0);
        lemma_stands_index(tokens, 8, port, 1);
        lemma_stands_index(tokens, 8, port, 2);
        assert forall|i: int| 0 <= i < tokens.len() && (#[trigger] tokens[i]) is Label implies {
            &&& is_wire_label(tokens[i]->Label_0)
            &&& (i + 4 < tokens.len() && tokens[i + 1] == TokenView::PairListType && is_gbra(
                pack_label(encode_utf8(tokens[i]->Label_0)),
            )) ==> tokens[i + 4] == TokenView::PairListType
        } by {
            assert(i == 2 || i == 5 || i == 8);
        }
    }
    lemma_record_round_trip(address);
}

} // verus!
