//! Records to tokens.
//!
//! What a value is written as is defined by [`Deserialize::expansion`];
//! [`Deserialize::deserialize`] appends it to a token stream.

use vstd::prelude::*;
use vstd::string::*;
use vstd::utf8::encode_utf8;
use crate::btdf::label::{pack, pack_label, unpack, unpack_text};
use crate::error::{Feature, TdfError};
use crate::outside::be_u32;
use crate::rtdf::{
    FloatBits, Generic, GenericContent, GenericType, IntList, IpAddress, Localization, ObjectId,
    ObjectType, Union,
};
use crate::token::{TDFDeserializer, TDFToken, TDFTokenStream, TokenView, UnionType};

verus! {

/// The tokens of a value, or the error for a value that has none.
pub type Expansion = Result<Seq<TokenView>, TdfError>;

/// `expansion` with `tokens` in front.
pub open spec fn prefixed(tokens: Seq<TokenView>, expansion: Expansion) -> Expansion {
    match expansion {
        Ok(more) => Ok(tokens + more),
        Err(e) => Err(e),
    }
}

/// `expansion` with `tokens` behind.
pub open spec fn suffixed(expansion: Expansion, tokens: Seq<TokenView>) -> Expansion {
    match expansion {
        Ok(first) => Ok(first + tokens),
        Err(e) => Err(e),
    }
}

/// The label that the wire carries for a name: the name packed and
/// unpacked again, which folds case, pads with spaces and cuts at four
/// characters.
pub open spec fn wire_text(name: Seq<char>) -> Seq<char> {
    let p = pack_label(encode_utf8(name));
    unpack_text(p[0], p[1], p[2])
}

/// The tokens of a field: its label in wire form, the type marker of its
/// value, the tokens of its value.
pub open spec fn field_tokens(name: Seq<char>, marker: TokenView, value: Expansion) -> Expansion {
    prefixed(seq![TokenView::Label(wire_text(name)), marker], value)
}

/// The tokens of the items of `items` from index `from` on, in order.
pub open spec fn expansion_from<D: Deserialize>(items: Seq<D>, from: int) -> Expansion
    decreases items.len() - from,
{
    if from < 0 || from >= items.len() {
        Ok(Seq::empty())
    } else {
        match items[from].expansion() {
            Err(e) => Err(e),
            Ok(first) => prefixed(first, expansion_from(items, from + 1)),
        }
    }
}

/// The tokens of the pairs of `pairs` from index `from` on: of each its
/// key, then its value.
pub open spec fn pairs_from<K: Deserialize, V: Deserialize>(
    pairs: Seq<(K, V)>,
    from: int,
) -> Expansion
    decreases pairs.len() - from,
{
    if from < 0 || from >= pairs.len() {
        Ok(Seq::empty())
    } else {
        match pairs[from].0.expansion() {
            Err(e) => Err(e),
            Ok(key) => match pairs[from].1.expansion() {
                Err(e) => Err(e),
                Ok(value) => prefixed(key + value, pairs_from(pairs, from + 1)),
            },
        }
    }
}

/// The `Int` tokens of the integers of `items` from index `from` on.
pub open spec fn ints_from(items: Seq<i64>, from: int) -> Seq<TokenView>
    decreases items.len() - from,
{
    if from < 0 || from >= items.len() {
        Seq::empty()
    } else {
        seq![TokenView::Int(items[from])] + ints_from(items, from + 1)
    }
}

/// The tokens of a whole record: its type marker and its tokens.
pub open spec fn record_tokens<D: Deserialize>(record: &D) -> Expansion {
    prefixed(seq![D::marker()], record.expansion())
}

/// Collects the tokens of records.
pub struct RTDFDeserializer {
    /// The tokens written so far.
    pub stream: TDFTokenStream,
}

/// How writing a value leaves the collector: with `expansion` being the
/// tokens the value stands for, they are appended to the stream; where
/// the value has none, the error is returned, and the stream may hold a
/// part of the tokens behind what it held before.
pub open spec fn expands(
    before: RTDFDeserializer,
    after: RTDFDeserializer,
    result: Result<(), TdfError>,
    expansion: Expansion,
) -> bool {
    &&& after.stream.1 == before.stream.1
    &&& before.stream@.is_prefix_of(after.stream@)
    &&& match expansion {
        Ok(tokens) => result is Ok && after.stream@ == before.stream@ + tokens,
        Err(e) => result == Err::<(), TdfError>(e),
    }
}

/// A type whose values can be written as tokens.
pub trait Deserialize {
    /// The type marker that announces a value of this type. A record is a
    /// map unless its type says otherwise.
    open spec fn marker() -> TokenView {
        TokenView::MapType
    }

    /// The tokens that stand for the value, or the error for a value that
    /// has none.
    open spec fn expansion(&self) -> Expansion {
        arbitrary()
    }

    /// The type marker that announces a value of this type.
    fn tdf_type() -> (ty: TDFToken)
        ensures
            ty@ == Self::marker(),
    ;

    /// Appends the tokens of the value to the stream of `des`.
    fn deserialize(&self, des: &mut RTDFDeserializer) -> (result: Result<(), TdfError>)
        ensures
            expands(*old(des), *final(des), result, self.expansion()),
    ;
}

/// The bytes of a slice as a vector.
fn to_vec(bytes: &[u8]) -> (copy: Vec<u8>)
    ensures
        copy@ == bytes@,
{
    let mut copy: Vec<u8> = Vec::new();
    copy.extend_from_slice(bytes);
    assert(copy@ =~= bytes@);
    copy
}

/// The label that the wire carries for `name`.
pub fn wire_label(name: &str) -> (label: String)
    ensures
        label@ == wire_text(name@),
{
    let packed = pack(name.as_bytes());
    unpack(packed[0], packed[1], packed[2])
}

impl RTDFDeserializer {
    /// A collector without tokens.
    pub fn new() -> (des: Self)
        ensures
            des.stream@ == Seq::<TokenView>::empty(),
            des.stream.1 == 0,
    {
        Self { stream: TDFTokenStream::new() }
    }

    /// Appends one token to the stream.
    pub fn emit(&mut self, token: TDFToken)
        ensures
            final(self).stream@ == old(self).stream@ + seq![token@],
            final(self).stream.1 == old(self).stream.1,
    {
        self.stream.push(token);
        assert(self.stream@ =~= old(self).stream@ + seq![token@]);
    }

    /// Writes a field: its label, the type marker of its value, its value.
    pub fn des_field<D: Deserialize>(&mut self, label: &str, value: &D) -> (result: Result<
        (),
        TdfError,
    >)
        ensures
            expands(
                *old(self),
                *final(self),
                result,
                field_tokens(label@, D::marker(), value.expansion()),
            ),
    {
        self.emit(TDFToken::Label(wire_label(label)));
        self.des_type::<D>();
        let ghost head = seq![TokenView::Label(wire_text(label@)), D::marker()];
        assert(self.stream@ =~= old(self).stream@ + head);
        value.deserialize(self)?;
        assert(self.stream@ =~= old(self).stream@ + (head + value.expansion()->Ok_0));
        Ok(())
    }

    /// Writes a field that may be absent: nothing for `None`, the field as
    /// [`RTDFDeserializer::des_field`] has it for `Some`.
    pub fn des_field_optional<D: Deserialize>(&mut self, label: &str, value: &Option<D>) -> (result:
        Result<(), TdfError>)
        ensures
            expands(
                *old(self),
                *final(self),
                result,
                match value {
                    Some(v) => field_tokens(label@, D::marker(), v.expansion()),
                    None => Ok(Seq::empty()),
                },
            ),
    {
        match value {
            Some(v) => self.des_field(label, v),
            None => {
                assert(self.stream@ =~= old(self).stream@ + Seq::<TokenView>::empty());
                Ok(())
            },
        }
    }

    /// Writes the type marker of `D`.
    pub fn des_type<D: Deserialize>(&mut self)
        ensures
            final(self).stream@ == old(self).stream@ + seq![D::marker()],
            final(self).stream.1 == old(self).stream.1,
    {
        self.emit(D::tdf_type());
    }
}

impl<D: Deserialize> TDFDeserializer<D> for RTDFDeserializer {
    /// The tokens of a whole record: its type marker and its tokens.
    fn deserialize(to_des: &mut D) -> (result: Result<TDFTokenStream, TdfError>)
        ensures
            *final(to_des) == *old(to_des),
            match record_tokens(old(to_des)) {
                Ok(tokens) => result is Ok && result->Ok_0@ == tokens && result->Ok_0.1 == 0,
                Err(e) => result == Err::<TDFTokenStream, TdfError>(e),
            },
    {
        let mut des = Self::new();
        des.des_type::<D>();
        to_des.deserialize(&mut des)?;
        assert(des.stream@ =~= seq![D::marker()] + to_des.expansion()->Ok_0);
        Ok(des.stream)
    }
}

impl Deserialize for i64 {
    open spec fn marker() -> TokenView {
        TokenView::IntType
    }

    open spec fn expansion(&self) -> Expansion {
        Ok(seq![TokenView::Int(*self)])
    }

    fn tdf_type() -> (ty: TDFToken) {
        TDFToken::IntType
    }

    fn deserialize(&self, des: &mut RTDFDeserializer) -> (result: Result<(), TdfError>) {
        des.emit(TDFToken::Int(*self));
        Ok(())
    }
}

impl Deserialize for u64 {
    open spec fn marker() -> TokenView {
        TokenView::IntType
    }

    open spec fn expansion(&self) -> Expansion {
        Ok(seq![TokenView::Int(*self as i64)])
    }

    fn tdf_type() -> (ty: TDFToken) {
        TDFToken::IntType
    }

    fn deserialize(&self, des: &mut RTDFDeserializer) -> (result: Result<(), TdfError>) {
        des.emit(TDFToken::Int(*self as i64));
        Ok(())
    }
}

impl Deserialize for i32 {
    open spec fn marker() -> TokenView {
        TokenView::IntType
    }

    open spec fn expansion(&self) -> Expansion {
        Ok(seq![TokenView::Int(*self as i64)])
    }

    fn tdf_type() -> (ty: TDFToken) {
        TDFToken::IntType
    }

    fn deserialize(&self, des: &mut RTDFDeserializer) -> (result: Result<(), TdfError>) {
        des.emit(TDFToken::Int(*self as i64));
        Ok(())
    }
}

impl Deserialize for u32 {
    open spec fn marker() -> TokenView {
        TokenView::IntType
    }

    open spec fn expansion(&self) -> Expansion {
        Ok(seq![TokenView::Int(*self as i64)])
    }

    fn tdf_type() -> (ty: TDFToken) {
        TDFToken::IntType
    }

    fn deserialize(&self, des: &mut RTDFDeserializer) -> (result: Result<(), TdfError>) {
        des.emit(TDFToken::Int(*self as i64));
        Ok(())
    }
}

impl Deserialize for bool {
    open spec fn marker() -> TokenView {
        TokenView::IntType
    }

    open spec fn expansion(&self) -> Expansion {
        Ok(seq![TokenView::Int(if *self { 1 } else { 0 })])
    }

    fn tdf_type() -> (ty: TDFToken) {
        TDFToken::IntType
    }

    fn deserialize(&self, des: &mut RTDFDeserializer) -> (result: Result<(), TdfError>) {
        des.emit(TDFToken::Int(if *self { 1 } else { 0 }));
        Ok(())
    }
}

impl Deserialize for String {
    open spec fn marker() -> TokenView {
        TokenView::StringType
    }

    open spec fn expansion(&self) -> Expansion {
        Ok(seq![TokenView::String(encode_utf8(self@))])
    }

    fn tdf_type() -> (ty: TDFToken) {
        TDFToken::StringType
    }

    fn deserialize(&self, des: &mut RTDFDeserializer) -> (result: Result<(), TdfError>) {
        des.emit(TDFToken::String(to_vec(self.as_str().as_bytes())));
        Ok(())
    }
}

impl Deserialize for Vec<u8> {
    open spec fn marker() -> TokenView {
        TokenView::BlobType
    }

    open spec fn expansion(&self) -> Expansion {
        Ok(seq![TokenView::Blob(self@)])
    }

    fn tdf_type() -> (ty: TDFToken) {
        TDFToken::BlobType
    }

    fn deserialize(&self, des: &mut RTDFDeserializer) -> (result: Result<(), TdfError>) {
        des.emit(TDFToken::Blob(to_vec(self.as_slice())));
        Ok(())
    }
}

impl Deserialize for FloatBits {
    open spec fn marker() -> TokenView {
        TokenView::FloatType
    }

    open spec fn expansion(&self) -> Expansion {
        Ok(seq![TokenView::Float(self.0)])
    }

    fn tdf_type() -> (ty: TDFToken) {
        TDFToken::FloatType
    }

    fn deserialize(&self, des: &mut RTDFDeserializer) -> (result: Result<(), TdfError>) {
        des.emit(TDFToken::Float(self.0));
        Ok(())
    }
}

impl<D: Deserialize> Deserialize for Vec<D> {
    open spec fn marker() -> TokenView {
        TokenView::ListType
    }

    open spec fn expansion(&self) -> Expansion {
        prefixed(
            seq![TokenView::ListStart(self@.len() as usize), D::marker()],
            suffixed(expansion_from(self@, 0), seq![TokenView::ListEnd]),
        )
    }

    fn tdf_type() -> (ty: TDFToken) {
        TDFToken::ListType
    }

    fn deserialize(&self, des: &mut RTDFDeserializer) -> (result: Result<(), TdfError>) {
        des.emit(TDFToken::ListStart(self.len()));
        des.des_type::<D>();
        let ghost head = seq![TokenView::ListStart(self@.len() as usize), D::marker()];
        let ghost mut done: Seq<TokenView> = Seq::empty();
        assert(des.stream@ =~= old(des).stream@ + head + done);
        let mut i: usize = 0;
        while i < self.len()
            invariant
                i <= self.len(),
                des.stream.1 == old(des).stream.1,
                des.stream@ == old(des).stream@ + head + done,
                expansion_from(self@, 0) == prefixed(done, expansion_from(self@, i as int)),
            decreases self.len() - i,
        {
            let ghost item = self@[i as int].expansion();
            self[i].deserialize(des)?;
            proof {
                let next = expansion_from(self@, i + 1);
                if next is Ok {
                    assert(done + (item->Ok_0 + next->Ok_0) =~= (done + item->Ok_0) + next->Ok_0);
                }
                assert(des.stream@ =~= old(des).stream@ + head + (done + item->Ok_0));
                done = done + item->Ok_0;
            }
            i += 1;
        }
        des.emit(TDFToken::ListEnd);
        assert(done + Seq::<TokenView>::empty() =~= done);
        assert(des.stream@ =~= old(des).stream@ + (head + (done + seq![TokenView::ListEnd])));
        Ok(())
    }
}

impl<D: Deserialize, const N: usize> Deserialize for [D; N] {
    open spec fn marker() -> TokenView {
        TokenView::ListType
    }

    /// An array is written as the list of its items.
    open spec fn expansion(&self) -> Expansion {
        prefixed(
            seq![TokenView::ListStart(N), D::marker()],
            suffixed(expansion_from(self@, 0), seq![TokenView::ListEnd]),
        )
    }

    fn tdf_type() -> (ty: TDFToken) {
        TDFToken::ListType
    }

    fn deserialize(&self, des: &mut RTDFDeserializer) -> (result: Result<(), TdfError>) {
        des.emit(TDFToken::ListStart(N));
        des.des_type::<D>();
        let ghost head = seq![TokenView::ListStart(N), D::marker()];
        let ghost mut done: Seq<TokenView> = Seq::empty();
        assert(des.stream@ =~= old(des).stream@ + head + done);
        let mut i: usize = 0;
        while i < N
            invariant
                i <= N,
                self@.len() == N,
                des.stream.1 == old(des).stream.1,
                des.stream@ == old(des).stream@ + head + done,
                expansion_from(self@, 0) == prefixed(done, expansion_from(self@, i as int)),
            decreases N - i,
        {
            let ghost item = self@[i as int].expansion();
            self[i].deserialize(des)?;
            proof {
                let next = expansion_from(self@, i + 1);
                if next is Ok {
                    assert(done + (item->Ok_0 + next->Ok_0) =~= (done + item->Ok_0) + next->Ok_0);
                }
                assert(des.stream@ =~= old(des).stream@ + head + (done + item->Ok_0));
                done = done + item->Ok_0;
            }
            i += 1;
        }
        des.emit(TDFToken::ListEnd);
        assert(done + Seq::<TokenView>::empty() =~= done);
        assert(des.stream@ =~= old(des).stream@ + (head + (done + seq![TokenView::ListEnd])));
        Ok(())
    }
}

impl<K: Deserialize, V: Deserialize> Deserialize for Vec<(K, V)> {
    open spec fn marker() -> TokenView {
        TokenView::PairListType
    }

    open spec fn expansion(&self) -> Expansion {
        prefixed(
            seq![TokenView::PairListStart(self@.len() as usize), K::marker(), V::marker()],
            suffixed(pairs_from(self@, 0), seq![TokenView::PairListEnd]),
        )
    }

    fn tdf_type() -> (ty: TDFToken) {
        TDFToken::PairListType
    }

    fn deserialize(&self, des: &mut RTDFDeserializer) -> (result: Result<(), TdfError>) {
        des.emit(TDFToken::PairListStart(self.len()));
        des.des_type::<K>();
        des.des_type::<V>();
        let ghost head = seq![
            TokenView::PairListStart(self@.len() as usize),
            K::marker(),
            V::marker(),
        ];
        let ghost mut done: Seq<TokenView> = Seq::empty();
        assert(des.stream@ =~= old(des).stream@ + head + done);
        let mut i: usize = 0;
        while i < self.len()
            invariant
                i <= self.len(),
                des.stream.1 == old(des).stream.1,
                des.stream@ == old(des).stream@ + head + done,
                pairs_from(self@, 0) == prefixed(done, pairs_from(self@, i as int)),
            decreases self.len() - i,
        {
            let ghost k = self@[i as int].0.expansion();
            let ghost v = self@[i as int].1.expansion();
            self[i].0.deserialize(des)?;
            self[i].1.deserialize(des)?;
            proof {
                let pair = k->Ok_0 + v->Ok_0;
                let next = pairs_from(self@, i + 1);
                if next is Ok {
                    assert(done + (pair + next->Ok_0) =~= (done + pair) + next->Ok_0);
                }
                assert(des.stream@ =~= old(des).stream@ + head + (done + pair));
                done = done + pair;
            }
            i += 1;
        }
        des.emit(TDFToken::PairListEnd);
        assert(done + Seq::<TokenView>::empty() =~= done);
        assert(des.stream@ =~= old(des).stream@ + (head + (done + seq![
            TokenView::PairListEnd,
        ])));
        Ok(())
    }
}

impl Deserialize for IntList {
    open spec fn marker() -> TokenView {
        TokenView::IntListType
    }

    open spec fn expansion(&self) -> Expansion {
        Ok(
            seq![TokenView::IntListStart(self.0@.len() as usize)] + ints_from(self.0@, 0) + seq![
                TokenView::IntListEnd,
            ],
        )
    }

    fn tdf_type() -> (ty: TDFToken) {
        TDFToken::IntListType
    }

    fn deserialize(&self, des: &mut RTDFDeserializer) -> (result: Result<(), TdfError>) {
        let list = &self.0;
        des.emit(TDFToken::IntListStart(list.len()));
        let ghost head = seq![TokenView::IntListStart(list@.len() as usize)];
        let ghost mut done: Seq<TokenView> = Seq::empty();
        assert(des.stream@ =~= old(des).stream@ + head + done);
        let mut i: usize = 0;
        while i < list.len()
            invariant
                i <= list.len(),
                des.stream.1 == old(des).stream.1,
                des.stream@ == old(des).stream@ + head + done,
                ints_from(list@, 0) == done + ints_from(list@, i as int),
            decreases list.len() - i,
        {
            des.emit(TDFToken::Int(list[i]));
            proof {
                let item = seq![TokenView::Int(list@[i as int])];
                assert(done + (item + ints_from(list@, i + 1)) =~= (done + item) + ints_from(
                    list@,
                    i + 1,
                ));
                assert(des.stream@ =~= old(des).stream@ + head + (done + item));
                done = done + item;
            }
            i += 1;
        }
        des.emit(TDFToken::IntListEnd);
        assert(done + Seq::<TokenView>::empty() =~= done);
        assert(des.stream@ =~= old(des).stream@ + (head + done + seq![TokenView::IntListEnd]));
        Ok(())
    }
}

impl Deserialize for ObjectId {
    open spec fn marker() -> TokenView {
        TokenView::ObjectIdType
    }

    open spec fn expansion(&self) -> Expansion {
        Ok(seq![TokenView::Int(self.0), TokenView::Int(self.1), TokenView::Int(self.2)])
    }

    fn tdf_type() -> (ty: TDFToken) {
        TDFToken::ObjectIdType
    }

    fn deserialize(&self, des: &mut RTDFDeserializer) -> (result: Result<(), TdfError>) {
        des.emit(TDFToken::Int(self.0));
        des.emit(TDFToken::Int(self.1));
        des.emit(TDFToken::Int(self.2));
        assert(des.stream@ =~= old(des).stream@ + self.expansion()->Ok_0);
        Ok(())
    }
}

impl Deserialize for ObjectType {
    open spec fn marker() -> TokenView {
        TokenView::ObjectTypeType
    }

    open spec fn expansion(&self) -> Expansion {
        Ok(seq![TokenView::Int(self.0), TokenView::Int(self.1)])
    }

    fn tdf_type() -> (ty: TDFToken) {
        TDFToken::ObjectTypeType
    }

    fn deserialize(&self, des: &mut RTDFDeserializer) -> (result: Result<(), TdfError>) {
        des.emit(TDFToken::Int(self.0));
        des.emit(TDFToken::Int(self.1));
        assert(des.stream@ =~= old(des).stream@ + self.expansion()->Ok_0);
        Ok(())
    }
}

/// The tokens of a field with the label `label`: the label, the marker,
/// the tokens of the value.
pub open spec fn field_canon(label: Seq<char>, marker: TokenView, value: Seq<TokenView>) -> Seq<
    TokenView,
> {
    seq![TokenView::Label(label), marker] + value
}

/// The tokens of an integer field with the label `name`.
pub open spec fn int_field(name: Seq<char>, v: i64) -> Seq<TokenView> {
    field_canon(name, TokenView::IntType, seq![TokenView::Int(v)])
}

/// The tokens of an address: a map of the fields `IP`, `MACI`, `PORT`.
pub open spec fn address_tokens(a: IpAddress) -> Seq<TokenView> {
    seq![TokenView::MapStart] + int_field("IP  "@, a.ip as i64) + int_field("MACI"@, a.maci as i64)
        + int_field("PORT"@, a.port as i64) + seq![TokenView::MapEnd]
}

/// The tokens of an address field.
pub open spec fn address_field(name: Seq<char>, a: IpAddress) -> Seq<TokenView> {
    field_canon(name, TokenView::MapType, address_tokens(a))
}

/// The tokens that open the payload of the union variant `variant` with
/// the label `name`.
pub open spec fn payload_head(variant: UnionType, name: Seq<char>) -> Seq<TokenView> {
    seq![
        TokenView::UnionStart(variant),
        TokenView::Label(name),
        TokenView::MapType,
        TokenView::MapStart,
    ]
}

/// The tokens that close the payload of a union.
pub open spec fn payload_tail() -> Seq<TokenView> {
    seq![TokenView::MapEnd, TokenView::UnionEnd]
}

impl Deserialize for IpAddress {
    open spec fn marker() -> TokenView {
        TokenView::MapType
    }

    open spec fn expansion(&self) -> Expansion {
        Ok(address_tokens(*self))
    }

    fn tdf_type() -> (ty: TDFToken) {
        TDFToken::MapType
    }

    fn deserialize(&self, des: &mut RTDFDeserializer) -> (result: Result<(), TdfError>) {
        des.address(self);
        Ok(())
    }
}

/// The tokens of a union: its variant and, unless it is `Unset`, a label
/// and a map of the fields of the variant.
pub open spec fn union_tokens(u: Union) -> Expansion {
    match u {
        Union::XboxClientAddr { dctx } => Ok(
            payload_head(UnionType::XboxClientAddr, "DLSC"@) + int_field("DCTX"@, dctx)
                + payload_tail(),
        ),
        Union::IpPairAddr { internal, external, mac_addr } => Ok(
            payload_head(UnionType::IpPairAddr, "VALU"@) + address_field("INIP"@, internal)
                + address_field("EXIP"@, external) + int_field("MACI"@, mac_addr) + payload_tail(),
        ),
        Union::IpAddr { addr } => Ok(
            payload_head(UnionType::IpAddr, "VALU"@) + address_field("ADDR"@, addr)
                + payload_tail(),
        ),
        Union::Unset => Ok(
            seq![TokenView::UnionStart(UnionType::Unset), TokenView::UnionEnd],
        ),
        _ => Err(TdfError::Unsupported { feature: Feature::UnionVariant, offset: 0 }),
    }
}

impl Deserialize for Union {
    open spec fn marker() -> TokenView {
        TokenView::UnionType
    }

    open spec fn expansion(&self) -> Expansion {
        union_tokens(*self)
    }

    fn tdf_type() -> (ty: TDFToken) {
        TDFToken::UnionType
    }

    fn deserialize(&self, des: &mut RTDFDeserializer) -> (result: Result<(), TdfError>) {
        match self {
            Union::XboxClientAddr { dctx } => {
                des.xbox_client(*dctx);
            },
            Union::IpPairAddr { internal, external, mac_addr } => {
                des.ip_pair(internal, external, *mac_addr);
            },
            Union::IpAddr { addr } => {
                des.ip_addr(addr);
            },
            Union::Unset => {
                des.emit(TDFToken::UnionStart(UnionType::Unset));
                des.emit(TDFToken::UnionEnd);
                assert(des.stream@ =~= old(des).stream@ + union_tokens(*self)->Ok_0);
            },
            _ => {
                return Err(TdfError::Unsupported { feature: Feature::UnionVariant, offset: 0 });
            },
        }
        Ok(())
    }
}

impl RTDFDeserializer {
    /// Writes the opening of a union with a payload: the variant, the
    /// label of the payload and the opening of its map.
    fn open_union(&mut self, variant: UnionType, label: &str)
        ensures
            final(self).stream.1 == old(self).stream.1,
            final(self).stream@ == old(self).stream@ + payload_head(variant, label@),
    {
        self.emit(TDFToken::UnionStart(variant));
        self.emit(TDFToken::Label(String::from_str(label)));
        self.emit(TDFToken::MapType);
        self.emit(TDFToken::MapStart);
        assert(self.stream@ =~= old(self).stream@ + payload_head(variant, label@));
    }

    /// Writes the end of the map of a payload and the end of its union.
    fn close_union(&mut self)
        ensures
            final(self).stream.1 == old(self).stream.1,
            final(self).stream@ == old(self).stream@ + payload_tail(),
    {
        self.emit(TDFToken::MapEnd);
        self.emit(TDFToken::UnionEnd);
        assert(self.stream@ =~= old(self).stream@ + payload_tail());
    }

    /// Writes the union of an Xbox client address.
    fn xbox_client(&mut self, dctx: i64)
        ensures
            final(self).stream.1 == old(self).stream.1,
            final(self).stream@ == old(self).stream@ + union_tokens(
                Union::XboxClientAddr { dctx },
            )->Ok_0,
    {
        let ghost a = payload_head(UnionType::XboxClientAddr, "DLSC"@);
        let ghost b = int_field("DCTX"@, dctx);
        self.open_union(UnionType::XboxClientAddr, "DLSC");
        self.int_field("DCTX", dctx);
        self.close_union();
        assert(self.stream@ =~= old(self).stream@ + (a + b + payload_tail()));
    }

    /// Writes the union of a pair of addresses.
    fn ip_pair(&mut self, internal: &IpAddress, external: &IpAddress, mac_addr: i64)
        ensures
            final(self).stream.1 == old(self).stream.1,
            final(self).stream@ == old(self).stream@ + union_tokens(
                Union::IpPairAddr { internal: *internal, external: *external, mac_addr },
            )->Ok_0,
    {
        let ghost a = payload_head(UnionType::IpPairAddr, "VALU"@);
        let ghost b = address_field("INIP"@, *internal);
        let ghost c = address_field("EXIP"@, *external);
        let ghost d = int_field("MACI"@, mac_addr);
        self.open_union(UnionType::IpPairAddr, "VALU");
        self.address_field("INIP", internal);
        self.address_field("EXIP", external);
        assert(self.stream@ =~= old(self).stream@ + (a + b + c));
        self.int_field("MACI", mac_addr);
        self.close_union();
        assert(self.stream@ =~= old(self).stream@ + ((a + b + c) + d + payload_tail()));
    }

    /// Writes the union of one address.
    fn ip_addr(&mut self, addr: &IpAddress)
        ensures
            final(self).stream.1 == old(self).stream.1,
            final(self).stream@ == old(self).stream@ + union_tokens(
                Union::IpAddr { addr: *addr },
            )->Ok_0,
    {
        let ghost a = payload_head(UnionType::IpAddr, "VALU"@);
        let ghost b = address_field("ADDR"@, *addr);
        self.open_union(UnionType::IpAddr, "VALU");
        self.address_field("ADDR", addr);
        self.close_union();
        assert(self.stream@ =~= old(self).stream@ + (a + b + payload_tail()));
    }

    /// Writes an integer field.
    fn int_field(&mut self, name: &str, v: i64)
        ensures
            final(self).stream.1 == old(self).stream.1,
            final(self).stream@ == old(self).stream@ + int_field(name@, v),
    {
        self.emit(TDFToken::Label(String::from_str(name)));
        self.emit(TDFToken::IntType);
        self.emit(TDFToken::Int(v));
        assert(self.stream@ =~= old(self).stream@ + int_field(name@, v));
    }

    /// Writes an address field.
    fn address_field(&mut self, name: &str, a: &IpAddress)
        ensures
            final(self).stream.1 == old(self).stream.1,
            final(self).stream@ == old(self).stream@ + address_field(name@, *a),
    {
        self.emit(TDFToken::Label(String::from_str(name)));
        self.emit(TDFToken::MapType);
        let ghost head = seq![TokenView::Label(name@), TokenView::MapType];
        assert(self.stream@ =~= old(self).stream@ + head);
        self.address(a);
        assert(self.stream@ =~= old(self).stream@ + (head + address_tokens(*a)));
    }

    /// Writes the map of an address.
    fn address(&mut self, a: &IpAddress)
        ensures
            final(self).stream.1 == old(self).stream.1,
            final(self).stream@ == old(self).stream@ + address_tokens(*a),
    {
        let ghost i = int_field("IP  "@, a.ip as i64);
        let ghost m = int_field("MACI"@, a.maci as i64);
        let ghost p = int_field("PORT"@, a.port as i64);
        self.emit(TDFToken::MapStart);
        self.int_field("IP  ", a.ip as i64);
        self.int_field("MACI", a.maci as i64);
        assert(self.stream@ =~= old(self).stream@ + (seq![TokenView::MapStart] + i + m));
        self.int_field("PORT", a.port as i64);
        self.emit(TDFToken::MapEnd);
        assert(self.stream@ =~= old(self).stream@ + ((seq![TokenView::MapStart] + i + m) + p
            + seq![TokenView::MapEnd]));
    }
}

/// The number that a locale tag is carried as: its four bytes, highest
/// first.
pub open spec fn locale_number(bytes: Seq<u8>) -> i64 {
    be_u32(bytes[0], bytes[1], bytes[2], bytes[3]) as i64
}

impl Deserialize for Localization {
    open spec fn marker() -> TokenView {
        TokenView::IntType
    }

    open spec fn expansion(&self) -> Expansion {
        let bytes = encode_utf8(self.0@);
        if bytes.len() == 4 {
            Ok(seq![TokenView::Int(locale_number(bytes))])
        } else {
            Err(TdfError::SizeMismatch { declared: 4, actual: bytes.len() as usize, offset: 0 })
        }
    }

    fn tdf_type() -> (ty: TDFToken) {
        TDFToken::IntType
    }

    fn deserialize(&self, des: &mut RTDFDeserializer) -> (result: Result<(), TdfError>) {
        let bytes = self.0.as_str().as_bytes();
        if bytes.len() != 4 {
            return Err(TdfError::SizeMismatch { declared: 4, actual: bytes.len(), offset: 0 });
        }
        let number: u32 = bytes[0] as u32 * 0x100_0000 + bytes[1] as u32 * 0x1_0000
            + bytes[2] as u32 * 0x100 + bytes[3] as u32;
        des.emit(TDFToken::Int(number as i64));
        Ok(())
    }
}

/// The tokens of a generic: whether it is valid and, if so, its id and the
/// field of its content.
pub open spec fn generic_tokens(g: Generic) -> Seq<TokenView> {
    match g {
        Generic::Invalid => seq![TokenView::GenericStart(false), TokenView::GenericEnd],
        Generic::Valid(id, GenericContent::Empty) => seq![
            TokenView::GenericStart(true),
            TokenView::Int(id),
            TokenView::GenericEnd,
        ],
        Generic::Valid(id, GenericContent::Labeled(label, GenericType::Int(v))) => seq![
            TokenView::GenericStart(true),
            TokenView::Int(id),
            TokenView::Label(label@),
            TokenView::IntType,
            TokenView::Int(v),
            TokenView::GenericEnd,
        ],
        Generic::Valid(id, GenericContent::Labeled(label, GenericType::String(text))) => seq![
            TokenView::GenericStart(true),
            TokenView::Int(id),
            TokenView::Label(label@),
            TokenView::StringType,
            TokenView::String(encode_utf8(text@)),
            TokenView::GenericEnd,
        ],
    }
}

impl Deserialize for Generic {
    open spec fn marker() -> TokenView {
        TokenView::GenericType
    }

    open spec fn expansion(&self) -> Expansion {
        Ok(generic_tokens(*self))
    }

    fn tdf_type() -> (ty: TDFToken) {
        TDFToken::GenericType
    }

    fn deserialize(&self, des: &mut RTDFDeserializer) -> (result: Result<(), TdfError>) {
        match self {
            Generic::Invalid => {
                des.emit(TDFToken::GenericStart(false));
                des.emit(TDFToken::GenericEnd);
                assert(des.stream@ =~= old(des).stream@ + generic_tokens(*self));
            },
            Generic::Valid(id, GenericContent::Empty) => {
                des.emit(TDFToken::GenericStart(true));
                des.emit(TDFToken::Int(*id));
                des.emit(TDFToken::GenericEnd);
                assert(des.stream@ =~= old(des).stream@ + generic_tokens(*self));
            },
            Generic::Valid(id, GenericContent::Labeled(label, GenericType::Int(v))) => {
                des.emit(TDFToken::GenericStart(true));
                des.emit(TDFToken::Int(*id));
                des.emit(TDFToken::Label(label.clone()));
                let ghost first = des.stream@;
                assert(first =~= old(des).stream@ + seq![
                    TokenView::GenericStart(true),
                    TokenView::Int(*id),
                    TokenView::Label(label@),
                ]);
                des.emit(TDFToken::IntType);
                des.emit(TDFToken::Int(*v));
                des.emit(TDFToken::GenericEnd);
                assert(des.stream@ =~= first + seq![
                    TokenView::IntType,
                    TokenView::Int(*v),
                    TokenView::GenericEnd,
                ]);
                assert(des.stream@ =~= old(des).stream@ + generic_tokens(*self));
            },
            Generic::Valid(id, GenericContent::Labeled(label, GenericType::String(text))) => {
                des.emit(TDFToken::GenericStart(true));
                des.emit(TDFToken::Int(*id));
                des.emit(TDFToken::Label(label.clone()));
                let ghost first = des.stream@;
                assert(first =~= old(des).stream@ + seq![
                    TokenView::GenericStart(true),
                    TokenView::Int(*id),
                    TokenView::Label(label@),
                ]);
                des.emit(TDFToken::StringType);
                des.emit(TDFToken::String(to_vec(text.as_str().as_bytes())));
                des.emit(TDFToken::GenericEnd);
                assert(des.stream@ =~= first + seq![
                    TokenView::StringType,
                    TokenView::String(encode_utf8(text@)),
                    TokenView::GenericEnd,
                ]);
                assert(des.stream@ =~= old(des).stream@ + generic_tokens(*self));
            },
        }
        Ok(())
    }
}

} // verus!
