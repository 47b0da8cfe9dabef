//! Tokens to records.
//!
//! What is read from a token stream is defined by [`Serialize::parsed`]:
//! it names the value read by the tokens that the value is written as, so
//! that reading and writing speak of one model.

use vstd::prelude::*;
use vstd::string::*;
use vstd::utf8::{decode_utf8_encode_utf8, encode_utf8, valid_utf8};
use crate::btdf::label::{code, label_code};
use crate::btdf::ser::{be_bytes, lemma_be_bytes, mismatch, token_at};
use crate::error::{Feature, TdfError, TokenKind};
use crate::outside::{array_of, utf8_text};
use crate::rtdf::des::{
    expansion_from, field_canon, generic_tokens, ints_from, pairs_from, payload_head, payload_tail,
    Deserialize, Expansion,
};
use crate::rtdf::{
    FloatBits, Generic, GenericContent, GenericType, IntList, IpAddress, Localization, ObjectId,
    ObjectType, Union,
};
use crate::token::{TDFSerializer, TDFToken, TDFTokenStream, TokenView, UnionType};

verus! {

/// What reading gives: the tokens that the value read is written as, and
/// the index of the next token; or the first error met.
pub type Parsed = Result<(Seq<TokenView>, int), TdfError>;

/// `parsed` with `tokens` in front of its tokens.
pub open spec fn led_by(tokens: Seq<TokenView>, parsed: Parsed) -> Parsed {
    match parsed {
        Ok((more, end)) => Ok((tokens + more, end)),
        Err(e) => Err(e),
    }
}

/// The error for the token `found` at index `pos` where the type marker
/// `expected` was due.
pub open spec fn wrong_type(expected: TokenView, found: TokenView, pos: int) -> TdfError {
    mismatch(expected.kind(), found, pos)
}

/// The index behind the token at `pos`, which must have the shape
/// `expected`.
pub open spec fn expect(
    tokens: Seq<TokenView>,
    pos: int,
    expected: TokenKind,
) -> Result<int, TdfError> {
    match token_at(tokens, pos) {
        Err(e) => Err(e),
        Ok(t) => if t.kind() == expected {
            Ok(pos + 1)
        } else {
            Err(mismatch(expected, t, pos))
        },
    }
}

/// The packed form of a label text, by which labels are compared.
pub open spec fn code_of(text: Seq<char>) -> u32 {
    label_code(encode_utf8(text))
}

/// Reads records from tokens.
pub struct RTDFSerializer {
    /// The tokens to read; its cursor is at the next token.
    pub stream: TDFTokenStream,
}

/// How reading leaves the reader: with `parsed` being what the tokens at
/// the cursor hold, on success the value returned is one that is written
/// as the tokens `parsed` names, and the cursor stands behind the tokens
/// read; on failure the error is returned.
pub open spec fn reads<T: Deserialize>(
    before: RTDFSerializer,
    after: RTDFSerializer,
    result: Result<T, TdfError>,
    parsed: Parsed,
) -> bool {
    &&& after.stream@ == before.stream@
    &&& match parsed {
        Ok((tokens, end)) => {
            &&& result is Ok
            &&& result->Ok_0.expansion() == Ok::<Seq<TokenView>, TdfError>(tokens)
            &&& after.stream.1 == end
        },
        Err(e) => result is Err && result->Err_0 == e,
    }
}

/// Trait to implement on Rust structs and primitives
/// Provides possibility to ser this struct
pub trait Serialize: Sized + Deserialize {
    /// What reading a value of this type from the tokens at `pos` gives.
    open spec fn parsed(tokens: Seq<TokenView>, pos: int) -> Parsed {
        arbitrary()
    }

    /// Reads a value of this type from the tokens at the cursor.
    fn serialize(ser: &mut RTDFSerializer) -> (result: Result<Self, TdfError>)
        ensures
            reads(
                *old(ser),
                *final(ser),
                result,
                Self::parsed(old(ser).stream@, old(ser).stream.1 as int),
            ),
    ;
}

/// `count` values of type `T` in a row from `pos` on.
pub open spec fn parsed_items<T: Serialize>(tokens: Seq<TokenView>, pos: int, count: nat) -> Parsed
    decreases count,
{
    if count == 0 {
        Ok((Seq::empty(), pos))
    } else {
        match T::parsed(tokens, pos) {
            Err(e) => Err(e),
            Ok((first, next)) => led_by(first, parsed_items::<T>(tokens, next, (count - 1) as nat)),
        }
    }
}

/// `count` pairs of a key of type `K` and a value of type `V` from `pos`
/// on.
pub open spec fn parsed_pairs<K: Serialize, V: Serialize>(
    tokens: Seq<TokenView>,
    pos: int,
    count: nat,
) -> Parsed
    decreases count,
{
    if count == 0 {
        Ok((Seq::empty(), pos))
    } else {
        match K::parsed(tokens, pos) {
            Err(e) => Err(e),
            Ok((key, mid)) => match V::parsed(tokens, mid) {
                Err(e) => Err(e),
                Ok((value, next)) => led_by(
                    key + value,
                    parsed_pairs::<K, V>(tokens, next, (count - 1) as nat),
                ),
            },
        }
    }
}

/// An `Int` token at `pos`: its value and the index behind it.
pub open spec fn parsed_int(tokens: Seq<TokenView>, pos: int) -> Result<(i64, int), TdfError> {
    match token_at(tokens, pos) {
        Err(e) => Err(e),
        Ok(TokenView::Int(v)) => Ok((v, pos + 1)),
        Ok(t) => Err(mismatch(TokenKind::Int, t, pos)),
    }
}

/// `count` `Int` tokens in a row from `pos` on.
pub open spec fn parsed_ints(tokens: Seq<TokenView>, pos: int, count: nat) -> Parsed
    decreases count,
{
    if count == 0 {
        Ok((Seq::empty(), pos))
    } else {
        match parsed_int(tokens, pos) {
            Err(e) => Err(e),
            Ok((v, next)) => led_by(
                seq![TokenView::Int(v)],
                parsed_ints(tokens, next, (count - 1) as nat),
            ),
        }
    }
}

/// Where the field at `pos` begins: behind a `MapUnion` that may stand in
/// front of it. At the end of the map there is no field.
pub open spec fn field_start(tokens: Seq<TokenView>, pos: int) -> Result<int, TdfError> {
    match token_at(tokens, pos) {
        Err(e) => Err(e),
        Ok(TokenView::MapEnd) => Err(mismatch(TokenKind::Label, TokenView::MapEnd, pos)),
        Ok(TokenView::MapUnion) => Ok(pos + 1),
        Ok(_) => Ok(pos),
    }
}

/// The label of the field that begins at `start`.
pub open spec fn field_label(tokens: Seq<TokenView>, start: int) -> Result<Seq<char>, TdfError> {
    match token_at(tokens, start) {
        Err(e) => Err(e),
        Ok(TokenView::Label(text)) => Ok(text),
        Ok(t) => Err(mismatch(TokenKind::Label, t, start)),
    }
}

/// The value of type `T` of the field that begins at `start`: behind its
/// label the type marker of `T`, then the value.
pub open spec fn field_value<T: Serialize>(tokens: Seq<TokenView>, start: int) -> Parsed {
    match token_at(tokens, start + 1) {
        Err(e) => Err(e),
        Ok(ty) => if ty.kind() == T::marker().kind() {
            T::parsed(tokens, start + 2)
        } else {
            Err(wrong_type(T::marker(), ty, start + 1))
        },
    }
}

/// A field with a value of type `T` at `pos`, whatever its label: the
/// label and what reading the value gives.
pub open spec fn parsed_field<T: Serialize>(tokens: Seq<TokenView>, pos: int) -> Result<
    (Seq<char>, Seq<TokenView>, int),
    TdfError,
> {
    match field_start(tokens, pos) {
        Err(e) => Err(e),
        Ok(start) => match field_label(tokens, start) {
            Err(e) => Err(e),
            Ok(label) => match field_value::<T>(tokens, start) {
                Err(e) => Err(e),
                Ok((value, end)) => Ok((label, value, end)),
            },
        },
    }
}

/// A field with a value of type `T` at `pos` whose label packs as `name`
/// does.
pub open spec fn named_field<T: Serialize>(
    tokens: Seq<TokenView>,
    pos: int,
    name: Seq<char>,
) -> Parsed {
    match field_start(tokens, pos) {
        Err(e) => Err(e),
        Ok(start) => match field_label(tokens, start) {
            Err(e) => Err(e),
            Ok(label) => if code_of(label) == code_of(name) {
                field_value::<T>(tokens, start)
            } else {
                Err(
                    TdfError::LabelMismatch {
                        expected: code_of(name),
                        observed: code_of(label),
                        offset: start as usize,
                    },
                )
            },
        },
    }
}

/// Whether the token at `pos` is a label that packs as `name` does.
pub open spec fn label_matches(tokens: Seq<TokenView>, pos: int, name: TokenView) -> bool {
    match (token_at(tokens, pos), name) {
        (Ok(TokenView::Label(found)), TokenView::Label(wanted)) => code_of(found) == code_of(
            wanted,
        ),
        _ => false,
    }
}

/// The tokens of a whole record of type `T`: behind the marker `MapType`
/// the value.
pub open spec fn parsed_record<T: Serialize>(tokens: Seq<TokenView>, pos: int) -> Parsed {
    match expect(tokens, pos, TokenKind::MapType) {
        Err(e) => Err(e),
        Ok(next) => T::parsed(tokens, next),
    }
}

/// Any Rust type constructor
pub trait RustSerialize {
    /// What [`RustSerialize::serialize`] makes of the constructor: how the
    /// constructor `after` it and the `result` follow from the
    /// constructor `before` it and the tokens from `pos` on, and where the
    /// cursor stands then.
    open spec fn built(
        before: &Self,
        after: &Self,
        tokens: Seq<TokenView>,
        pos: int,
        result: Result<(), TdfError>,
        end: int,
    ) -> bool {
        true
    }

    /// Reads from the tokens at the cursor into the constructor.
    fn serialize(&mut self, ser: &mut RTDFSerializer) -> (result: Result<(), TdfError>)
        ensures
            final(ser).stream@ == old(ser).stream@,
            Self::built(
                old(self),
                final(self),
                old(ser).stream@,
                old(ser).stream.1 as int,
                result,
                final(ser).stream.1 as int,
            ),
    ;
}

/// Constructor for Rust structs
pub struct StructConstructor<T: Serialize> {
    pub inner: Option<T>,
}

impl<T: Serialize> StructConstructor<T> {
    /// A constructor that holds nothing yet.
    pub fn new() -> (sc: Self)
        ensures
            sc.inner is None,
    {
        Self { inner: None }
    }

    /// The record that was read, or the error of one that was not.
    pub fn build(self) -> (record: Result<T, TdfError>)
        ensures
            match self.inner {
                Some(inner) => record == Ok::<T, TdfError>(inner),
                None => record == Err::<T, TdfError>(TdfError::EndOfStream { offset: 0 }),
            },
    {
        match self.inner {
            Some(inner) => Ok(inner),
            None => Err(TdfError::EndOfStream { offset: 0 }),
        }
    }
}

impl<T: Serialize> RustSerialize for StructConstructor<T> {
    open spec fn built(
        before: &Self,
        after: &Self,
        tokens: Seq<TokenView>,
        pos: int,
        result: Result<(), TdfError>,
        end: int,
    ) -> bool {
        match T::parsed(tokens, pos) {
            Ok((value, stop)) => {
                &&& result is Ok
                &&& after.inner is Some
                &&& after.inner->Some_0.expansion() == Ok::<Seq<TokenView>, TdfError>(value)
                &&& end == stop
            },
            Err(e) => result == Err::<(), TdfError>(e) && after.inner == before.inner,
        }
    }

    fn serialize(&mut self, ser: &mut RTDFSerializer) -> (result: Result<(), TdfError>) {
        self.inner = Some(T::serialize(ser)?);
        Ok(())
    }
}

impl RTDFSerializer {
    /// A reader for the tokens of `stream` from its cursor on.
    pub fn new(stream: TDFTokenStream) -> (ser: Self)
        ensures
            ser.stream == stream,
    {
        Self { stream }
    }

    /// Takes the next token, which must have the shape `expected`.
    fn take(&mut self, expected: TokenKind) -> (result: Result<TDFToken, TdfError>)
        ensures
            final(self).stream@ == old(self).stream@,
            match expect(old(self).stream@, old(self).stream.1 as int, expected) {
                Ok(end) => {
                    &&& result is Ok
                    &&& result->Ok_0@ == old(self).stream@[old(self).stream.1 as int]
                    &&& final(self).stream.1 == end
                },
                Err(e) => result is Err && result->Err_0 == e,
            },
    {
        let at = self.stream.1;
        let token = self.stream.next()?;
        if token.kind() == expected {
            Ok(token)
        } else {
            Err(TdfError::TypeMismatch { expected, observed: token.kind(), offset: at })
        }
    }

    /// Takes the next token, which must be an `Int`.
    fn take_int(&mut self) -> (result: Result<i64, TdfError>)
        ensures
            final(self).stream@ == old(self).stream@,
            match parsed_int(old(self).stream@, old(self).stream.1 as int) {
                Ok((v, end)) => result == Ok::<i64, TdfError>(v) && final(self).stream.1 == end,
                Err(e) => result == Err::<i64, TdfError>(e),
            },
    {
        let at = self.stream.1;
        let token = self.stream.next()?;
        match token {
            TDFToken::Int(v) => Ok(v),
            _ => Err(
                TdfError::TypeMismatch {
                    expected: TokenKind::Int,
                    observed: token.kind(),
                    offset: at,
                },
            ),
        }
    }

    /// Reads a whole record into `prop`: behind the marker `MapType` what
    /// `prop` reads.
    pub fn ser_root<S: RustSerialize>(&mut self, prop: &mut S) -> (result: Result<(), TdfError>)
        ensures
            final(self).stream@ == old(self).stream@,
            match expect(old(self).stream@, old(self).stream.1 as int, TokenKind::MapType) {
                Err(e) => result == Err::<(), TdfError>(e) && *final(prop) == *old(prop),
                Ok(next) => S::built(
                    old(prop),
                    final(prop),
                    old(self).stream@,
                    next,
                    result,
                    final(self).stream.1 as int,
                ),
            },
    {
        let _ = self.take(TokenKind::MapType)?;
        prop.serialize(self)
    }

    /// Moves the cursor to where the field at the cursor begins.
    fn enter_field(&mut self) -> (result: Result<(), TdfError>)
        ensures
            final(self).stream@ == old(self).stream@,
            match field_start(old(self).stream@, old(self).stream.1 as int) {
                Ok(start) => result is Ok && final(self).stream.1 == start,
                Err(e) => result == Err::<(), TdfError>(e),
            },
    {
        let at = self.stream.1;
        let label = self.stream.get(at)?;
        match label {
            TDFToken::MapEnd => Err(
                TdfError::TypeMismatch {
                    expected: TokenKind::Label,
                    observed: TokenKind::MapEnd,
                    offset: at,
                },
            ),
            TDFToken::MapUnion => {
                // Skip Union map field declaration
                self.stream.skip();
                Ok(())
            },
            _ => Ok(()),
        }
    }

    /// Takes the label at the cursor.
    fn take_label(&mut self) -> (result: Result<String, TdfError>)
        ensures
            final(self).stream@ == old(self).stream@,
            match field_label(old(self).stream@, old(self).stream.1 as int) {
                Ok(text) => {
                    &&& result is Ok
                    &&& result->Ok_0@ == text
                    &&& final(self).stream.1 == old(self).stream.1 + 1
                },
                Err(e) => result is Err && result->Err_0 == e,
            },
    {
        let at = self.stream.1;
        let label = self.stream.next()?;
        match label {
            TDFToken::Label(label_string) => Ok(label_string),
            _ => Err(
                TdfError::TypeMismatch {
                    expected: TokenKind::Label,
                    observed: label.kind(),
                    offset: at,
                },
            ),
        }
    }

    /// Reads behind a label the type marker of `T` and a value of type
    /// `T`.
    fn take_value<T: Serialize>(&mut self) -> (result: Result<T, TdfError>)
        ensures
            reads(
                *old(self),
                *final(self),
                result,
                field_value::<T>(old(self).stream@, old(self).stream.1 - 1),
            ),
    {
        let at = self.stream.1;
        let value_type = self.stream.next()?;
        let expected = T::tdf_type();
        if value_type.kind() != expected.kind() {
            return Err(
                TdfError::TypeMismatch {
                    expected: expected.kind(),
                    observed: value_type.kind(),
                    offset: at,
                },
            );
        }
        T::serialize(self)
    }

    /// Reads the field at the cursor, whatever its label: the label and
    /// the value.
    pub fn ser_field<T: Serialize>(&mut self) -> (result: Result<(String, T), TdfError>)
        ensures
            final(self).stream@ == old(self).stream@,
            match parsed_field::<T>(old(self).stream@, old(self).stream.1 as int) {
                Ok((label, value, end)) => {
                    &&& result is Ok
                    &&& result->Ok_0.0@ == label
                    &&& result->Ok_0.1.expansion() == Ok::<Seq<TokenView>, TdfError>(value)
                    &&& final(self).stream.1 == end
                },
                Err(e) => result is Err && result->Err_0 == e,
            },
    {
        self.enter_field()?;
        let label_string = self.take_label()?;
        let value = self.take_value::<T>()?;
        Ok((label_string, value))
    }

    /// Reads the field at the cursor, which must have the label `name`.
    /// Labels are compared in packed form.
    pub fn ser_field_named<T: Serialize>(&mut self, name: &str) -> (result: Result<T, TdfError>)
        ensures
            reads(
                *old(self),
                *final(self),
                result,
                named_field::<T>(old(self).stream@, old(self).stream.1 as int, name@),
            ),
    {
        self.enter_field()?;
        let at = self.stream.1;
        let label_string = self.take_label()?;
        let observed = code(label_string.as_str().as_bytes());
        let expected = code(name.as_bytes());
        if observed != expected {
            return Err(TdfError::LabelMismatch { expected, observed, offset: at });
        }
        self.take_value::<T>()
    }

    /// Reads the field at the cursor if its label is `match_label`, and
    /// nothing if another token stands there. Labels are compared in
    /// packed form.
    pub fn ser_field_optional<T: Serialize>(&mut self, match_label: TDFToken) -> (result: Result<
        Option<T>,
        TdfError,
    >)
        ensures
            final(self).stream@ == old(self).stream@,
            match token_at(old(self).stream@, old(self).stream.1 as int) {
                Err(e) => result is Err && result->Err_0 == e,
                Ok(_) => if label_matches(
                    old(self).stream@,
                    old(self).stream.1 as int,
                    match_label@,
                ) {
                    match parsed_field::<T>(old(self).stream@, old(self).stream.1 as int) {
                        Ok((_, value, end)) => {
                            &&& result is Ok
                            &&& result->Ok_0 is Some
                            &&& result->Ok_0->Some_0.expansion() == Ok::<Seq<TokenView>, TdfError>(
                                value,
                            )
                            &&& final(self).stream.1 == end
                        },
                        Err(e) => result is Err && result->Err_0 == e,
                    }
                } else {
                    &&& result is Ok
                    &&& result->Ok_0 is None
                    &&& final(self).stream.1 == old(self).stream.1
                },
            },
    {
        let label = self.stream.next()?;
        // Move cursor back
        self.stream.peek_back(1)?;
        let matches = match (&label, &match_label) {
            (TDFToken::Label(found), TDFToken::Label(wanted)) => code(found.as_str().as_bytes())
                == code(wanted.as_str().as_bytes()),
            _ => false,
        };
        if !matches {
            return Ok(None);
        }
        let (_, value) = self.ser_field::<T>()?;
        Ok(Some(value))
    }

    /// Get map start token
    pub fn map_start(&mut self) -> (result: Result<(), TdfError>)
        ensures
            final(self).stream@ == old(self).stream@,
            match expect(old(self).stream@, old(self).stream.1 as int, TokenKind::MapStart) {
                Ok(end) => result is Ok && final(self).stream.1 == end,
                Err(e) => result == Err::<(), TdfError>(e),
            },
    {
        let _ = self.take(TokenKind::MapStart)?;
        Ok(())
    }

    /// Get map end token
    pub fn map_end(&mut self) -> (result: Result<(), TdfError>)
        ensures
            final(self).stream@ == old(self).stream@,
            match expect(old(self).stream@, old(self).stream.1 as int, TokenKind::MapEnd) {
                Ok(end) => result is Ok && final(self).stream.1 == end,
                Err(e) => result == Err::<(), TdfError>(e),
            },
    {
        let _ = self.take(TokenKind::MapEnd)?;
        Ok(())
    }

    /// Get next token from the stream and check if it is equal to expected one
    pub fn check_token(&mut self, expected_token: TDFToken) -> (result: Result<TDFToken, TdfError>)
        ensures
            final(self).stream@ == old(self).stream@,
            match token_at(old(self).stream@, old(self).stream.1 as int) {
                Err(e) => result is Err && result->Err_0 == e,
                Ok(t) => if t == expected_token@ {
                    &&& result is Ok
                    &&& result->Ok_0@ == t
                    &&& final(self).stream.1 == old(self).stream.1 + 1
                } else {
                    result is Err && result->Err_0 == mismatch(
                        expected_token@.kind(),
                        t,
                        old(self).stream.1 as int,
                    )
                },
            },
    {
        let at = self.stream.1;
        let token = self.stream.next()?;
        if !token.same(&expected_token) {
            return Err(
                TdfError::TypeMismatch {
                    expected: expected_token.kind(),
                    observed: token.kind(),
                    offset: at,
                },
            );
        }
        Ok(token)
    }
}

impl<S: RustSerialize> TDFSerializer<S> for RTDFSerializer {
    /// Reads a whole record from `stream` into `prop`.
    fn serialize(stream: TDFTokenStream, prop: &mut S) -> (result: Result<(), TdfError>)
        ensures
            match expect(stream@, stream.1 as int, TokenKind::MapType) {
                Err(e) => result == Err::<(), TdfError>(e) && *final(prop) == *old(prop),
                Ok(next) => exists|end: int|
                    S::built(old(prop), final(prop), stream@, next, result, end),
            },
    {
        let mut ser = Self::new(stream);
        ser.ser_root(prop)
    }
}

/// `first` and behind it `second`, or the first error of the two.
pub open spec fn joined(first: Expansion, second: Expansion) -> Expansion {
    match first {
        Err(e) => Err(e),
        Ok(a) => match second {
            Err(e) => Err(e),
            Ok(b) => Ok(a + b),
        },
    }
}

/// The tokens of a sequence with one more item are the tokens of the
/// sequence and behind them the tokens of the item.
pub proof fn lemma_expansion_push<D: Deserialize>(items: Seq<D>, item: D, from: int)
    requires
        0 <= from <= items.len(),
    ensures
        expansion_from(items.push(item), from) == joined(
            expansion_from(items, from),
            item.expansion(),
        ),
    decreases items.len() - from,
{
    let more = items.push(item);
    if from == items.len() {
        assert(expansion_from(more, from + 1) == Ok::<Seq<TokenView>, TdfError>(Seq::empty()));
        if item.expansion() is Ok {
            assert(item.expansion()->Ok_0 + Seq::<TokenView>::empty() =~= Seq::<TokenView>::empty()
                + item.expansion()->Ok_0);
        }
    } else {
        lemma_expansion_push(items, item, from + 1);
        assert(more[from] == items[from]);
        let head = items[from].expansion();
        let tail = expansion_from(items, from + 1);
        if head is Ok && tail is Ok && item.expansion() is Ok {
            assert(head->Ok_0 + (tail->Ok_0 + item.expansion()->Ok_0) =~= (head->Ok_0 + tail->Ok_0)
                + item.expansion()->Ok_0);
        }
    }
}

/// The same for a sequence of pairs.
pub proof fn lemma_pairs_push<K: Deserialize, V: Deserialize>(
    pairs: Seq<(K, V)>,
    pair: (K, V),
    from: int,
)
    requires
        0 <= from <= pairs.len(),
    ensures
        pairs_from(pairs.push(pair), from) == joined(
            pairs_from(pairs, from),
            joined(pair.0.expansion(), pair.1.expansion()),
        ),
    decreases pairs.len() - from,
{
    let more = pairs.push(pair);
    let last = joined(pair.0.expansion(), pair.1.expansion());
    if from == pairs.len() {
        assert(pairs_from(more, from + 1) == Ok::<Seq<TokenView>, TdfError>(Seq::empty()));
        if last is Ok {
            assert(last->Ok_0 + Seq::<TokenView>::empty() =~= Seq::<TokenView>::empty()
                + last->Ok_0);
        }
    } else {
        lemma_pairs_push(pairs, pair, from + 1);
        assert(more[from] == pairs[from]);
        let head = joined(pairs[from].0.expansion(), pairs[from].1.expansion());
        let tail = pairs_from(pairs, from + 1);
        if head is Ok && tail is Ok && last is Ok {
            assert(head->Ok_0 + (tail->Ok_0 + last->Ok_0) =~= (head->Ok_0 + tail->Ok_0)
                + last->Ok_0);
        }
    }
}

/// The same for a sequence of integers.
pub proof fn lemma_ints_push(items: Seq<i64>, item: i64, from: int)
    requires
        0 <= from <= items.len(),
    ensures
        ints_from(items.push(item), from) == ints_from(items, from) + seq![TokenView::Int(item)],
    decreases items.len() - from,
{
    let more = items.push(item);
    if from == items.len() {
        assert(ints_from(more, from + 1) == Seq::<TokenView>::empty());
        assert(ints_from(more, from) =~= ints_from(items, from) + seq![TokenView::Int(item)]);
    } else {
        lemma_ints_push(items, item, from + 1);
        assert(more[from] == items[from]);
        assert(ints_from(more, from) =~= ints_from(items, from) + seq![TokenView::Int(item)]);
    }
}

impl Serialize for i64 {
    open spec fn parsed(tokens: Seq<TokenView>, pos: int) -> Parsed {
        match parsed_int(tokens, pos) {
            Err(e) => Err(e),
            Ok((v, end)) => Ok((seq![TokenView::Int(v)], end)),
        }
    }

    fn serialize(ser: &mut RTDFSerializer) -> (result: Result<Self, TdfError>)
        ensures
            parsed_int(old(ser).stream@, old(ser).stream.1 as int) matches Ok((v, _)) ==> result
                == Ok::<i64, TdfError>(v),
    {
        ser.take_int()
    }
}

impl Serialize for u64 {
    open spec fn parsed(tokens: Seq<TokenView>, pos: int) -> Parsed {
        match parsed_int(tokens, pos) {
            Err(e) => Err(e),
            Ok((v, end)) => Ok((seq![TokenView::Int((v as u64) as i64)], end)),
        }
    }

    fn serialize(ser: &mut RTDFSerializer) -> (result: Result<Self, TdfError>)
        ensures
            parsed_int(old(ser).stream@, old(ser).stream.1 as int) matches Ok((v, _)) ==> result
                == Ok::<u64, TdfError>(v as u64),
    {
        let num = ser.take_int()?;
        Ok(num as u64)
    }
}

impl Serialize for i32 {
    open spec fn parsed(tokens: Seq<TokenView>, pos: int) -> Parsed {
        match parsed_int(tokens, pos) {
            Err(e) => Err(e),
            Ok((v, end)) => Ok((seq![TokenView::Int((v as i32) as i64)], end)),
        }
    }

    fn serialize(ser: &mut RTDFSerializer) -> (result: Result<Self, TdfError>)
        ensures
            parsed_int(old(ser).stream@, old(ser).stream.1 as int) matches Ok((v, _)) ==> result
                == Ok::<i32, TdfError>(v as i32),
    {
        let num = ser.take_int()?;
        Ok(num as i32)
    }
}

impl Serialize for u32 {
    open spec fn parsed(tokens: Seq<TokenView>, pos: int) -> Parsed {
        match parsed_int(tokens, pos) {
            Err(e) => Err(e),
            Ok((v, end)) => Ok((seq![TokenView::Int((v as u32) as i64)], end)),
        }
    }

    fn serialize(ser: &mut RTDFSerializer) -> (result: Result<Self, TdfError>)
        ensures
            parsed_int(old(ser).stream@, old(ser).stream.1 as int) matches Ok((v, _)) ==> result
                == Ok::<u32, TdfError>(v as u32),
    {
        let num = ser.take_int()?;
        Ok(num as u32)
    }
}

impl Serialize for bool {
    /// Zero is read as `false`, every other integer as `true`.
    open spec fn parsed(tokens: Seq<TokenView>, pos: int) -> Parsed {
        match parsed_int(tokens, pos) {
            Err(e) => Err(e),
            Ok((v, end)) => Ok((seq![TokenView::Int(if v != 0 { 1 } else { 0 })], end)),
        }
    }

    fn serialize(ser: &mut RTDFSerializer) -> (result: Result<Self, TdfError>)
        ensures
            parsed_int(old(ser).stream@, old(ser).stream.1 as int) matches Ok((v, _)) ==> result
                == Ok::<bool, TdfError>(v != 0),
    {
        let num = ser.take_int()?;
        Ok(num != 0)
    }
}

impl Serialize for String {
    /// A `String` token whose bytes are UTF-8.
    open spec fn parsed(tokens: Seq<TokenView>, pos: int) -> Parsed {
        match token_at(tokens, pos) {
            Err(e) => Err(e),
            Ok(TokenView::String(bytes)) => if valid_utf8(bytes) {
                Ok((seq![TokenView::String(bytes)], pos + 1))
            } else {
                Err(TdfError::InvalidUtf8 { offset: pos as usize })
            },
            Ok(t) => Err(mismatch(TokenKind::String, t, pos)),
        }
    }

    fn serialize(ser: &mut RTDFSerializer) -> (result: Result<Self, TdfError>) {
        let at = ser.stream.1;
        let value = ser.stream.next()?;
        match value {
            TDFToken::String(v) => {
                let ghost bytes = v@;
                match utf8_text(v) {
                    Some(text) => {
                        proof {
                            decode_utf8_encode_utf8(bytes);
                        }
                        Ok(text)
                    },
                    None => Err(TdfError::InvalidUtf8 { offset: at }),
                }
            },
            _ => Err(
                TdfError::TypeMismatch {
                    expected: TokenKind::String,
                    observed: value.kind(),
                    offset: at,
                },
            ),
        }
    }
}

impl Serialize for Vec<u8> {
    open spec fn parsed(tokens: Seq<TokenView>, pos: int) -> Parsed {
        match token_at(tokens, pos) {
            Err(e) => Err(e),
            Ok(TokenView::Blob(bytes)) => Ok((seq![TokenView::Blob(bytes)], pos + 1)),
            Ok(t) => Err(mismatch(TokenKind::Blob, t, pos)),
        }
    }

    fn serialize(ser: &mut RTDFSerializer) -> (result: Result<Self, TdfError>) {
        let at = ser.stream.1;
        let value = ser.stream.next()?;
        match value {
            TDFToken::Blob(v) => Ok(v),
            _ => Err(
                TdfError::TypeMismatch {
                    expected: TokenKind::Blob,
                    observed: value.kind(),
                    offset: at,
                },
            ),
        }
    }
}

impl Serialize for FloatBits {
    open spec fn parsed(tokens: Seq<TokenView>, pos: int) -> Parsed {
        match token_at(tokens, pos) {
            Err(e) => Err(e),
            Ok(TokenView::Float(bits)) => Ok((seq![TokenView::Float(bits)], pos + 1)),
            Ok(t) => Err(mismatch(TokenKind::Float, t, pos)),
        }
    }

    fn serialize(ser: &mut RTDFSerializer) -> (result: Result<Self, TdfError>) {
        let at = ser.stream.1;
        let value = ser.stream.next()?;
        match value {
            TDFToken::Float(bits) => Ok(FloatBits(bits)),
            _ => Err(
                TdfError::TypeMismatch {
                    expected: TokenKind::Float,
                    observed: value.kind(),
                    offset: at,
                },
            ),
        }
    }
}

/// The count that opens a collection at `pos`, with the token shape
/// `opener`.
pub open spec fn parsed_count(tokens: Seq<TokenView>, pos: int, opener: TokenKind) -> Result<
    usize,
    TdfError,
> {
    match token_at(tokens, pos) {
        Err(e) => Err(e),
        Ok(t) => if t.kind() != opener {
            Err(mismatch(opener, t, pos))
        } else {
            match t {
                TokenView::ListStart(n) => Ok(n),
                TokenView::PairListStart(n) => Ok(n),
                TokenView::IntListStart(n) => Ok(n),
                _ => Ok(0),
            }
        },
    }
}

/// The index behind the type marker at `pos`, which must be that of `T`.
pub open spec fn parsed_marker<T: Deserialize>(tokens: Seq<TokenView>, pos: int) -> Result<
    int,
    TdfError,
> {
    match token_at(tokens, pos) {
        Err(e) => Err(e),
        Ok(ty) => if ty.kind() == T::marker().kind() {
            Ok(pos + 1)
        } else {
            Err(wrong_type(T::marker(), ty, pos))
        },
    }
}

impl RTDFSerializer {
    /// Takes the opening token of a collection, of the shape `opener`, and
    /// gives its count.
    fn take_count(&mut self, opener: TokenKind) -> (result: Result<usize, TdfError>)
        requires
            opener == TokenKind::ListStart || opener == TokenKind::PairListStart || opener
                == TokenKind::IntListStart,
        ensures
            final(self).stream@ == old(self).stream@,
            match parsed_count(old(self).stream@, old(self).stream.1 as int, opener) {
                Ok(n) => {
                    &&& result == Ok::<usize, TdfError>(n)
                    &&& final(self).stream.1 == old(self).stream.1 + 1
                    &&& old(self).stream@[old(self).stream.1 as int] == (match opener {
                        TokenKind::ListStart => TokenView::ListStart(n),
                        TokenKind::PairListStart => TokenView::PairListStart(n),
                        _ => TokenView::IntListStart(n),
                    })
                },
                Err(e) => result == Err::<usize, TdfError>(e),
            },
    {
        let token = self.take(opener)?;
        match token {
            TDFToken::ListStart(s) => Ok(s),
            TDFToken::PairListStart(s) => Ok(s),
            TDFToken::IntListStart(s) => Ok(s),
            _ => Ok(0),
        }
    }

    /// Takes the type marker at the cursor, which must be that of `T`.
    fn take_marker<T: Deserialize>(&mut self) -> (result: Result<(), TdfError>)
        ensures
            final(self).stream@ == old(self).stream@,
            match parsed_marker::<T>(old(self).stream@, old(self).stream.1 as int) {
                Ok(end) => result is Ok && final(self).stream.1 == end,
                Err(e) => result == Err::<(), TdfError>(e),
            },
    {
        let at = self.stream.1;
        let value_type = self.stream.next()?;
        let expected = T::tdf_type();
        if value_type.kind() != expected.kind() {
            return Err(
                TdfError::TypeMismatch {
                    expected: expected.kind(),
                    observed: value_type.kind(),
                    offset: at,
                },
            );
        }
        Ok(())
    }
}

impl<T: Serialize> Serialize for Vec<T> {
    /// A list: `ListStart`, the type marker of `T`, the items, `ListEnd`.
    open spec fn parsed(tokens: Seq<TokenView>, pos: int) -> Parsed {
        match parsed_count(tokens, pos, TokenKind::ListStart) {
            Err(e) => Err(e),
            Ok(n) => match parsed_marker::<T>(tokens, pos + 1) {
                Err(e) => Err(e),
                Ok(start) => match parsed_items::<T>(tokens, start, n as nat) {
                    Err(e) => Err(e),
                    Ok((items, end)) => match expect(tokens, end, TokenKind::ListEnd) {
                        Err(e) => Err(e),
                        Ok(stop) => Ok(
                            (
                                seq![TokenView::ListStart(n), T::marker()] + (items + seq![
                                    TokenView::ListEnd,
                                ]),
                                stop,
                            ),
                        ),
                    },
                },
            },
        }
    }

    fn serialize(ser: &mut RTDFSerializer) -> (result: Result<Self, TdfError>) {
        let ghost tokens = ser.stream@;
        let ghost pos = ser.stream.1 as int;
        let size = ser.take_count(TokenKind::ListStart)?;
        ser.take_marker::<T>()?;
        let mut out: Vec<T> = Vec::new();
        let ghost mut done: Seq<TokenView> = Seq::empty();
        let mut i: usize = 0;
        while i < size
            invariant
                tokens == old(ser).stream@,
                pos == old(ser).stream.1,
                ser.stream@ == tokens,
                i <= size,
                out@.len() == i,
                expansion_from(out@, 0) == Ok::<Seq<TokenView>, TdfError>(done),
                parsed_count(tokens, pos, TokenKind::ListStart) == Ok::<usize, TdfError>(size),
                parsed_marker::<T>(tokens, pos + 1) == Ok::<int, TdfError>(pos + 2),
                parsed_items::<T>(tokens, pos + 2, size as nat) == led_by(
                    done,
                    parsed_items::<T>(tokens, ser.stream.1 as int, (size - i) as nat),
                ),
            decreases size - i,
        {
            let ghost here = ser.stream.1 as int;
            let item = T::serialize(ser)?;
            proof {
                let first = T::parsed(tokens, here)->Ok_0.0;
                let next = parsed_items::<T>(tokens, ser.stream.1 as int, (size - i - 1) as nat);
                if next is Ok {
                    assert(done + (first + next->Ok_0.0) =~= (done + first) + next->Ok_0.0);
                }
                lemma_expansion_push(out@, item, 0);
                done = done + first;
            }
            out.push(item);
            i += 1;
        }
        let _ = ser.take(TokenKind::ListEnd)?;
        proof {
            assert(done + Seq::<TokenView>::empty() =~= done);
        }
        Ok(out)
    }
}

/// The count of a list that is read into an array of `len` items, which
/// must be `len`.
pub open spec fn parsed_len(tokens: Seq<TokenView>, pos: int, len: usize) -> Result<
    usize,
    TdfError,
> {
    match parsed_count(tokens, pos, TokenKind::ListStart) {
        Err(e) => Err(e),
        Ok(n) => if n == len {
            Ok(n)
        } else {
            Err(TdfError::SizeMismatch { declared: n, actual: len, offset: pos as usize })
        },
    }
}

impl<T: Serialize, const N: usize> Serialize for [T; N] {
    /// A list of exactly `N` items: `ListStart`, the type marker of `T`,
    /// the items, `ListEnd`.
    open spec fn parsed(tokens: Seq<TokenView>, pos: int) -> Parsed {
        match parsed_len(tokens, pos, N) {
            Err(e) => Err(e),
            Ok(n) => match parsed_marker::<T>(tokens, pos + 1) {
                Err(e) => Err(e),
                Ok(start) => match parsed_items::<T>(tokens, start, n as nat) {
                    Err(e) => Err(e),
                    Ok((items, end)) => match expect(tokens, end, TokenKind::ListEnd) {
                        Err(e) => Err(e),
                        Ok(stop) => Ok(
                            (
                                seq![TokenView::ListStart(n), T::marker()] + (items + seq![
                                    TokenView::ListEnd,
                                ]),
                                stop,
                            ),
                        ),
                    },
                },
            },
        }
    }

    fn serialize(ser: &mut RTDFSerializer) -> (result: Result<Self, TdfError>) {
        let ghost tokens = ser.stream@;
        let ghost pos = ser.stream.1 as int;
        let at = ser.stream.1;
        let size = ser.take_count(TokenKind::ListStart)?;
        if size != N {
            return Err(TdfError::SizeMismatch { declared: size, actual: N, offset: at });
        }
        ser.take_marker::<T>()?;
        let mut out: Vec<T> = Vec::new();
        let ghost mut done: Seq<TokenView> = Seq::empty();
        let mut i: usize = 0;
        while i < size
            invariant
                tokens == old(ser).stream@,
                pos == old(ser).stream.1,
                ser.stream@ == tokens,
                i <= size,
                size == N,
                out@.len() == i,
                expansion_from(out@, 0) == Ok::<Seq<TokenView>, TdfError>(done),
                parsed_len(tokens, pos, N) == Ok::<usize, TdfError>(size),
                parsed_marker::<T>(tokens, pos + 1) == Ok::<int, TdfError>(pos + 2),
                parsed_items::<T>(tokens, pos + 2, size as nat) == led_by(
                    done,
                    parsed_items::<T>(tokens, ser.stream.1 as int, (size - i) as nat),
                ),
            decreases size - i,
        {
            let ghost here = ser.stream.1 as int;
            let item = T::serialize(ser)?;
            proof {
                let first = T::parsed(tokens, here)->Ok_0.0;
                let next = parsed_items::<T>(tokens, ser.stream.1 as int, (size - i - 1) as nat);
                if next is Ok {
                    assert(done + (first + next->Ok_0.0) =~= (done + first) + next->Ok_0.0);
                }
                lemma_expansion_push(out@, item, 0);
                done = done + first;
            }
            out.push(item);
            i += 1;
        }
        let _ = ser.take(TokenKind::ListEnd)?;
        proof {
            assert(done + Seq::<TokenView>::empty() =~= done);
        }
        match array_of::<T, N>(out) {
            Some(array) => Ok(array),
            None => Err(TdfError::SizeMismatch { declared: size, actual: N, offset: at }),
        }
    }
}

impl<K: Serialize, V: Serialize> Serialize for Vec<(K, V)> {
    /// A pair list: `PairListStart`, the type markers of `K` and of `V`,
    /// the pairs, `PairListEnd`.
    open spec fn parsed(tokens: Seq<TokenView>, pos: int) -> Parsed {
        match parsed_count(tokens, pos, TokenKind::PairListStart) {
            Err(e) => Err(e),
            Ok(n) => match parsed_marker::<K>(tokens, pos + 1) {
                Err(e) => Err(e),
                Ok(_) => match parsed_marker::<V>(tokens, pos + 2) {
                    Err(e) => Err(e),
                    Ok(start) => match parsed_pairs::<K, V>(tokens, start, n as nat) {
                        Err(e) => Err(e),
                        Ok((pairs, end)) => match expect(tokens, end, TokenKind::PairListEnd) {
                            Err(e) => Err(e),
                            Ok(stop) => Ok(
                                (
                                    seq![TokenView::PairListStart(n), K::marker(), V::marker()] + (
                                    pairs + seq![TokenView::PairListEnd]),
                                    stop,
                                ),
                            ),
                        },
                    },
                },
            },
        }
    }

    fn serialize(ser: &mut RTDFSerializer) -> (result: Result<Self, TdfError>) {
        let ghost tokens = ser.stream@;
        let ghost pos = ser.stream.1 as int;
        let size = ser.take_count(TokenKind::PairListStart)?;
        ser.take_marker::<K>()?;
        ser.take_marker::<V>()?;
        let mut out: Vec<(K, V)> = Vec::new();
        let ghost mut done: Seq<TokenView> = Seq::empty();
        let mut i: usize = 0;
        while i < size
            invariant
                tokens == old(ser).stream@,
                pos == old(ser).stream.1,
                ser.stream@ == tokens,
                i <= size,
                out@.len() == i,
                pairs_from(out@, 0) == Ok::<Seq<TokenView>, TdfError>(done),
                parsed_count(tokens, pos, TokenKind::PairListStart) == Ok::<usize, TdfError>(size),
                parsed_marker::<K>(tokens, pos + 1) == Ok::<int, TdfError>(pos + 2),
                parsed_marker::<V>(tokens, pos + 2) == Ok::<int, TdfError>(pos + 3),
                parsed_pairs::<K, V>(tokens, pos + 3, size as nat) == led_by(
                    done,
                    parsed_pairs::<K, V>(tokens, ser.stream.1 as int, (size - i) as nat),
                ),
            decreases size - i,
        {
            let ghost here = ser.stream.1 as int;
            let key = K::serialize(ser)?;
            let ghost mid = ser.stream.1 as int;
            let value = V::serialize(ser)?;
            proof {
                let pair = K::parsed(tokens, here)->Ok_0.0 + V::parsed(tokens, mid)->Ok_0.0;
                let next = parsed_pairs::<K, V>(
                    tokens,
                    ser.stream.1 as int,
                    (size - i - 1) as nat,
                );
                if next is Ok {
                    assert(done + (pair + next->Ok_0.0) =~= (done + pair) + next->Ok_0.0);
                }
                lemma_pairs_push(out@, (key, value), 0);
                done = done + pair;
            }
            out.push((key, value));
            i += 1;
        }
        let _ = ser.take(TokenKind::PairListEnd)?;
        proof {
            assert(done + Seq::<TokenView>::empty() =~= done);
        }
        Ok(out)
    }
}

impl Serialize for IntList {
    /// A list of integers: `IntListStart`, the integers, `IntListEnd`.
    open spec fn parsed(tokens: Seq<TokenView>, pos: int) -> Parsed {
        match parsed_count(tokens, pos, TokenKind::IntListStart) {
            Err(e) => Err(e),
            Ok(n) => match parsed_ints(tokens, pos + 1, n as nat) {
                Err(e) => Err(e),
                Ok((items, end)) => match expect(tokens, end, TokenKind::IntListEnd) {
                    Err(e) => Err(e),
                    Ok(stop) => Ok(
                        (
                            seq![TokenView::IntListStart(n)] + items + seq![TokenView::IntListEnd],
                            stop,
                        ),
                    ),
                },
            },
        }
    }

    fn serialize(ser: &mut RTDFSerializer) -> (result: Result<Self, TdfError>) {
        let ghost tokens = ser.stream@;
        let ghost pos = ser.stream.1 as int;
        let size = ser.take_count(TokenKind::IntListStart)?;
        let mut out: Vec<i64> = Vec::new();
        let mut i: usize = 0;
        while i < size
            invariant
                tokens == old(ser).stream@,
                pos == old(ser).stream.1,
                ser.stream@ == tokens,
                i <= size,
                out@.len() == i,
                parsed_count(tokens, pos, TokenKind::IntListStart) == Ok::<usize, TdfError>(size),
                parsed_ints(tokens, pos + 1, size as nat) == led_by(
                    ints_from(out@, 0),
                    parsed_ints(tokens, ser.stream.1 as int, (size - i) as nat),
                ),
            decreases size - i,
        {
            let item = ser.take_int()?;
            proof {
                let done = ints_from(out@, 0);
                let first = seq![TokenView::Int(item)];
                let next = parsed_ints(tokens, ser.stream.1 as int, (size - i - 1) as nat);
                if next is Ok {
                    assert(done + (first + next->Ok_0.0) =~= (done + first) + next->Ok_0.0);
                }
                lemma_ints_push(out@, item, 0);
            }
            out.push(item);
            i += 1;
        }
        let _ = ser.take(TokenKind::IntListEnd)?;
        proof {
            assert(ints_from(out@, 0) + Seq::<TokenView>::empty() =~= ints_from(out@, 0));
        }
        Ok(IntList(out))
    }
}

impl Serialize for ObjectId {
    open spec fn parsed(tokens: Seq<TokenView>, pos: int) -> Parsed {
        parsed_ints(tokens, pos, 3)
    }

    fn serialize(ser: &mut RTDFSerializer) -> (result: Result<Self, TdfError>) {
        proof {
            reveal_with_fuel(parsed_ints, 4);
        }
        let c1 = ser.take_int()?;
        let c2 = ser.take_int()?;
        let c3 = ser.take_int()?;
        proof {
            assert(seq![TokenView::Int(c1)] + (seq![TokenView::Int(c2)] + (seq![
                TokenView::Int(c3),
            ] + Seq::empty())) =~= seq![
                TokenView::Int(c1),
                TokenView::Int(c2),
                TokenView::Int(c3),
            ]);
        }
        Ok(ObjectId(c1, c2, c3))
    }
}

impl Serialize for ObjectType {
    open spec fn parsed(tokens: Seq<TokenView>, pos: int) -> Parsed {
        parsed_ints(tokens, pos, 2)
    }

    fn serialize(ser: &mut RTDFSerializer) -> (result: Result<Self, TdfError>) {
        proof {
            reveal_with_fuel(parsed_ints, 3);
        }
        let c1 = ser.take_int()?;
        let c2 = ser.take_int()?;
        proof {
            assert(seq![TokenView::Int(c1)] + (seq![TokenView::Int(c2)] + Seq::empty()) =~= seq![
                TokenView::Int(c1),
                TokenView::Int(c2),
            ]);
        }
        Ok(ObjectType(c1, c2))
    }
}

/// The index behind the label at `pos`, which must pack as `name` does.
pub open spec fn expect_label(tokens: Seq<TokenView>, pos: int, name: Seq<char>) -> Result<
    int,
    TdfError,
> {
    match field_label(tokens, pos) {
        Err(e) => Err(e),
        Ok(label) => if code_of(label) == code_of(name) {
            Ok(pos + 1)
        } else {
            Err(
                TdfError::LabelMismatch {
                    expected: code_of(name),
                    observed: code_of(label),
                    offset: pos as usize,
                },
            )
        },
    }
}

/// An address from `pos` on: a map of the fields `IP`, `MACI` and `PORT`.
pub open spec fn parsed_address(tokens: Seq<TokenView>, pos: int) -> Parsed {
    match expect(tokens, pos, TokenKind::MapStart) {
        Err(e) => Err(e),
        Ok(at1) => match named_field::<u64>(tokens, at1, "IP  "@) {
            Err(e) => Err(e),
            Ok((ip, at2)) => match named_field::<u64>(tokens, at2, "MACI"@) {
                Err(e) => Err(e),
                Ok((maci, at3)) => match named_field::<u64>(tokens, at3, "PORT"@) {
                    Err(e) => Err(e),
                    Ok((port, at4)) => match expect(tokens, at4, TokenKind::MapEnd) {
                        Err(e) => Err(e),
                        Ok(end) => Ok(
                            (
                                seq![TokenView::MapStart] + field_canon(
                                    "IP  "@,
                                    TokenView::IntType,
                                    ip,
                                ) + field_canon("MACI"@, TokenView::IntType, maci) + field_canon(
                                    "PORT"@,
                                    TokenView::IntType,
                                    port,
                                ) + seq![TokenView::MapEnd],
                                end,
                            ),
                        ),
                    },
                },
            },
        }
    }
}

impl Serialize for IpAddress {
    open spec fn parsed(tokens: Seq<TokenView>, pos: int) -> Parsed {
        parsed_address(tokens, pos)
    }

    fn serialize(ser: &mut RTDFSerializer) -> (result: Result<Self, TdfError>) {
        ser.map_start()?;
        let ip = ser.ser_field_named::<u64>("IP  ")?;
        let maci = ser.ser_field_named::<u64>("MACI")?;
        let port = ser.ser_field_named::<u64>("PORT")?;
        ser.map_end()?;
        Ok(Self { port, ip, maci })
    }
}

/// The opening of the payload of a union from `pos` on: the label `name`,
/// the marker `MapType` and `MapStart`.
pub open spec fn payload_start(tokens: Seq<TokenView>, pos: int, name: Seq<char>) -> Result<
    int,
    TdfError,
> {
    match expect_label(tokens, pos, name) {
        Err(e) => Err(e),
        Ok(at1) => match expect(tokens, at1, TokenKind::MapType) {
            Err(e) => Err(e),
            Ok(at2) => expect(tokens, at2, TokenKind::MapStart),
        },
    }
}

/// The end of the payload of a union from `pos` on: `MapEnd` and
/// `UnionEnd`.
pub open spec fn payload_end(tokens: Seq<TokenView>, pos: int) -> Result<int, TdfError> {
    match expect(tokens, pos, TokenKind::MapEnd) {
        Err(e) => Err(e),
        Ok(at1) => expect(tokens, at1, TokenKind::UnionEnd),
    }
}

/// The payload of an Xbox client address from `pos` on.
pub open spec fn parsed_xbox_client(tokens: Seq<TokenView>, pos: int) -> Parsed {
    match payload_start(tokens, pos, "DLSC"@) {
        Err(e) => Err(e),
        Ok(at1) => match named_field::<i64>(tokens, at1, "DCTX"@) {
            Err(e) => Err(e),
            Ok((dctx, at2)) => match payload_end(tokens, at2) {
                Err(e) => Err(e),
                Ok(end) => Ok(
                    (
                        payload_head(UnionType::XboxClientAddr, "DLSC"@) + field_canon(
                            "DCTX"@,
                            TokenView::IntType,
                            dctx,
                        ) + payload_tail(),
                        end,
                    ),
                ),
            },
        },
    }
}

/// The payload of a pair of addresses from `pos` on.
pub open spec fn parsed_ip_pair(tokens: Seq<TokenView>, pos: int) -> Parsed {
    match payload_start(tokens, pos, "VALU"@) {
        Err(e) => Err(e),
        Ok(at1) => match named_field::<IpAddress>(tokens, at1, "INIP"@) {
            Err(e) => Err(e),
            Ok((internal, at2)) => match named_field::<IpAddress>(tokens, at2, "EXIP"@) {
                Err(e) => Err(e),
                Ok((external, at3)) => match named_field::<i64>(tokens, at3, "MACI"@) {
                    Err(e) => Err(e),
                    Ok((mac, at4)) => match payload_end(tokens, at4) {
                        Err(e) => Err(e),
                        Ok(end) => Ok(
                            (
                                payload_head(UnionType::IpPairAddr, "VALU"@) + field_canon(
                                    "INIP"@,
                                    TokenView::MapType,
                                    internal,
                                ) + field_canon("EXIP"@, TokenView::MapType, external)
                                    + field_canon("MACI"@, TokenView::IntType, mac)
                                    + payload_tail(),
                                end,
                            ),
                        ),
                    },
                },
            },
        },
    }
}

/// The payload of one address from `pos` on.
pub open spec fn parsed_ip_addr(tokens: Seq<TokenView>, pos: int) -> Parsed {
    match payload_start(tokens, pos, "VALU"@) {
        Err(e) => Err(e),
        Ok(at1) => match named_field::<IpAddress>(tokens, at1, "ADDR"@) {
            Err(e) => Err(e),
            Ok((addr, at2)) => match payload_end(tokens, at2) {
                Err(e) => Err(e),
                Ok(end) => Ok(
                    (
                        payload_head(UnionType::IpAddr, "VALU"@) + field_canon(
                            "ADDR"@,
                            TokenView::MapType,
                            addr,
                        ) + payload_tail(),
                        end,
                    ),
                ),
            },
        },
    }
}

/// A union from `pos` on: `UnionStart` and what its variant asks for. The
/// label of a payload must be the one of its variant; the variants
/// without an agreed payload are refused.
pub open spec fn parsed_union(tokens: Seq<TokenView>, pos: int) -> Parsed {
    match token_at(tokens, pos) {
        Err(e) => Err(e),
        Ok(TokenView::UnionStart(variant)) => match variant {
            UnionType::Unset => match expect(tokens, pos + 1, TokenKind::UnionEnd) {
                Err(e) => Err(e),
                Ok(end) => Ok(
                    (seq![TokenView::UnionStart(UnionType::Unset), TokenView::UnionEnd], end),
                ),
            },
            UnionType::XboxClientAddr => parsed_xbox_client(tokens, pos + 1),
            UnionType::IpPairAddr => parsed_ip_pair(tokens, pos + 1),
            UnionType::IpAddr => parsed_ip_addr(tokens, pos + 1),
            _ => Err(
                TdfError::Unsupported { feature: Feature::UnionVariant, offset: pos as usize },
            ),
        },
        Ok(t) => Err(mismatch(TokenKind::UnionStart, t, pos)),
    }
}

impl RTDFSerializer {
    /// Takes the label at the cursor, which must be `name`.
    fn take_named(&mut self, name: &str) -> (result: Result<(), TdfError>)
        ensures
            final(self).stream@ == old(self).stream@,
            match expect_label(old(self).stream@, old(self).stream.1 as int, name@) {
                Ok(end) => result is Ok && final(self).stream.1 == end,
                Err(e) => result == Err::<(), TdfError>(e),
            },
    {
        let at = self.stream.1;
        let label_string = self.take_label()?;
        let observed = code(label_string.as_str().as_bytes());
        let expected = code(name.as_bytes());
        if observed != expected {
            return Err(TdfError::LabelMismatch { expected, observed, offset: at });
        }
        Ok(())
    }

    /// Takes the opening of the payload of a union.
    fn enter_payload(&mut self, name: &str) -> (result: Result<(), TdfError>)
        ensures
            final(self).stream@ == old(self).stream@,
            match payload_start(old(self).stream@, old(self).stream.1 as int, name@) {
                Ok(end) => result is Ok && final(self).stream.1 == end,
                Err(e) => result == Err::<(), TdfError>(e),
            },
    {
        self.take_named(name)?;
        let _ = self.take(TokenKind::MapType)?;
        self.map_start()
    }

    /// Takes the end of the payload of a union.
    fn leave_payload(&mut self) -> (result: Result<(), TdfError>)
        ensures
            final(self).stream@ == old(self).stream@,
            match payload_end(old(self).stream@, old(self).stream.1 as int) {
                Ok(end) => result is Ok && final(self).stream.1 == end,
                Err(e) => result == Err::<(), TdfError>(e),
            },
    {
        self.map_end()?;
        let _ = self.take(TokenKind::UnionEnd)?;
        Ok(())
    }

    /// Reads the payload of an Xbox client address.
    fn xbox_client(&mut self) -> (result: Result<Union, TdfError>)
        ensures
            reads(
                *old(self),
                *final(self),
                result,
                parsed_xbox_client(old(self).stream@, old(self).stream.1 as int),
            ),
    {
        self.enter_payload("DLSC")?;
        let dctx = self.ser_field_named::<i64>("DCTX")?;
        self.leave_payload()?;
        Ok(Union::XboxClientAddr { dctx })
    }

    /// Reads the payload of a pair of addresses.
#[verifier::rlimit(40)]
    fn ip_pair(&mut self) -> (result: Result<Union, TdfError>)
        ensures
            reads(
                *old(self),
                *final(self),
                result,
                parsed_ip_pair(old(self).stream@, old(self).stream.1 as int),
            ),
    {
        self.enter_payload("VALU")?;
        let internal = self.ser_field_named::<IpAddress>("INIP")?;
        let external = self.ser_field_named::<IpAddress>("EXIP")?;
        let mac_addr = self.ser_field_named::<i64>("MACI")?;
        self.leave_payload()?;
        Ok(Union::IpPairAddr { internal, external, mac_addr })
    }

    /// Reads the payload of one address.
    fn ip_addr(&mut self) -> (result: Result<Union, TdfError>)
        ensures
            reads(
                *old(self),
                *final(self),
                result,
                parsed_ip_addr(old(self).stream@, old(self).stream.1 as int),
            ),
    {
        self.enter_payload("VALU")?;
        let addr = self.ser_field_named::<IpAddress>("ADDR")?;
        self.leave_payload()?;
        Ok(Union::IpAddr { addr })
    }
}

impl Serialize for Union {
    open spec fn parsed(tokens: Seq<TokenView>, pos: int) -> Parsed {
        parsed_union(tokens, pos)
    }

    fn serialize(ser: &mut RTDFSerializer) -> (result: Result<Self, TdfError>) {
        let at = ser.stream.1;
        let value = ser.stream.next()?;
        let union_type = match value {
            TDFToken::UnionStart(t) => t,
            _ => {
                return Err(
                    TdfError::TypeMismatch {
                        expected: TokenKind::UnionStart,
                        observed: value.kind(),
                        offset: at,
                    },
                );
            },
        };
        match union_type {
            UnionType::Unset => {
                let _ = ser.take(TokenKind::UnionEnd)?;
                Ok(Union::Unset)
            },
            UnionType::XboxClientAddr => ser.xbox_client(),
            UnionType::IpPairAddr => ser.ip_pair(),
            UnionType::IpAddr => ser.ip_addr(),
            _ => Err(TdfError::Unsupported { feature: Feature::UnionVariant, offset: at }),
        }
    }
}

impl Serialize for Localization {
    /// An integer whose four low bytes, highest first, are UTF-8.
    open spec fn parsed(tokens: Seq<TokenView>, pos: int) -> Parsed {
        match parsed_int(tokens, pos) {
            Err(e) => Err(e),
            Ok((v, end)) => if valid_utf8(be_bytes(v as u32)) {
                Ok((seq![TokenView::Int((v as u32) as i64)], end))
            } else {
                Err(TdfError::InvalidUtf8 { offset: pos as usize })
            },
        }
    }

    fn serialize(ser: &mut RTDFSerializer) -> (result: Result<Self, TdfError>) {
        let at = ser.stream.1;
        let num = ser.take_int()? as u32;
        let mut bytes: Vec<u8> = Vec::new();
        bytes.push((num / 0x100_0000) as u8);
        bytes.push(((num / 0x1_0000) % 0x100) as u8);
        bytes.push(((num / 0x100) % 0x100) as u8);
        bytes.push((num % 0x100) as u8);
        assert(bytes@ =~= be_bytes(num));
        match utf8_text(bytes) {
            Some(loc) => {
                proof {
                    let b = be_bytes(num);
                    decode_utf8_encode_utf8(b);
                    lemma_be_bytes(num, b[0], b[1], b[2], b[3]);
                    assert(seq![b[0], b[1], b[2], b[3]] =~= b);
                }
                Ok(Localization(loc))
            },
            None => Err(TdfError::InvalidUtf8 { offset: at }),
        }
    }
}

/// A generic from `pos` on: `GenericStart` and, if it is valid, its id
/// and either nothing or a label with an integer or a string; then
/// `GenericEnd`.
pub open spec fn parsed_generic(tokens: Seq<TokenView>, pos: int) -> Parsed {
    match token_at(tokens, pos) {
        Err(e) => Err(e),
        Ok(TokenView::GenericStart(valid)) => if !valid {
            match expect(tokens, pos + 1, TokenKind::GenericEnd) {
                Err(e) => Err(e),
                Ok(end) => Ok((generic_tokens(Generic::Invalid), end)),
            }
        } else {
            match parsed_int(tokens, pos + 1) {
                Err(e) => Err(e),
                Ok((id, at2)) => match token_at(tokens, at2) {
                    Err(e) => Err(e),
                    Ok(TokenView::GenericEnd) => Ok(
                        (generic_tokens(Generic::Valid(id, GenericContent::Empty)), at2 + 1),
                    ),
                    Ok(TokenView::Label(label)) => parsed_content(
                        tokens,
                        at2 + 1,
                        seq![
                            TokenView::GenericStart(true),
                            TokenView::Int(id),
                            TokenView::Label(label),
                        ],
                    ),
                    Ok(t) => Err(mismatch(TokenKind::Label, t, at2)),
                },
            }
        },
        Ok(t) => Err(mismatch(TokenKind::GenericStart, t, pos)),
    }
}

/// The content of a generic from `pos` on, behind its label: the type
/// marker of an integer or of a string, the value, `GenericEnd`. `head`
/// holds the tokens of the generic before it.
pub open spec fn parsed_content(tokens: Seq<TokenView>, pos: int, head: Seq<TokenView>) -> Parsed {
    match token_at(tokens, pos) {
        Err(e) => Err(e),
        Ok(TokenView::IntType) => match i64::parsed(tokens, pos + 1) {
            Err(e) => Err(e),
            Ok((value, at2)) => match expect(tokens, at2, TokenKind::GenericEnd) {
                Err(e) => Err(e),
                Ok(end) => Ok(
                    (head + seq![TokenView::IntType] + value + seq![TokenView::GenericEnd], end),
                ),
            },
        },
        Ok(TokenView::StringType) => match String::parsed(tokens, pos + 1) {
            Err(e) => Err(e),
            Ok((value, at2)) => match expect(tokens, at2, TokenKind::GenericEnd) {
                Err(e) => Err(e),
                Ok(end) => Ok(
                    (head + seq![TokenView::StringType] + value + seq![TokenView::GenericEnd], end),
                ),
            },
        },
        Ok(t) => Err(
            TdfError::Unsupported { feature: Feature::GenericPayload, offset: pos as usize },
        ),
    }
}

impl RTDFSerializer {
    /// Reads the content of the generic with the id `id` and the label
    /// `label`.
    fn content(&mut self, id: i64, label: String) -> (result: Result<Generic, TdfError>)
        ensures
            reads(
                *old(self),
                *final(self),
                result,
                parsed_content(
                    old(self).stream@,
                    old(self).stream.1 as int,
                    seq![
                        TokenView::GenericStart(true),
                        TokenView::Int(id),
                        TokenView::Label(label@),
                    ],
                ),
            ),
    {
        let ghost head = seq![
            TokenView::GenericStart(true),
            TokenView::Int(id),
            TokenView::Label(label@),
        ];
        let at = self.stream.1;
        let value_type = self.stream.next()?;
        match value_type {
            TDFToken::IntType => {
                let v = i64::serialize(self)?;
                let _ = self.take(TokenKind::GenericEnd)?;
                let content = GenericContent::Labeled(label, GenericType::Int(v));
                let generic = Generic::Valid(id, content);
                assert(generic_tokens(generic) =~= head + seq![TokenView::IntType] + seq![
                    TokenView::Int(v),
                ] + seq![TokenView::GenericEnd]);
                Ok(generic)
            },
            TDFToken::StringType => {
                let text = String::serialize(self)?;
                let _ = self.take(TokenKind::GenericEnd)?;
                let ghost bytes = encode_utf8(text@);
                let generic = Generic::Valid(
                    id,
                    GenericContent::Labeled(label, GenericType::String(text)),
                );
                assert(generic_tokens(generic) =~= head + seq![TokenView::StringType] + seq![
                    TokenView::String(bytes),
                ] + seq![TokenView::GenericEnd]);
                Ok(generic)
            },
            _ => Err(TdfError::Unsupported { feature: Feature::GenericPayload, offset: at }),
        }
    }
}

impl Serialize for Generic {
    open spec fn parsed(tokens: Seq<TokenView>, pos: int) -> Parsed {
        parsed_generic(tokens, pos)
    }

    fn serialize(ser: &mut RTDFSerializer) -> (result: Result<Self, TdfError>) {
        let at = ser.stream.1;
        let value = ser.stream.next()?;
        let is_valid = match value {
            TDFToken::GenericStart(t) => t,
            _ => {
                return Err(
                    TdfError::TypeMismatch {
                        expected: TokenKind::GenericStart,
                        observed: value.kind(),
                        offset: at,
                    },
                );
            },
        };
        if !is_valid {
            let _ = ser.take(TokenKind::GenericEnd)?;
            return Ok(Generic::Invalid);
        }
        let tdf_id = ser.take_int()?;
        let label_at = ser.stream.1;
        let label = ser.stream.next()?;
        match label {
            TDFToken::GenericEnd => Ok(Generic::Valid(tdf_id, GenericContent::Empty)),
            TDFToken::Label(label_string) => ser.content(tdf_id, label_string),
            _ => Err(
                TdfError::TypeMismatch {
                    expected: TokenKind::Label,
                    observed: label.kind(),
                    offset: label_at,
                },
            ),
        }
    }
}

} // verus!
