//! The binary encoder: tokens are written out as bytes.
//!
//! What the encoder writes for a token buffer is defined by the functions
//! `encode_*` on sequences of tokens; the methods of [`BTDFSerializer`]
//! compute them. The encoder writes the canonical form only: a string
//! always with its length, a pair list always with its true value type.

use vstd::prelude::*;
use vstd::utf8::encode_utf8;
use vstd::arithmetic::div_mod::{
    lemma_div_denominator, lemma_fundamental_div_mod, lemma_fundamental_div_mod_converse,
};
use crate::btdf::label::{pack, pack_label};
use crate::btdf::varint::{write_tail, write_varint, VARSIZE_MORE, VARSIZE_NEGATIVE};
use crate::error::{Feature, TdfError, TokenKind};
use crate::outside::{be_u32, write_be_u32};
use crate::token::{TDFSerializer, TDFToken, TDFTokenStream, TokenView, UnionType};

verus! {

/// What encoding gives: the bytes written and the index of the next token,
/// or the first error met.
pub type Encoded = Result<(Seq<u8>, int), TdfError>;

/// `encoded` with `bytes` in front of its bytes.
pub open spec fn after_bytes(bytes: Seq<u8>, encoded: Encoded) -> Encoded {
    match encoded {
        Ok((more, end)) => Ok((bytes + more, end)),
        Err(e) => Err(e),
    }
}

/// Whether a writing that began at token `pos` and ended at token `end`
/// took at least one token and stayed within the buffer. Every successful
/// writing of a value does.
pub open spec fn consumes(tokens: Seq<TokenView>, pos: int, end: int) -> bool {
    pos < end <= tokens.len()
}

/// The token at index `pos`, or the error of reading past the end.
pub open spec fn token_at(tokens: Seq<TokenView>, pos: int) -> Result<TokenView, TdfError> {
    if 0 <= pos < tokens.len() {
        Ok(tokens[pos])
    } else {
        Err(TdfError::EndOfStream { offset: pos as usize })
    }
}

/// The error for the token `found` at index `pos` where one of the shape
/// `expected` was due.
pub open spec fn mismatch(expected: TokenKind, found: TokenView, pos: int) -> TdfError {
    TdfError::TypeMismatch { expected, observed: found.kind(), offset: pos as usize }
}

/// The four bytes of a number, highest first.
pub open spec fn be_bytes(n: u32) -> Seq<u8> {
    seq![
        (n / 0x100_0000) as u8,
        ((n / 0x1_0000) % 0x100) as u8,
        ((n / 0x100) % 0x100) as u8,
        (n % 0x100) as u8,
    ]
}

/// Four bytes are the big-endian form of a number exactly if they are its
/// four bytes, highest first.
pub proof fn lemma_be_bytes(n: u32, b0: u8, b1: u8, b2: u8, b3: u8)
    ensures
        be_u32(b0, b1, b2, b3) == n <==> seq![b0, b1, b2, b3] == be_bytes(n),
{
    let m = be_bytes(n);
    let top2 = b0 as int * 0x100 + b1 as int;
    let top3 = top2 * 0x100 + b2 as int;
    let whole = top3 * 0x100 + b3 as int;
    assert(whole == b0 as int * 0x100_0000 + b1 as int * 0x1_0000 + b2 as int * 0x100 + b3 as int);
    assert(0 <= whole < 0x1_0000_0000);
    assert(be_u32(b0, b1, b2, b3) == whole);
    // the bytes of `whole`
    lemma_fundamental_div_mod_converse(whole, 0x100, top3, b3 as int);
    lemma_fundamental_div_mod_converse(top3, 0x100, top2, b2 as int);
    lemma_fundamental_div_mod_converse(top2, 0x100, b0 as int, b1 as int);
    lemma_fundamental_div_mod_converse(whole, 0x1_0000, top2, b2 as int * 0x100 + b3 as int);
    lemma_fundamental_div_mod_converse(
        whole,
        0x100_0000,
        b0 as int,
        b1 as int * 0x1_0000 + b2 as int * 0x100 + b3 as int,
    );
    if be_u32(b0, b1, b2, b3) == n {
        assert(seq![b0, b1, b2, b3] =~= m);
    }
    if seq![b0, b1, b2, b3] == m {
        assert(b0 == m[0] && b1 == m[1] && b2 == m[2] && b3 == m[3]);
        let x = n as int;
        lemma_fundamental_div_mod(x, 0x100);
        lemma_fundamental_div_mod(x / 0x100, 0x100);
        lemma_fundamental_div_mod(x / 0x1_0000, 0x100);
        assert((x / 0x100) / 0x100 == x / 0x1_0000) by {
            lemma_div_denominator(x, 0x100, 0x100);
        }
        assert((x / 0x1_0000) / 0x100 == x / 0x100_0000) by {
            lemma_div_denominator(x, 0x1_0000, 0x100);
        }
        assert(x / 0x100_0000 < 0x100);
        assert((x / 0x1_0000) % 0x100 == b1);
        assert(n == whole);
    }
}

/// The bytes of a count or length, or the error for one that the wire
/// integer cannot carry. `pos` is the index of the token that holds it.
pub open spec fn encode_count(n: int, pos: int) -> Result<Seq<u8>, TdfError> {
    if 0 <= n <= i64::MAX {
        Ok(write_varint(n as i64))
    } else {
        Err(TdfError::Unsupported { feature: Feature::OversizedLength, offset: pos as usize })
    }
}

/// The closing token of shape `closer` at index `pos`, for which `bytes`
/// are written.
pub open spec fn encode_end(
    tokens: Seq<TokenView>,
    pos: int,
    closer: TokenKind,
    bytes: Seq<u8>,
) -> Encoded {
    match token_at(tokens, pos) {
        Err(e) => Err(e),
        Ok(t) => if t.kind() == closer {
            Ok((bytes, pos + 1))
        } else {
            Err(mismatch(closer, t, pos))
        },
    }
}

/// An `Int` token at `pos`.
pub open spec fn encode_int(tokens: Seq<TokenView>, pos: int) -> Encoded {
    match token_at(tokens, pos) {
        Err(e) => Err(e),
        Ok(TokenView::Int(v)) => Ok((write_varint(v), pos + 1)),
        Ok(t) => Err(mismatch(TokenKind::Int, t, pos)),
    }
}

/// `count` `Int` tokens in a row from `pos` on.
pub open spec fn encode_ints(tokens: Seq<TokenView>, pos: int, count: nat) -> Encoded
    decreases count,
{
    if count == 0 {
        Ok((Seq::empty(), pos))
    } else {
        match encode_int(tokens, pos) {
            Err(e) => Err(e),
            Ok((first, next)) => after_bytes(first, encode_ints(tokens, next, (count - 1) as nat)),
        }
    }
}

/// The bytes of a string: its length and one, its bytes, a NUL.
pub open spec fn string_bytes(text: Seq<u8>) -> Seq<u8> {
    write_varint((text.len() + 1) as i64) + text + seq![0u8]
}

/// The bytes of a blob: its length, its bytes.
pub open spec fn blob_bytes(data: Seq<u8>) -> Seq<u8> {
    write_varint(data.len() as i64) + data
}

/// A `String` token at `pos`.
#[verifier::opaque]
pub open spec fn encode_string(tokens: Seq<TokenView>, pos: int) -> Encoded {
    match token_at(tokens, pos) {
        Err(e) => Err(e),
        Ok(TokenView::String(text)) => if text.len() < i64::MAX {
            Ok((string_bytes(text), pos + 1))
        } else {
            Err(TdfError::Unsupported { feature: Feature::OversizedLength, offset: pos as usize })
        },
        Ok(t) => Err(mismatch(TokenKind::String, t, pos)),
    }
}

/// A `Blob` token at `pos`.
#[verifier::opaque]
pub open spec fn encode_blob(tokens: Seq<TokenView>, pos: int) -> Encoded {
    match token_at(tokens, pos) {
        Err(e) => Err(e),
        Ok(TokenView::Blob(data)) => if data.len() <= i64::MAX {
            Ok((blob_bytes(data), pos + 1))
        } else {
            Err(TdfError::Unsupported { feature: Feature::OversizedLength, offset: pos as usize })
        },
        Ok(t) => Err(mismatch(TokenKind::Blob, t, pos)),
    }
}

/// A `Float` token at `pos`.
#[verifier::opaque]
pub open spec fn encode_float(tokens: Seq<TokenView>, pos: int) -> Encoded {
    match token_at(tokens, pos) {
        Err(e) => Err(e),
        Ok(TokenView::Float(bits)) => Ok((be_bytes(bits), pos + 1)),
        Ok(t) => Err(mismatch(TokenKind::Float, t, pos)),
    }
}

/// A list of integers from `pos` on: `IntListStart`, the integers,
/// `IntListEnd`.
#[verifier::opaque]
pub open spec fn encode_int_list(tokens: Seq<TokenView>, pos: int) -> Encoded {
    match token_at(tokens, pos) {
        Err(e) => Err(e),
        Ok(TokenView::IntListStart(n)) => match encode_count(n as int, pos) {
            Err(e) => Err(e),
            Ok(count) => match encode_ints(tokens, pos + 1, n as nat) {
                Err(e) => Err(e),
                Ok((items, end)) => after_bytes(
                    count + items,
                    encode_end(tokens, end, TokenKind::IntListEnd, Seq::empty()),
                ),
            },
        },
        Ok(t) => Err(mismatch(TokenKind::IntListStart, t, pos)),
    }
}

/// The value of type `ty` whose tokens begin at `pos`. `root` says whether
/// the value is the document itself; a root map gets no closing NUL.
pub open spec fn encode_value(
    tokens: Seq<TokenView>,
    pos: int,
    ty: TokenView,
    root: bool,
) -> Encoded
    decreases tokens.len() - pos, 2nat,
{
    match ty {
        TokenView::IntType => encode_int(tokens, pos),
        TokenView::StringType => encode_string(tokens, pos),
        TokenView::BlobType => encode_blob(tokens, pos),
        TokenView::MapType => encode_map(tokens, pos, root),
        TokenView::ListType => encode_list(tokens, pos),
        TokenView::PairListType => encode_pair_list(tokens, pos),
        TokenView::UnionType => encode_union(tokens, pos),
        TokenView::IntListType => encode_int_list(tokens, pos),
        TokenView::ObjectTypeType => encode_ints(tokens, pos, 2),
        TokenView::ObjectIdType => encode_ints(tokens, pos, 3),
        TokenView::FloatType => encode_float(tokens, pos),
        TokenView::GenericType => encode_generic(tokens, pos),
        _ => Err(mismatch(TokenKind::AnyType, ty, pos)),
    }
}

/// A label at `pos`, a type marker behind it and the value of that type:
/// the packed label, the tag byte, the value.
pub open spec fn encode_field(tokens: Seq<TokenView>, pos: int) -> Encoded
    decreases tokens.len() - pos, 0nat,
{
    match token_at(tokens, pos) {
        Err(e) => Err(e),
        Ok(TokenView::Label(text)) => match token_at(tokens, pos + 1) {
            Err(e) => Err(e),
            Ok(ty) => match ty.tag() {
                None => Err(mismatch(TokenKind::AnyType, ty, pos + 1)),
                Some(tag) => after_bytes(
                    pack_label(encode_utf8(text)) + seq![tag],
                    encode_value(tokens, pos + 2, ty, false),
                ),
            },
        },
        Ok(t) => Err(mismatch(TokenKind::Label, t, pos)),
    }
}

/// A map from `pos` on: `MapStart`, the entries, `MapEnd`.
pub open spec fn encode_map(tokens: Seq<TokenView>, pos: int, root: bool) -> Encoded
    decreases tokens.len() - pos, 1nat,
{
    match token_at(tokens, pos) {
        Err(e) => Err(e),
        Ok(TokenView::MapStart) => encode_entries(tokens, pos + 1, root),
        Ok(t) => Err(mismatch(TokenKind::MapStart, t, pos)),
    }
}

/// The entries of a map from `pos` on, up to and with `MapEnd`. A map
/// other than the root is closed with a NUL byte. An entry behind
/// `MapUnion` is written behind a byte 2.
pub open spec fn encode_entries(tokens: Seq<TokenView>, pos: int, root: bool) -> Encoded
    decreases tokens.len() - pos, 1nat,
{
    match token_at(tokens, pos) {
        Err(e) => Err(e),
        Ok(TokenView::MapEnd) => Ok((if root { Seq::empty() } else { seq![0u8] }, pos + 1)),
        Ok(t) => {
            let marked = t == TokenView::MapUnion;
            let start = if marked { pos + 1 } else { pos };
            let mark = if marked { seq![2u8] } else { Seq::empty() };
            match encode_field(tokens, start) {
                Err(e) => Err(e),
                Ok((field, end)) => if !consumes(tokens, pos, end) {
                    Err(TdfError::EndOfStream { offset: pos as usize })
                } else {
                    after_bytes(mark + field, encode_entries(tokens, end, root))
                },
            }
        },
    }
}

/// `count` values of type `ty` in a row from `pos` on.
pub open spec fn encode_items(
    tokens: Seq<TokenView>,
    pos: int,
    ty: TokenView,
    count: nat,
) -> Encoded
    decreases tokens.len() - pos, 3nat, count,
{
    if count == 0 {
        Ok((Seq::empty(), pos))
    } else {
        match encode_value(tokens, pos, ty, false) {
            Err(e) => Err(e),
            Ok((item, end)) => if !consumes(tokens, pos, end) {
                Err(TdfError::EndOfStream { offset: pos as usize })
            } else {
                after_bytes(item, encode_items(tokens, end, ty, (count - 1) as nat))
            },
        }
    }
}

/// `count` pairs of a key of type `key` and a value of type `value`, from
/// `pos` on.
pub open spec fn encode_pairs(
    tokens: Seq<TokenView>,
    pos: int,
    key: TokenView,
    value: TokenView,
    count: nat,
) -> Encoded
    decreases tokens.len() - pos, 3nat, count,
{
    if count == 0 {
        Ok((Seq::empty(), pos))
    } else {
        match encode_value(tokens, pos, key, false) {
            Err(e) => Err(e),
            Ok((k, mid)) => if !consumes(tokens, pos, mid) {
                Err(TdfError::EndOfStream { offset: pos as usize })
            } else {
                match encode_value(tokens, mid, value, false) {
                    Err(e) => Err(e),
                    Ok((v, end)) => if !consumes(tokens, mid, end) {
                        Err(TdfError::EndOfStream { offset: mid as usize })
                    } else {
                        after_bytes(
                            k + v,
                            encode_pairs(tokens, end, key, value, (count - 1) as nat),
                        )
                    },
                }
            },
        }
    }
}

/// A list from `pos` on: `ListStart`, the type marker of the elements, the
/// elements, `ListEnd`. Written are the tag byte, the count, the elements.
pub open spec fn encode_list(tokens: Seq<TokenView>, pos: int) -> Encoded
    decreases tokens.len() - pos, 0nat,
{
    match token_at(tokens, pos) {
        Err(e) => Err(e),
        Ok(TokenView::ListStart(n)) => match token_at(tokens, pos + 1) {
            Err(e) => Err(e),
            Ok(ty) => match ty.tag() {
                None => Err(mismatch(TokenKind::AnyType, ty, pos + 1)),
                Some(tag) => match encode_count(n as int, pos) {
                    Err(e) => Err(e),
                    Ok(count) => match encode_items(tokens, pos + 2, ty, n as nat) {
                        Err(e) => Err(e),
                        Ok((items, end)) => after_bytes(
                            seq![tag] + count + items,
                            encode_end(tokens, end, TokenKind::ListEnd, Seq::empty()),
                        ),
                    },
                },
            },
        },
        Ok(t) => Err(mismatch(TokenKind::ListStart, t, pos)),
    }
}

/// A pair list from `pos` on: `PairListStart`, the type markers of keys
/// and of values, the pairs, `PairListEnd`. Written are the two tag bytes,
/// the count, the pairs.
pub open spec fn encode_pair_list(tokens: Seq<TokenView>, pos: int) -> Encoded
    decreases tokens.len() - pos, 0nat,
{
    match token_at(tokens, pos) {
        Err(e) => Err(e),
        Ok(TokenView::PairListStart(n)) => match token_at(tokens, pos + 1) {
            Err(e) => Err(e),
            Ok(key) => match key.tag() {
                None => Err(mismatch(TokenKind::AnyType, key, pos + 1)),
                Some(key_tag) => match token_at(tokens, pos + 2) {
                    Err(e) => Err(e),
                    Ok(value) => match value.tag() {
                        None => Err(mismatch(TokenKind::AnyType, value, pos + 2)),
                        Some(value_tag) => match encode_count(n as int, pos) {
                            Err(e) => Err(e),
                            Ok(count) => match encode_pairs(tokens, pos + 3, key, value, n as nat) {
                                Err(e) => Err(e),
                                Ok((pairs, end)) => after_bytes(
                                    seq![key_tag, value_tag] + count + pairs,
                                    encode_end(tokens, end, TokenKind::PairListEnd, Seq::empty()),
                                ),
                            },
                        },
                    },
                },
            },
        },
        Ok(t) => Err(mismatch(TokenKind::PairListStart, t, pos)),
    }
}

/// A union from `pos` on: `UnionStart`, unless the variant is `Unset` a
/// label, a type marker and a value, then `UnionEnd`. Written are the
/// discriminant and the field.
pub open spec fn encode_union(tokens: Seq<TokenView>, pos: int) -> Encoded
    decreases tokens.len() - pos, 0nat,
{
    match token_at(tokens, pos) {
        Err(e) => Err(e),
        Ok(TokenView::UnionStart(variant)) => if variant == UnionType::Unset {
            after_bytes(
                seq![variant.discriminant()],
                encode_end(tokens, pos + 1, TokenKind::UnionEnd, Seq::empty()),
            )
        } else {
            match encode_field(tokens, pos + 1) {
                Err(e) => Err(e),
                Ok((field, end)) => after_bytes(
                    seq![variant.discriminant()] + field,
                    encode_end(tokens, end, TokenKind::UnionEnd, Seq::empty()),
                ),
            }
        },
        Ok(t) => Err(mismatch(TokenKind::UnionStart, t, pos)),
    }
}

/// A generic from `pos` on: `GenericStart`, and if it is present an `Int`
/// with its id and, unless it has no content, a label, a type marker and a
/// value; then `GenericEnd`. Written are the presence byte and for a
/// present generic the id, the field and a closing NUL.
pub open spec fn encode_generic(tokens: Seq<TokenView>, pos: int) -> Encoded
    decreases tokens.len() - pos, 0nat,
{
    match token_at(tokens, pos) {
        Err(e) => Err(e),
        Ok(TokenView::GenericStart(present)) => if !present {
            after_bytes(
                seq![0u8],
                encode_end(tokens, pos + 1, TokenKind::GenericEnd, Seq::empty()),
            )
        } else {
            match encode_int(tokens, pos + 1) {
                Err(e) => Err(e),
                Ok((id, next)) => match token_at(tokens, next) {
                    Err(e) => Err(e),
                    Ok(TokenView::GenericEnd) => Ok((seq![1u8] + id + seq![0u8], next + 1)),
                    Ok(_) => match encode_field(tokens, next) {
                        Err(e) => Err(e),
                        Ok((field, end)) => after_bytes(
                            seq![1u8] + id + field,
                            encode_end(tokens, end, TokenKind::GenericEnd, seq![0u8]),
                        ),
                    },
                },
            }
        },
        Ok(t) => Err(mismatch(TokenKind::GenericStart, t, pos)),
    }
}

/// The bytes of a whole token buffer read from `pos` on: a type marker and
/// the value of that type as the root.
pub open spec fn encode_document(tokens: Seq<TokenView>, pos: int) -> Result<Seq<u8>, TdfError> {
    match token_at(tokens, pos) {
        Err(e) => Err(e),
        Ok(ty) => match encode_value(tokens, pos + 1, ty, true) {
            Err(e) => Err(e),
            Ok((bytes, _)) => Ok(bytes),
        },
    }
}

/// Writes tokens out as bytes.
pub struct BTDFSerializer {
    /// The tokens to write; its cursor is at the next token.
    pub stream: TDFTokenStream,
}

/// How an encoding method leaves the encoder and the output: with
/// `encoded` being what the tokens at the cursor stand for, on success
/// the bytes are appended to the output and the cursor stands behind the
/// tokens written; on failure the error is returned, and the output may
/// hold a part of the bytes behind what it held before.
pub open spec fn encodes(
    before: BTDFSerializer,
    after: BTDFSerializer,
    from: Seq<u8>,
    to: Seq<u8>,
    result: Result<(), TdfError>,
    encoded: Encoded,
) -> bool {
    &&& after.stream@ == before.stream@
    &&& from.is_prefix_of(to)
    &&& match encoded {
        Ok((bytes, end)) => {
            &&& result is Ok
            &&& to == from + bytes
            &&& after.stream.1 == end
            &&& consumes(before.stream@, before.stream.1 as int, end)
        },
        Err(e) => result == Err::<(), TdfError>(e),
    }
}

/// Appends `bytes` to the output.
fn append(writer: &mut Vec<u8>, bytes: &[u8])
    ensures
        final(writer)@ == old(writer)@ + bytes@,
{
    writer.extend_from_slice(bytes);
    assert(writer@ =~= old(writer)@ + bytes@);
}

impl BTDFSerializer {
    /// An encoder for the tokens of `stream` from its cursor on.
    pub fn new(stream: TDFTokenStream) -> (ser: Self)
        ensures
            ser.stream == stream,
    {
        Self { stream }
    }

    /// Takes the next token, which must have the shape `closer`.
    fn close(&mut self, closer: TokenKind) -> (result: Result<(), TdfError>)
        ensures
            final(self).stream@ == old(self).stream@,
            match encode_end(old(self).stream@, old(self).stream.1 as int, closer, Seq::empty()) {
                Ok((_, end)) => result is Ok && final(self).stream.1 == end,
                Err(e) => result == Err::<(), TdfError>(e),
            },
    {
        let at = self.stream.1;
        let token = self.stream.next()?;
        if token.kind() == closer {
            Ok(())
        } else {
            Err(TdfError::TypeMismatch { expected: closer, observed: token.kind(), offset: at })
        }
    }

    /// Takes the next token, which must be a type marker, and writes its
    /// tag byte. The marker is returned.
    fn ser_type(&mut self, writer: &mut Vec<u8>) -> (result: Result<TDFToken, TdfError>)
        ensures
            final(self).stream@ == old(self).stream@,
            result is Err ==> final(writer)@ == old(writer)@,
            match token_at(old(self).stream@, old(self).stream.1 as int) {
                Err(e) => result == Err::<TDFToken, TdfError>(e),
                Ok(ty) => match ty.tag() {
                    None => result == Err::<TDFToken, TdfError>(
                        mismatch(TokenKind::AnyType, ty, old(self).stream.1 as int),
                    ),
                    Some(tag) => {
                        &&& result is Ok
                        &&& result->Ok_0@ == ty
                        &&& final(writer)@ == old(writer)@ + seq![tag]
                        &&& final(self).stream.1 == old(self).stream.1 + 1
                    },
                },
            },
    {
        let at = self.stream.1;
        let ty = self.stream.next()?;
        match ty.get_tag() {
            Ok(tag) => {
                writer.push(tag);
                assert(writer@ =~= old(writer)@ + seq![tag]);
                Ok(ty)
            },
            Err(e) => Err(e.located(at)),
        }
    }

    /// Writes a count or length.
    fn write_count(&self, writer: &mut Vec<u8>, n: usize, at: usize) -> (result: Result<
        (),
        TdfError,
    >)
        ensures
            match encode_count(n as int, at as int) {
                Ok(bytes) => result is Ok && final(writer)@ == old(writer)@ + bytes,
                Err(e) => result == Err::<(), TdfError>(e) && final(writer)@ == old(writer)@,
            },
    {
        if n as u64 > i64::MAX as u64 {
            return Err(TdfError::Unsupported { feature: Feature::OversizedLength, offset: at });
        }
        self.write_number(writer, n as i64);
        Ok(())
    }

    /// Writes one integer.
    pub fn write_number(&self, writer: &mut Vec<u8>, number: i64)
        ensures
            final(writer)@ == old(writer)@ + write_varint(number),
    {
        if number == 0 {
            writer.push(0);
            assert(writer@ =~= old(writer)@ + write_varint(number));
            return ;
        }
        if number == i64::MIN {
            writer.push(VARSIZE_NEGATIVE);
            assert(writer@ =~= old(writer)@ + write_varint(number));
            return ;
        }
        let negative = number < 0;
        let magnitude: u64 = if negative { (-number) as u64 } else { number as u64 };
        let sign: u8 = if negative { VARSIZE_NEGATIVE } else { 0 };
        if magnitude < 64 {
            writer.push(magnitude as u8 + sign);
            assert(writer@ =~= old(writer)@ + write_varint(number));
            return ;
        }
        let first: u8 = (magnitude % 64) as u8 + sign + VARSIZE_MORE;
        writer.push(first);
        let ghost head = old(writer)@ + seq![first];
        let ghost tail = write_tail((magnitude / 64) as nat);
        assert(writer@ =~= head);
        assert(old(writer)@ + write_varint(number) =~= head + tail);
        let mut rest: u64 = magnitude / 64;
        while rest >= 128
            invariant
                rest >= 1,
                head + tail == writer@ + write_tail(rest as nat),
            decreases rest,
        {
            let ghost before = writer@;
            let digit: u8 = (rest % 128) as u8 + VARSIZE_MORE;
            writer.push(digit);
            proof {
                let next = write_tail((rest / 128) as nat);
                assert(write_tail(rest as nat) == seq![digit] + next);
                assert(before + (seq![digit] + next) =~= writer@ + next);
            }
            rest = rest / 128;
        }
        let ghost before = writer@;
        writer.push(rest as u8);
        assert(before + write_tail(rest as nat) =~= writer@);
    }

    /// Writes a string: its length and one, its bytes, a NUL.
    pub fn write_string(&self, writer: &mut Vec<u8>, string: Vec<u8>)
        requires
            string@.len() < i64::MAX,
        ensures
            final(writer)@ == old(writer)@ + string_bytes(string@),
    {
        self.write_number(writer, string.len() as i64 + 1);
        append(writer, string.as_slice());
        writer.push(0);
        assert(writer@ =~= old(writer)@ + string_bytes(string@));
    }

    /// Writes a blob: its length, its bytes.
    pub fn write_blob(&self, writer: &mut Vec<u8>, blob: Vec<u8>)
        requires
            blob@.len() <= i64::MAX,
        ensures
            final(writer)@ == old(writer)@ + blob_bytes(blob@),
    {
        self.write_number(writer, blob.len() as i64);
        append(writer, blob.as_slice());
        assert(writer@ =~= old(writer)@ + blob_bytes(blob@));
    }

    /// Writes the three bytes of a packed label.
    pub fn write_label(&self, writer: &mut Vec<u8>, label: &String)
        ensures
            final(writer)@ == old(writer)@ + pack_label(encode_utf8(label@)),
    {
        let packed = pack(label.as_str().as_bytes());
        writer.push(packed[0]);
        writer.push(packed[1]);
        writer.push(packed[2]);
        assert(writer@ =~= old(writer)@ + pack_label(encode_utf8(label@)));
    }

    /// Writes the `Int` token at the cursor.
    pub fn ser_int(&mut self, writer: &mut Vec<u8>) -> (result: Result<(), TdfError>)
        ensures
            encodes(
                *old(self),
                *final(self),
                old(writer)@,
                final(writer)@,
                result,
                encode_int(old(self).stream@, old(self).stream.1 as int),
            ),
    {
        let at = self.stream.1;
        let token = self.stream.next()?;
        match token {
            TDFToken::Int(number) => {
                self.write_number(writer, number);
                Ok(())
            },
            _ => Err(
                TdfError::TypeMismatch {
                    expected: TokenKind::Int,
                    observed: token.kind(),
                    offset: at,
                },
            ),
        }
    }

    /// Writes the `String` token at the cursor.
    pub fn ser_string(&mut self, writer: &mut Vec<u8>) -> (result: Result<(), TdfError>)
        ensures
            encodes(
                *old(self),
                *final(self),
                old(writer)@,
                final(writer)@,
                result,
                encode_string(old(self).stream@, old(self).stream.1 as int),
            ),
    {
        proof {
            reveal(encode_string);
        }
        let at = self.stream.1;
        let token = self.stream.next()?;
        match token {
            TDFToken::String(string) => {
                if string.len() as u64 >= i64::MAX as u64 {
                    return Err(
                        TdfError::Unsupported { feature: Feature::OversizedLength, offset: at },
                    );
                }
                self.write_string(writer, string);
                Ok(())
            },
            _ => Err(
                TdfError::TypeMismatch {
                    expected: TokenKind::String,
                    observed: token.kind(),
                    offset: at,
                },
            ),
        }
    }

    /// Writes the `Blob` token at the cursor.
    pub fn ser_blob(&mut self, writer: &mut Vec<u8>) -> (result: Result<(), TdfError>)
        ensures
            encodes(
                *old(self),
                *final(self),
                old(writer)@,
                final(writer)@,
                result,
                encode_blob(old(self).stream@, old(self).stream.1 as int),
            ),
    {
        proof {
            reveal(encode_blob);
        }
        let at = self.stream.1;
        let token = self.stream.next()?;
        match token {
            TDFToken::Blob(blob) => {
                if blob.len() as u64 > i64::MAX as u64 {
                    return Err(
                        TdfError::Unsupported { feature: Feature::OversizedLength, offset: at },
                    );
                }
                self.write_blob(writer, blob);
                Ok(())
            },
            _ => Err(
                TdfError::TypeMismatch {
                    expected: TokenKind::Blob,
                    observed: token.kind(),
                    offset: at,
                },
            ),
        }
    }

    /// Writes the `Float` token at the cursor: four bytes, highest first.
    pub fn ser_float(&mut self, writer: &mut Vec<u8>) -> (result: Result<(), TdfError>)
        ensures
            encodes(
                *old(self),
                *final(self),
                old(writer)@,
                final(writer)@,
                result,
                encode_float(old(self).stream@, old(self).stream.1 as int),
            ),
    {
        proof {
            reveal(encode_float);
        }
        let at = self.stream.1;
        let token = self.stream.next()?;
        match token {
            TDFToken::Float(bits) => {
                let raw = write_be_u32(bits);
                writer.push(raw[0]);
                writer.push(raw[1]);
                writer.push(raw[2]);
                writer.push(raw[3]);
                proof {
                    lemma_be_bytes(bits, raw@[0], raw@[1], raw@[2], raw@[3]);
                }
                assert(writer@ =~= old(writer)@ + seq![raw@[0], raw@[1], raw@[2], raw@[3]]);
                Ok(())
            },
            _ => Err(
                TdfError::TypeMismatch {
                    expected: TokenKind::Float,
                    observed: token.kind(),
                    offset: at,
                },
            ),
        }
    }

    /// Writes the two `Int` tokens of an object type.
    pub fn ser_object_type(&mut self, writer: &mut Vec<u8>) -> (result: Result<(), TdfError>)
        ensures
            encodes(
                *old(self),
                *final(self),
                old(writer)@,
                final(writer)@,
                result,
                encode_ints(old(self).stream@, old(self).stream.1 as int, 2),
            ),
    {
        proof {
            reveal_with_fuel(encode_ints, 3);
        }
        let ghost tokens = self.stream@;
        let ghost pos = self.stream.1 as int;
        self.ser_int(writer)?;
        self.ser_int(writer)?;
        proof {
            let a = encode_int(tokens, pos)->Ok_0.0;
            let b = encode_int(tokens, pos + 1)->Ok_0.0;
            assert(writer@ =~= old(writer)@ + (a + (b + Seq::empty())));
        }
        Ok(())
    }

    /// Writes the three `Int` tokens of an object id.
    pub fn ser_object_id(&mut self, writer: &mut Vec<u8>) -> (result: Result<(), TdfError>)
        ensures
            encodes(
                *old(self),
                *final(self),
                old(writer)@,
                final(writer)@,
                result,
                encode_ints(old(self).stream@, old(self).stream.1 as int, 3),
            ),
    {
        proof {
            reveal_with_fuel(encode_ints, 4);
        }
        let ghost tokens = self.stream@;
        let ghost pos = self.stream.1 as int;
        self.ser_int(writer)?;
        self.ser_int(writer)?;
        self.ser_int(writer)?;
        proof {
            let a = encode_int(tokens, pos)->Ok_0.0;
            let b = encode_int(tokens, pos + 1)->Ok_0.0;
            let c = encode_int(tokens, pos + 2)->Ok_0.0;
            assert(writer@ =~= old(writer)@ + (a + (b + (c + Seq::empty()))));
        }
        Ok(())
    }

    /// Writes a list of integers, from `IntListStart` to `IntListEnd`.
    pub fn ser_int_list(&mut self, writer: &mut Vec<u8>) -> (result: Result<(), TdfError>)
        ensures
            encodes(
                *old(self),
                *final(self),
                old(writer)@,
                final(writer)@,
                result,
                encode_int_list(old(self).stream@, old(self).stream.1 as int),
            ),
    {
        proof {
            reveal(encode_int_list);
        }
        let ghost tokens = self.stream@;
        let ghost pos = self.stream.1 as int;
        let at = self.stream.1;
        let token = self.stream.next()?;
        let size = match token {
            TDFToken::IntListStart(s) => s,
            _ => {
                return Err(
                    TdfError::TypeMismatch {
                        expected: TokenKind::IntListStart,
                        observed: token.kind(),
                        offset: at,
                    },
                );
            },
        };
        self.write_count(writer, size, at)?;
        let ghost count = encode_count(size as int, pos)->Ok_0;
        let ghost mut written: Seq<u8> = Seq::empty();
        assert(writer@ =~= old(writer)@ + count + written);
        let mut i: usize = 0;
        while i < size
            invariant
                tokens == old(self).stream@,
                pos == old(self).stream.1,
                self.stream@ == tokens,
                i <= size,
                pos < self.stream.1 <= tokens.len(),
                writer@ == old(writer)@ + count + written,
                token_at(tokens, pos) == Ok::<TokenView, TdfError>(TokenView::IntListStart(size)),
                encode_count(size as int, pos) == Ok::<Seq<u8>, TdfError>(count),
                encode_ints(tokens, pos + 1, size as nat) == after_bytes(
                    written,
                    encode_ints(tokens, self.stream.1 as int, (size - i) as nat),
                ),
            decreases size - i,
        {
            proof {
                reveal(encode_int_list);
            }
            let ghost here = self.stream.1 as int;
            let ghost rest = encode_ints(tokens, here, (size - i) as nat);
            let ghost item = encode_int(tokens, here);
            self.ser_int(writer)?;
            proof {
                let next = encode_ints(tokens, self.stream.1 as int, (size - i - 1) as nat);
                assert(rest == after_bytes(item->Ok_0.0, next));
                if next is Ok {
                    assert(written + (item->Ok_0.0 + next->Ok_0.0) =~= (written + item->Ok_0.0)
                        + next->Ok_0.0);
                }
                assert(writer@ =~= old(writer)@ + count + (written + item->Ok_0.0));
                written = written + item->Ok_0.0;
            }
            i += 1;
        }
        self.close(TokenKind::IntListEnd)?;
        assert(writer@ =~= old(writer)@ + ((count + written) + Seq::<u8>::empty()));
        Ok(())
    }

    /// Writes the value that the type marker `token_type` announces, from
    /// the tokens at the cursor. `is_root` says that the value is the
    /// document itself.
    pub fn ser_token(
        &mut self,
        writer: &mut Vec<u8>,
        token_type: TDFToken,
        is_root: bool,
    ) -> (result: Result<(), TdfError>)
        ensures
            encodes(
                *old(self),
                *final(self),
                old(writer)@,
                final(writer)@,
                result,
                encode_value(old(self).stream@, old(self).stream.1 as int, token_type@, is_root),
            ),
        decreases old(self).stream@.len() - old(self).stream.1, 2nat,
    {
        match token_type {
            TDFToken::IntType => self.ser_int(writer),
            TDFToken::StringType => self.ser_string(writer),
            TDFToken::BlobType => self.ser_blob(writer),
            TDFToken::MapType => self.ser_map(writer, is_root),
            TDFToken::ListType => self.ser_list(writer),
            TDFToken::PairListType => self.ser_pair_list(writer),
            TDFToken::UnionType => self.ser_union(writer),
            TDFToken::IntListType => self.ser_int_list(writer),
            TDFToken::ObjectTypeType => self.ser_object_type(writer),
            TDFToken::ObjectIdType => self.ser_object_id(writer),
            TDFToken::FloatType => self.ser_float(writer),
            TDFToken::GenericType => self.ser_generic(writer),
            _ => Err(
                TdfError::TypeMismatch {
                    expected: TokenKind::AnyType,
                    observed: token_type.kind(),
                    offset: self.stream.1,
                },
            ),
        }
    }

    /// Writes a label, the tag byte of the type marker behind it and the
    /// value of that type.
    fn ser_field(&mut self, writer: &mut Vec<u8>) -> (result: Result<(), TdfError>)
        ensures
            encodes(
                *old(self),
                *final(self),
                old(writer)@,
                final(writer)@,
                result,
                encode_field(old(self).stream@, old(self).stream.1 as int),
            ),
        decreases old(self).stream@.len() - old(self).stream.1, 0nat,
    {
        let ghost tokens = self.stream@;
        let ghost pos = self.stream.1 as int;
        let at = self.stream.1;
        let label = self.stream.next()?;
        let ghost mut packed: Seq<u8> = Seq::empty();
        match label {
            TDFToken::Label(label_string) => {
                proof {
                    packed = pack_label(encode_utf8(label_string@));
                }
                self.write_label(writer, &label_string);
            },
            _ => {
                return Err(
                    TdfError::TypeMismatch {
                        expected: TokenKind::Label,
                        observed: label.kind(),
                        offset: at,
                    },
                );
            },
        }
        let value = self.ser_type(writer)?;
        let ghost head = packed + seq![value@.tag()->Some_0];
        assert(writer@ =~= old(writer)@ + head);
        let ghost body = encode_value(tokens, pos + 2, value@, false);
        self.ser_token(writer, value, false)?;
        assert(writer@ =~= old(writer)@ + (head + body->Ok_0.0));
        Ok(())
    }

    /// Writes a map, from `MapStart` to `MapEnd`.
    pub fn ser_map(&mut self, writer: &mut Vec<u8>, is_root: bool) -> (result: Result<
        (),
        TdfError,
    >)
        ensures
            encodes(
                *old(self),
                *final(self),
                old(writer)@,
                final(writer)@,
                result,
                encode_map(old(self).stream@, old(self).stream.1 as int, is_root),
            ),
        decreases old(self).stream@.len() - old(self).stream.1, 1nat,
    {
        let ghost tokens = self.stream@;
        let ghost pos = self.stream.1 as int;
        let at = self.stream.1;
        let token = self.stream.next()?;
        match token {
            TDFToken::MapStart => {},
            _ => {
                return Err(
                    TdfError::TypeMismatch {
                        expected: TokenKind::MapStart,
                        observed: token.kind(),
                        offset: at,
                    },
                );
            },
        }
        let ghost mut written: Seq<u8> = Seq::empty();
        assert(writer@ =~= old(writer)@ + written);
        loop
            invariant
                tokens == old(self).stream@,
                pos == old(self).stream.1,
                self.stream@ == tokens,
                pos < self.stream.1 <= tokens.len(),
                writer@ == old(writer)@ + written,
                encode_map(tokens, pos, is_root) == after_bytes(
                    written,
                    encode_entries(tokens, self.stream.1 as int, is_root),
                ),
            decreases tokens.len() - self.stream.1,
        {
            let ghost here = self.stream.1 as int;
            let ghost rest = encode_entries(tokens, here, is_root);
            let label = self.stream.get(self.stream.1)?;
            let mut marked = false;
            match label {
                TDFToken::MapEnd => {
                    self.stream.skip();
                    if !is_root {
                        writer.push(0);
                    }
                    assert(writer@ =~= old(writer)@ + (written + if is_root {
                        Seq::<u8>::empty()
                    } else {
                        seq![0u8]
                    }));
                    return Ok(());
                },
                TDFToken::MapUnion => {
                    self.stream.skip();
                    writer.push(2);
                    marked = true;
                },
                _ => {},
            }
            let ghost mark = if marked { seq![2u8] } else { Seq::<u8>::empty() };
            assert(writer@ =~= old(writer)@ + (written + mark));
            let ghost field = encode_field(tokens, self.stream.1 as int);
            self.ser_field(writer)?;
            proof {
                let next = encode_entries(tokens, self.stream.1 as int, is_root);
                assert(consumes(tokens, here, self.stream.1 as int));
                assert(rest == after_bytes(mark + field->Ok_0.0, next));
                if next is Ok {
                    assert(written + ((mark + field->Ok_0.0) + next->Ok_0.0) =~= (written + (mark
                        + field->Ok_0.0)) + next->Ok_0.0);
                }
                assert(writer@ =~= old(writer)@ + (written + (mark + field->Ok_0.0)));
                written = written + (mark + field->Ok_0.0);
            }
        }
    }

    /// Writes a list, from `ListStart` to `ListEnd`.
    pub fn ser_list(&mut self, writer: &mut Vec<u8>) -> (result: Result<(), TdfError>)
        ensures
            encodes(
                *old(self),
                *final(self),
                old(writer)@,
                final(writer)@,
                result,
                encode_list(old(self).stream@, old(self).stream.1 as int),
            ),
        decreases old(self).stream@.len() - old(self).stream.1, 0nat,
    {
        let ghost tokens = self.stream@;
        let ghost pos = self.stream.1 as int;
        let at = self.stream.1;
        let token = self.stream.next()?;
        let size = match token {
            TDFToken::ListStart(s) => s,
            _ => {
                return Err(
                    TdfError::TypeMismatch {
                        expected: TokenKind::ListStart,
                        observed: token.kind(),
                        offset: at,
                    },
                );
            },
        };
        let inner_type = self.ser_type(writer)?;
        self.write_count(writer, size, at)?;
        let ghost head = seq![inner_type@.tag()->Some_0] + encode_count(size as int, pos)->Ok_0;
        let ghost mut written: Seq<u8> = Seq::empty();
        assert(writer@ =~= old(writer)@ + head + written);
        let mut i: usize = 0;
        while i < size
            invariant
                tokens == old(self).stream@,
                pos == old(self).stream.1,
                self.stream@ == tokens,
                i <= size,
                pos + 2 <= self.stream.1 <= tokens.len(),
                writer@ == old(writer)@ + head + written,
                token_at(tokens, pos) == Ok::<TokenView, TdfError>(TokenView::ListStart(size)),
                token_at(tokens, pos + 1) == Ok::<TokenView, TdfError>(inner_type@),
                inner_type@.tag() is Some,
                head == seq![inner_type@.tag()->Some_0] + encode_count(size as int, pos)->Ok_0,
                encode_count(size as int, pos) is Ok,
                encode_items(tokens, pos + 2, inner_type@, size as nat) == after_bytes(
                    written,
                    encode_items(tokens, self.stream.1 as int, inner_type@, (size - i) as nat),
                ),
            decreases size - i,
        {
            let ghost here = self.stream.1 as int;
            let ghost rest = encode_items(tokens, here, inner_type@, (size - i) as nat);
            let ghost item = encode_value(tokens, here, inner_type@, false);
            self.ser_token(writer, inner_type.clone(), false)?;
            proof {
                let next = encode_items(
                    tokens,
                    self.stream.1 as int,
                    inner_type@,
                    (size - i - 1) as nat,
                );
                assert(rest == after_bytes(item->Ok_0.0, next));
                if next is Ok {
                    assert(written + (item->Ok_0.0 + next->Ok_0.0) =~= (written + item->Ok_0.0)
                        + next->Ok_0.0);
                }
                assert(writer@ =~= old(writer)@ + head + (written + item->Ok_0.0));
                written = written + item->Ok_0.0;
            }
            i += 1;
        }
        self.close(TokenKind::ListEnd)?;
        assert(writer@ =~= old(writer)@ + ((head + written) + Seq::<u8>::empty()));
        Ok(())
    }

    /// Writes a pair list, from `PairListStart` to `PairListEnd`.
    pub fn ser_pair_list(&mut self, writer: &mut Vec<u8>) -> (result: Result<(), TdfError>)
        ensures
            encodes(
                *old(self),
                *final(self),
                old(writer)@,
                final(writer)@,
                result,
                encode_pair_list(old(self).stream@, old(self).stream.1 as int),
            ),
        decreases old(self).stream@.len() - old(self).stream.1, 0nat,
    {
        let ghost tokens = self.stream@;
        let ghost pos = self.stream.1 as int;
        let at = self.stream.1;
        let token = self.stream.next()?;
        let size = match token {
            TDFToken::PairListStart(s) => s,
            _ => {
                return Err(
                    TdfError::TypeMismatch {
                        expected: TokenKind::PairListStart,
                        observed: token.kind(),
                        offset: at,
                    },
                );
            },
        };
        let k_type = self.ser_type(writer)?;
        let v_type = self.ser_type(writer)?;
        self.write_count(writer, size, at)?;
        let ghost head = seq![k_type@.tag()->Some_0, v_type@.tag()->Some_0] + encode_count(
            size as int,
            pos,
        )->Ok_0;
        let ghost mut written: Seq<u8> = Seq::empty();
        assert(writer@ =~= old(writer)@ + head + written);
        let mut i: usize = 0;
        while i < size
            invariant
                tokens == old(self).stream@,
                pos == old(self).stream.1,
                self.stream@ == tokens,
                i <= size,
                pos + 3 <= self.stream.1 <= tokens.len(),
                writer@ == old(writer)@ + head + written,
                token_at(tokens, pos) == Ok::<TokenView, TdfError>(TokenView::PairListStart(size)),
                token_at(tokens, pos + 1) == Ok::<TokenView, TdfError>(k_type@),
                token_at(tokens, pos + 2) == Ok::<TokenView, TdfError>(v_type@),
                k_type@.tag() is Some,
                v_type@.tag() is Some,
                head == seq![k_type@.tag()->Some_0, v_type@.tag()->Some_0] + encode_count(
                    size as int,
                    pos,
                )->Ok_0,
                encode_count(size as int, pos) is Ok,
                encode_pairs(tokens, pos + 3, k_type@, v_type@, size as nat) == after_bytes(
                    written,
                    encode_pairs(
                        tokens,
                        self.stream.1 as int,
                        k_type@,
                        v_type@,
                        (size - i) as nat,
                    ),
                ),
            decreases size - i,
        {
            let ghost here = self.stream.1 as int;
            let ghost rest = encode_pairs(tokens, here, k_type@, v_type@, (size - i) as nat);
            let ghost k = encode_value(tokens, here, k_type@, false);
            self.ser_token(writer, k_type.clone(), false)?;
            let ghost mid = self.stream.1 as int;
            let ghost v = encode_value(tokens, mid, v_type@, false);
            self.ser_token(writer, v_type.clone(), false)?;
            proof {
                let next = encode_pairs(
                    tokens,
                    self.stream.1 as int,
                    k_type@,
                    v_type@,
                    (size - i - 1) as nat,
                );
                let pair = k->Ok_0.0 + v->Ok_0.0;
                assert(rest == after_bytes(pair, next));
                if next is Ok {
                    assert(written + (pair + next->Ok_0.0) =~= (written + pair) + next->Ok_0.0);
                }
                assert(writer@ =~= old(writer)@ + head + (written + pair));
                written = written + pair;
            }
            i += 1;
        }
        self.close(TokenKind::PairListEnd)?;
        assert(writer@ =~= old(writer)@ + ((head + written) + Seq::<u8>::empty()));
        Ok(())
    }

    /// Writes a union, from `UnionStart` to `UnionEnd`.
    pub fn ser_union(&mut self, writer: &mut Vec<u8>) -> (result: Result<(), TdfError>)
        ensures
            encodes(
                *old(self),
                *final(self),
                old(writer)@,
                final(writer)@,
                result,
                encode_union(old(self).stream@, old(self).stream.1 as int),
            ),
        decreases old(self).stream@.len() - old(self).stream.1, 0nat,
    {
        let ghost tokens = self.stream@;
        let ghost pos = self.stream.1 as int;
        let at = self.stream.1;
        let token = self.stream.next()?;
        let union_type = match token {
            TDFToken::UnionStart(t) => t,
            _ => {
                return Err(
                    TdfError::TypeMismatch {
                        expected: TokenKind::UnionStart,
                        observed: token.kind(),
                        offset: at,
                    },
                );
            },
        };
        writer.push(union_type.to_u8());
        let ghost head = seq![union_type.discriminant()];
        assert(writer@ =~= old(writer)@ + head);
        let ghost mut field: Seq<u8> = Seq::empty();
        match union_type {
            UnionType::Unset => {},
            _ => {
                proof {
                    field = encode_field(tokens, pos + 1)->Ok_0.0;
                }
                self.ser_field(writer)?;
            },
        }
        self.close(TokenKind::UnionEnd)?;
        assert(writer@ =~= old(writer)@ + ((head + field) + Seq::<u8>::empty()));
        assert(writer@ =~= old(writer)@ + (head + Seq::<u8>::empty()) || union_type
            != UnionType::Unset);
        Ok(())
    }

    /// Writes a generic, from `GenericStart` to `GenericEnd`.
    pub fn ser_generic(&mut self, writer: &mut Vec<u8>) -> (result: Result<(), TdfError>)
        ensures
            encodes(
                *old(self),
                *final(self),
                old(writer)@,
                final(writer)@,
                result,
                encode_generic(old(self).stream@, old(self).stream.1 as int),
            ),
        decreases old(self).stream@.len() - old(self).stream.1, 0nat,
    {
        let ghost tokens = self.stream@;
        let ghost pos = self.stream.1 as int;
        let at = self.stream.1;
        let token = self.stream.next()?;
        let exist = match token {
            TDFToken::GenericStart(t) => t,
            _ => {
                return Err(
                    TdfError::TypeMismatch {
                        expected: TokenKind::GenericStart,
                        observed: token.kind(),
                        offset: at,
                    },
                );
            },
        };
        writer.push(if exist { 1 } else { 0 });
        if !exist {
            self.close(TokenKind::GenericEnd)?;
            assert(writer@ =~= old(writer)@ + (seq![0u8] + Seq::<u8>::empty()));
            return Ok(());
        }
        let ghost id = encode_int(tokens, pos + 1);
        self.ser_int(writer)?;
        let ghost head = seq![1u8] + id->Ok_0.0;
        assert(writer@ =~= old(writer)@ + head);
        let next = self.stream.get(self.stream.1)?;
        match next {
            TDFToken::GenericEnd => {
                self.stream.skip();
                writer.push(0);
                assert(writer@ =~= old(writer)@ + (head + seq![0u8]));
                return Ok(());
            },
            _ => {},
        }
        let ghost field = encode_field(tokens, pos + 2);
        self.ser_field(writer)?;
        self.close(TokenKind::GenericEnd)?;
        // Terminator, but only if not empty
        writer.push(0);
        assert(writer@ =~= old(writer)@ + ((head + field->Ok_0.0) + seq![0u8]));
        Ok(())
    }
}

impl TDFSerializer<Vec<u8>> for BTDFSerializer {
    /// Writes a whole token buffer: the type marker at the cursor and the
    /// value of that type as the root.
    fn serialize(stream: TDFTokenStream, writer: &mut Vec<u8>) -> (result: Result<(), TdfError>)
        ensures
            old(writer)@.is_prefix_of(final(writer)@),
            match encode_document(stream@, stream.1 as int) {
                Ok(bytes) => result is Ok && final(writer)@ == old(writer)@ + bytes,
                Err(e) => result == Err::<(), TdfError>(e),
            },
    {
        let mut ser = Self { stream };
        let token = ser.stream.next()?;
        ser.ser_token(writer, token, true)
    }
}

} // verus!
