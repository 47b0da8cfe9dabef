//! The binary decoder: bytes are read into tokens.
//!
//! What the decoder makes of a document is defined by the functions
//! `decode_*` on sequences of bytes; the methods of [`BTDFDeserializer`]
//! compute them.

use vstd::prelude::*;
use vstd::arithmetic::div_mod::{lemma_add_mod_noop, lemma_mul_mod_noop_right};
use crate::btdf::label::{unpack, unpack_text};
use crate::btdf::reader::{byte_at, bytes_at, ByteReader};
use crate::btdf::varint::{int_of_varint, read_varint, varint_magnitude, varint_tail};
use crate::error::{Feature, TdfError, TokenKind};
use crate::outside::{be_u32, read_be_u32};
use crate::token::{TDFDeserializer, TDFToken, TDFTokenStream, TokenView, UnionType};

verus! {

/// What decoding gives: the tokens read and the offset after the last byte
/// read, or the first error met.
pub type Decoded = Result<(Seq<TokenView>, int), TdfError>;

/// `decoded` with `tokens` in front of its tokens.
pub open spec fn after_tokens(tokens: Seq<TokenView>, decoded: Decoded) -> Decoded {
    match decoded {
        Ok((more, end)) => Ok((tokens + more, end)),
        Err(e) => Err(e),
    }
}

/// `decoded` with `tokens` behind its tokens.
pub open spec fn before_tokens(decoded: Decoded, tokens: Seq<TokenView>) -> Decoded {
    match decoded {
        Ok((read, end)) => Ok((read + tokens, end)),
        Err(e) => Err(e),
    }
}

/// Whether a reading that began at `pos` and ended at `end` took at least
/// one byte and stayed within the input. Every successful reading of a
/// value does.
pub open spec fn advances(bytes: Seq<u8>, pos: int, end: int) -> bool {
    pos < end <= bytes.len()
}

/// Whether three bytes are the packed label `GBRA`, the one field in which
/// the value type of a pair list is not to be believed.
pub open spec fn is_gbra(packed: Seq<u8>) -> bool {
    packed.len() == 3 && packed[0] == 0x9E && packed[1] == 0x2C && packed[2] == 0xA1
}

/// A count or length as the machine holds it, or the error for one that is
/// negative or too large. `offset` is where the number stands.
pub open spec fn count_of(n: i64, offset: int) -> Result<usize, TdfError> {
    if n < 0 {
        Err(TdfError::Unsupported { feature: Feature::NegativeLength, offset: offset as usize })
    } else if n > usize::MAX {
        Err(TdfError::Unsupported { feature: Feature::OversizedLength, offset: offset as usize })
    } else {
        Ok(n as usize)
    }
}

/// The type marker for the tag byte at `pos`.
pub open spec fn decode_type(bytes: Seq<u8>, pos: int) -> Result<TokenView, TdfError> {
    match byte_at(bytes, pos) {
        Err(e) => Err(e),
        Ok(tag) => TokenView::read_tag(tag, pos as usize),
    }
}

/// The label packed in the three bytes at `pos`.
pub open spec fn decode_label(bytes: Seq<u8>, pos: int) -> Decoded {
    match bytes_at(bytes, pos, 3) {
        Err(e) => Err(e),
        Ok(p) => Ok((seq![TokenView::Label(unpack_text(p[0], p[1], p[2]))], pos + 3)),
    }
}

/// An integer at `pos`.
pub open spec fn decode_int(bytes: Seq<u8>, pos: int) -> Decoded {
    match read_varint(bytes, pos) {
        Err(e) => Err(e),
        Ok((v, end)) => Ok((seq![TokenView::Int(v)], end)),
    }
}

/// `count` integers in a row from `pos` on.
pub open spec fn decode_ints(bytes: Seq<u8>, pos: int, count: nat) -> Decoded
    decreases count,
{
    if count == 0 {
        Ok((Seq::empty(), pos))
    } else {
        match read_varint(bytes, pos) {
            Err(e) => Err(e),
            Ok((v, end)) => after_tokens(
                seq![TokenView::Int(v)],
                decode_ints(bytes, end, (count - 1) as nat),
            ),
        }
    }
}

/// The offset of the first NUL byte at or after `pos`.
pub open spec fn find_nul(bytes: Seq<u8>, pos: int) -> Result<int, TdfError>
    decreases bytes.len() - pos,
{
    match byte_at(bytes, pos) {
        Err(e) => Err(e),
        Ok(b) => if b == 0 {
            Ok(pos)
        } else {
            find_nul(bytes, pos + 1)
        },
    }
}

/// A string at `pos`: a length, then one byte fewer than the length says,
/// then a terminator. A length of zero stands for the empty string with
/// nothing behind it. A negative length announces bytes up to the first
/// NUL.
#[verifier::opaque]
pub open spec fn decode_string(bytes: Seq<u8>, pos: int) -> Decoded {
    match read_varint(bytes, pos) {
        Err(e) => Err(e),
        Ok((size, start)) => if size == 0 {
            Ok((seq![TokenView::String(Seq::empty())], start))
        } else if size < 0 {
            match find_nul(bytes, start) {
                Err(e) => Err(e),
                Ok(nul) => Ok((seq![TokenView::String(bytes.subrange(start, nul))], nul + 1)),
            }
        } else {
            match bytes_at(bytes, start, size - 1) {
                Err(e) => Err(e),
                Ok(text) => match byte_at(bytes, start + size - 1) {
                    Err(e) => Err(e),
                    Ok(_) => Ok((seq![TokenView::String(text)], start + size)),
                },
            }
        },
    }
}

/// A blob at `pos`: a length, then as many bytes.
#[verifier::opaque]
pub open spec fn decode_blob(bytes: Seq<u8>, pos: int) -> Decoded {
    match read_varint(bytes, pos) {
        Err(e) => Err(e),
        Ok((size, start)) => if size < 0 {
            Err(
                TdfError::Unsupported {
                    feature: Feature::NegativeLength,
                    offset: pos as usize,
                },
            )
        } else {
            match bytes_at(bytes, start, size as int) {
                Err(e) => Err(e),
                Ok(data) => Ok((seq![TokenView::Blob(data)], start + size)),
            }
        },
    }
}

/// A list of integers at `pos`: a count, then as many integers.
#[verifier::opaque]
pub open spec fn decode_int_list(bytes: Seq<u8>, pos: int) -> Decoded {
    match read_varint(bytes, pos) {
        Err(e) => Err(e),
        Ok((n, start)) => match count_of(n, pos) {
            Err(e) => Err(e),
            Ok(count) => after_tokens(
                seq![TokenView::IntListStart(count)],
                before_tokens(decode_ints(bytes, start, count as nat), seq![TokenView::IntListEnd]),
            ),
        },
    }
}

/// A float at `pos`: four bytes, highest first.
#[verifier::opaque]
pub open spec fn decode_float(bytes: Seq<u8>, pos: int) -> Decoded {
    match bytes_at(bytes, pos, 4) {
        Err(e) => Err(e),
        Ok(b) => Ok((seq![TokenView::Float(be_u32(b[0], b[1], b[2], b[3]))], pos + 4)),
    }
}

/// The value of type `ty` at `pos`. `root` says whether the value is the
/// document itself; only a root map may end with the input.
pub open spec fn decode_value(bytes: Seq<u8>, pos: int, ty: TokenView, root: bool) -> Decoded
    decreases bytes.len() - pos, 2nat,
{
    match ty {
        TokenView::IntType => decode_int(bytes, pos),
        TokenView::StringType => decode_string(bytes, pos),
        TokenView::BlobType => decode_blob(bytes, pos),
        TokenView::MapType => after_tokens(
            seq![TokenView::MapStart],
            decode_entries(bytes, pos, root),
        ),
        TokenView::ListType => decode_list(bytes, pos),
        TokenView::PairListType => decode_pair_list(bytes, pos, false),
        TokenView::UnionType => decode_union(bytes, pos),
        TokenView::IntListType => decode_int_list(bytes, pos),
        TokenView::ObjectTypeType => decode_ints(bytes, pos, 2),
        TokenView::ObjectIdType => decode_ints(bytes, pos, 3),
        TokenView::FloatType => decode_float(bytes, pos),
        TokenView::GenericType => decode_generic(bytes, pos),
        _ => Err(
            TdfError::TypeMismatch {
                expected: TokenKind::AnyType,
                observed: ty.kind(),
                offset: pos as usize,
            },
        ),
    }
}

/// A label, a type byte and the value of that type, from `pos` on. In the
/// field `GBRA` of a map a pair list is read with `bugged` set.
pub open spec fn decode_field(bytes: Seq<u8>, pos: int, in_map: bool) -> Decoded
    decreases bytes.len() - pos, 0nat,
{
    match bytes_at(bytes, pos, 3) {
        Err(e) => Err(e),
        Ok(p) => match decode_type(bytes, pos + 3) {
            Err(e) => Err(e),
            Ok(ty) => after_tokens(
                seq![TokenView::Label(unpack_text(p[0], p[1], p[2])), ty],
                decode_entry_value(bytes, pos + 4, ty, in_map && is_gbra(p)),
            ),
        },
    }
}

/// The entries of a map from `pos` on, up to and with its end. A NUL byte
/// ends the map; the end of the input ends a root map. A byte 1 or 2 in
/// front of an entry marks it as a union entry.
pub open spec fn decode_entries(bytes: Seq<u8>, pos: int, root: bool) -> Decoded
    decreases bytes.len() - pos, 1nat,
{
    match byte_at(bytes, pos) {
        Err(e) => if root {
            Ok((seq![TokenView::MapEnd], pos))
        } else {
            Err(e)
        },
        Ok(b) => if b == 0 {
            Ok((seq![TokenView::MapEnd], pos + 1))
        } else {
            let marked = b <= 2;
            let start = if marked { pos + 1 } else { pos };
            let mark = if marked { seq![TokenView::MapUnion] } else { Seq::empty() };
            match decode_field(bytes, start, true) {
                Err(e) => Err(e),
                Ok((field, end)) => if !advances(bytes, pos, end) {
                    Err(TdfError::TruncatedInput { offset: pos as usize })
                } else {
                    after_tokens(mark + field, decode_entries(bytes, end, root))
                },
            }
        },
    }
}

/// `count` values of type `ty` in a row from `pos` on.
pub open spec fn decode_items(bytes: Seq<u8>, pos: int, ty: TokenView, count: nat) -> Decoded
    decreases bytes.len() - pos, 3nat, count,
{
    if count == 0 {
        Ok((Seq::empty(), pos))
    } else {
        match decode_value(bytes, pos, ty, false) {
            Err(e) => Err(e),
            Ok((item, end)) => if !advances(bytes, pos, end) {
                Err(TdfError::TruncatedInput { offset: pos as usize })
            } else {
                after_tokens(item, decode_items(bytes, end, ty, (count - 1) as nat))
            },
        }
    }
}

/// `count` pairs of a key of type `key` and a value of type `value`, from
/// `pos` on.
pub open spec fn decode_pairs(
    bytes: Seq<u8>,
    pos: int,
    key: TokenView,
    value: TokenView,
    count: nat,
) -> Decoded
    decreases bytes.len() - pos, 3nat, count,
{
    if count == 0 {
        Ok((Seq::empty(), pos))
    } else {
        match decode_value(bytes, pos, key, false) {
            Err(e) => Err(e),
            Ok((k, mid)) => if !advances(bytes, pos, mid) {
                Err(TdfError::TruncatedInput { offset: pos as usize })
            } else {
                match decode_value(bytes, mid, value, false) {
                    Err(e) => Err(e),
                    Ok((v, end)) => if !advances(bytes, mid, end) {
                        Err(TdfError::TruncatedInput { offset: mid as usize })
                    } else {
                        after_tokens(
                            k + v,
                            decode_pairs(bytes, end, key, value, (count - 1) as nat),
                        )
                    },
                }
            },
        }
    }
}

/// A list at `pos`: the type byte of its elements, a count, the elements.
pub open spec fn decode_list(bytes: Seq<u8>, pos: int) -> Decoded
    decreases bytes.len() - pos, 0nat,
{
    match decode_type(bytes, pos) {
        Err(e) => Err(e),
        Ok(ty) => match read_varint(bytes, pos + 1) {
            Err(e) => Err(e),
            Ok((n, start)) => match count_of(n, pos + 1) {
                Err(e) => Err(e),
                Ok(count) => if !advances(bytes, pos, start) {
                    Err(TdfError::TruncatedInput { offset: pos as usize })
                } else {
                    after_tokens(
                        seq![TokenView::ListStart(count), ty],
                        before_tokens(
                            decode_items(bytes, start, ty, count as nat),
                            seq![TokenView::ListEnd],
                        ),
                    )
                },
            },
        },
    }
}

/// A pair list at `pos`: the type bytes of keys and of values, a count, the
/// pairs. With `bugged` set the values are read as pair lists whatever
/// their type byte says.
pub open spec fn decode_pair_list(bytes: Seq<u8>, pos: int, bugged: bool) -> Decoded
    decreases bytes.len() - pos, 0nat,
{
    match decode_type(bytes, pos) {
        Err(e) => Err(e),
        Ok(key) => match decode_type(bytes, pos + 1) {
            Err(e) => Err(e),
            Ok(declared) => {
                let value = if bugged { TokenView::PairListType } else { declared };
                match read_varint(bytes, pos + 2) {
                    Err(e) => Err(e),
                    Ok((n, start)) => match count_of(n, pos + 2) {
                        Err(e) => Err(e),
                        Ok(count) => if !advances(bytes, pos, start) {
                            Err(TdfError::TruncatedInput { offset: pos as usize })
                        } else {
                            after_tokens(
                                seq![TokenView::PairListStart(count), key, value],
                                before_tokens(
                                    decode_pairs(bytes, start, key, value, count as nat),
                                    seq![TokenView::PairListEnd],
                                ),
                            )
                        },
                    },
                }
            },
        },
    }
}

/// A union at `pos`: a discriminant byte and, unless it says `Unset`, a
/// label, a type byte and a value.
pub open spec fn decode_union(bytes: Seq<u8>, pos: int) -> Decoded
    decreases bytes.len() - pos, 0nat,
{
    match byte_at(bytes, pos) {
        Err(e) => Err(e),
        Ok(d) => match UnionType::of_discriminant(d) {
            None => Err(
                TdfError::Unsupported {
                    feature: Feature::UnionDiscriminant,
                    offset: pos as usize,
                },
            ),
            Some(UnionType::Unset) => Ok(
                (seq![TokenView::UnionStart(UnionType::Unset), TokenView::UnionEnd], pos + 1),
            ),
            Some(variant) => after_tokens(
                seq![TokenView::UnionStart(variant)],
                before_tokens(decode_field(bytes, pos + 1, false), seq![TokenView::UnionEnd]),
            ),
        },
    }
}

/// A generic at `pos`: a presence byte and, unless it is zero, an integer
/// id, then either a NUL byte or a label, a type byte, a value and a
/// terminator byte. The terminator is expected to be NUL but is not held
/// to it.
pub open spec fn decode_generic(bytes: Seq<u8>, pos: int) -> Decoded
    decreases bytes.len() - pos, 0nat,
{
    match byte_at(bytes, pos) {
        Err(e) => Err(e),
        Ok(present) => if present == 0 {
            Ok((seq![TokenView::GenericStart(false), TokenView::GenericEnd], pos + 1))
        } else {
            match read_varint(bytes, pos + 1) {
                Err(e) => Err(e),
                Ok((id, start)) => match byte_at(bytes, start) {
                    Err(e) => Err(e),
                    Ok(b) => if start <= pos {
                        Err(TdfError::TruncatedInput { offset: pos as usize })
                    } else if b == 0 {
                        Ok(
                            (
                                seq![
                                    TokenView::GenericStart(true),
                                    TokenView::Int(id),
                                    TokenView::GenericEnd,
                                ],
                                start + 1,
                            ),
                        )
                    } else {
                        match decode_field(bytes, start, false) {
                            Err(e) => Err(e),
                            Ok((field, end)) => match byte_at(bytes, end) {
                                Err(e) => Err(e),
                                Ok(_) => Ok(
                                    (
                                        seq![TokenView::GenericStart(true), TokenView::Int(id)]
                                            + field + seq![TokenView::GenericEnd],
                                        end + 1,
                                    ),
                                ),
                            },
                        }
                    },
                },
            }
        },
    }
}

/// The value of type `ty` at `pos` in a field: as [`decode_value`] has it,
/// but that with `bugged` set a pair list is read as bugged.
pub open spec fn decode_entry_value(
    bytes: Seq<u8>,
    pos: int,
    ty: TokenView,
    bugged: bool,
) -> Decoded
    decreases bytes.len() - pos, 3nat,
{
    if bugged && ty == TokenView::PairListType {
        decode_pair_list(bytes, pos, true)
    } else {
        decode_value(bytes, pos, ty, false)
    }
}

/// The tokens of a whole document: a root map from `start` on that takes
/// all of the input. Bytes behind the closing NUL of the root map are an
/// error unless `lenient` is set.
pub open spec fn decode_document(bytes: Seq<u8>, start: int, lenient: bool) -> Result<
    Seq<TokenView>,
    TdfError,
> {
    match decode_entries(bytes, start, true) {
        Err(e) => Err(e),
        Ok((tokens, end)) => if end < bytes.len() && !lenient {
            Err(TdfError::Unsupported { feature: Feature::TrailingBytes, offset: end as usize })
        } else {
            Ok(seq![TokenView::MapType, TokenView::MapStart] + tokens)
        },
    }
}

/// `scaled` is `tail` with its value multiplied by `weight` and added to
/// `acc`.
pub open spec fn weighed(acc: nat, weight: nat, tail: Result<(nat, int), TdfError>) -> Result<
    (nat, int),
    TdfError,
> {
    match tail {
        Ok((t, end)) => Ok((acc + weight * t, end)),
        Err(e) => Err(e),
    }
}

/// Reads bytes into tokens.
pub struct BTDFDeserializer {
    /// The tokens read so far.
    pub stream: TDFTokenStream,
}

/// How a decoding method leaves the decoder and the reader: with
/// `decoded` being what the bytes at the reader's offset hold, on success
/// the tokens are appended to the stream and the reader stands behind the
/// bytes read; on failure the error is returned, the stream may hold a
/// part of the tokens behind what it held before, and the reader stands
/// where the reading stopped.
pub open spec fn decodes(
    before: BTDFDeserializer,
    after: BTDFDeserializer,
    from: ByteReader,
    to: ByteReader,
    result: Result<(), TdfError>,
    decoded: Decoded,
) -> bool {
    &&& to.bytes@ == from.bytes@
    &&& from.pos <= to.pos
    &&& after.stream.1 == before.stream.1
    &&& before.stream@.is_prefix_of(after.stream@)
    &&& match decoded {
        Ok((tokens, end)) => {
            &&& result is Ok
            &&& after.stream@ == before.stream@ + tokens
            &&& to.pos == end
        },
        Err(e) => result == Err::<(), TdfError>(e),
    }
}

impl BTDFDeserializer {
    /// A decoder that has read nothing.
    pub fn new() -> (des: Self)
        ensures
            des.stream@ == Seq::<TokenView>::empty(),
            des.stream.1 == 0,
    {
        Self { stream: TDFTokenStream::new() }
    }

    /// Appends one token to the stream.
    fn emit(&mut self, token: TDFToken)
        ensures
            final(self).stream@ == old(self).stream@ + seq![token@],
            final(self).stream.1 == old(self).stream.1,
    {
        self.stream.push(token);
        assert(self.stream@ =~= old(self).stream@ + seq![token@]);
    }

    /// Reads one integer.
    pub fn read_number(&self, reader: &mut ByteReader) -> (number: Result<i64, TdfError>)
        ensures
            final(reader).bytes@ == old(reader).bytes@,
            final(reader).pos >= old(reader).pos,
            match read_varint(old(reader).bytes@, old(reader).pos as int) {
                Ok((v, end)) => number == Ok::<i64, TdfError>(v) && final(reader).pos == end
                    && old(reader).pos < end <= old(reader).bytes@.len(),
                Err(e) => number == Err::<i64, TdfError>(e),
            },
    {
        let ghost bytes = reader.bytes@;
        let ghost start = reader.pos as int;
        let first = reader.read_u8()?;
        let negative = (first / 64) % 2 == 1;
        let mut value: u64 = (first % 64) as u64;
        let mut scale: u64 = 64;
        let mut more = first >= 128;
        let ghost total = varint_magnitude(first, bytes, start + 1);
        let ghost mut acc: nat = (first % 64) as nat;
        let ghost mut weight: nat = 64;
        while more
            invariant
                bytes == old(reader).bytes@,
                start == old(reader).pos,
                reader.bytes@ == bytes,
                start < reader.pos <= bytes.len(),
                value == acc % 0x1_0000_0000_0000_0000,
                scale == weight % 0x1_0000_0000_0000_0000,
                more ==> total == weighed(acc, weight, varint_tail(bytes, reader.pos as int)),
                !more ==> total == Ok::<(nat, int), TdfError>((acc, reader.pos as int)),
                total is Err ==> read_varint(bytes, start) == Err::<(i64, int), TdfError>(
                    total->Err_0,
                ),
            decreases bytes.len() - reader.pos,
        {
            let ghost here = reader.pos as int;
            let b = reader.read_u8()?;
            let digit: u64 = (b % 128) as u64;
            proof {
                let m = 0x1_0000_0000_0000_0000int;
                let w = weight as int;
                let d = digit as int;
                lemma_mul_mod_noop_right(d, w, m);
                lemma_add_mod_noop(acc as int, d * w, m);
                assert(w * d == d * w) by (nonlinear_arith);
                if b >= 128 {
                    let rest = varint_tail(bytes, here + 1);
                    if rest is Ok {
                        let t = rest->Ok_0.0 as int;
                        assert(w * (d + 128 * t) == w * d + (w * 128) * t) by (nonlinear_arith);
                    }
                }
            }
            value = value.wrapping_add(digit.wrapping_mul(scale));
            scale = scale.wrapping_mul(128);
            more = b >= 128;
            proof {
                acc = acc + weight * (digit as nat);
                weight = weight * 128;
            }
        }
        assert(read_varint(bytes, start) == Ok::<(i64, int), TdfError>(
            (int_of_varint(negative, acc), reader.pos as int),
        ));
        let number: i64 = if negative {
            if value == 0 {
                i64::MIN
            } else if value > 0x8000_0000_0000_0000 {
                (u64::MAX - value + 1) as i64
            } else if value == 0x8000_0000_0000_0000 {
                i64::MIN
            } else {
                -(value as i64)
            }
        } else {
            if value < 0x8000_0000_0000_0000 {
                value as i64
            } else {
                ((value - 0x8000_0000_0000_0000) as i64) + i64::MIN
            }
        };
        Ok(number)
    }

    /// Reads an integer into an `Int` token.
    pub fn des_int(&mut self, reader: &mut ByteReader) -> (result: Result<(), TdfError>)
        ensures
            decodes(
                *old(self),
                *final(self),
                *old(reader),
                *final(reader),
                result,
                decode_int(old(reader).bytes@, old(reader).pos as int),
            ),
            result is Ok ==> old(reader).pos < final(reader).pos <= old(reader).bytes@.len(),
    {
        let number = self.read_number(reader)?;
        self.emit(TDFToken::Int(number));
        Ok(())
    }

    /// Reads the three bytes of a packed label into a `Label` token, and
    /// tells whether the label is `GBRA`.
    pub fn des_label(&mut self, reader: &mut ByteReader) -> (result: Result<bool, TdfError>)
        ensures
            final(reader).bytes@ == old(reader).bytes@,
            final(self).stream.1 == old(self).stream.1,
            result is Err ==> *final(self) == *old(self) && final(reader).pos == old(reader).pos,
            match bytes_at(old(reader).bytes@, old(reader).pos as int, 3) {
                Ok(p) => {
                    &&& result == Ok::<bool, TdfError>(is_gbra(p))
                    &&& final(self).stream@ == old(self).stream@ + seq![
                        TokenView::Label(unpack_text(p[0], p[1], p[2])),
                    ]
                    &&& final(reader).pos == old(reader).pos + 3
                },
                Err(e) => result == Err::<bool, TdfError>(e),
            },
    {
        let packed = reader.read_exact(3)?;
        let has_heat1_bug = packed[0] == 0x9E && packed[1] == 0x2C && packed[2] == 0xA1;
        self.emit(TDFToken::Label(unpack(packed[0], packed[1], packed[2])));
        Ok(has_heat1_bug)
    }

    /// Reads a type byte into its type marker, which is appended to the
    /// stream and returned.
    fn des_type(&mut self, reader: &mut ByteReader) -> (result: Result<TDFToken, TdfError>)
        ensures
            final(reader).bytes@ == old(reader).bytes@,
            final(self).stream.1 == old(self).stream.1,
            final(reader).pos >= old(reader).pos,
            result is Err ==> *final(self) == *old(self),
            match decode_type(old(reader).bytes@, old(reader).pos as int) {
                Ok(ty) => {
                    &&& result is Ok
                    &&& result->Ok_0@ == ty
                    &&& ty.is_type()
                    &&& final(self).stream@ == old(self).stream@ + seq![ty]
                    &&& final(reader).pos == old(reader).pos + 1
                },
                Err(e) => result == Err::<TDFToken, TdfError>(e),
            },
    {
        let ty = read_type(reader)?;
        self.emit(ty.clone());
        Ok(ty)
    }

    /// Reads a string into a `String` token.
    pub fn des_string(&mut self, reader: &mut ByteReader) -> (result: Result<(), TdfError>)
        ensures
            decodes(
                *old(self),
                *final(self),
                *old(reader),
                *final(reader),
                result,
                decode_string(old(reader).bytes@, old(reader).pos as int),
            ),
            result is Ok ==> old(reader).pos < final(reader).pos <= old(reader).bytes@.len(),
    {
        proof {
            reveal(decode_string);
        }
        let ghost bytes = reader.bytes@;
        let size = self.read_number(reader)?;
        if size == 0 {
            self.emit(TDFToken::String(Vec::new()));
            return Ok(());
        }
        let ghost start = reader.pos as int;
        if size < 0 {
            let mut text: Vec<u8> = Vec::new();
            loop
                invariant_except_break
                    text@ == bytes.subrange(start, reader.pos as int),
                    find_nul(bytes, start) == find_nul(bytes, reader.pos as int),
                invariant
                    bytes == old(reader).bytes@,
                    reader.bytes@ == bytes,
                    0 <= start <= reader.pos <= bytes.len(),
                    read_varint(bytes, old(reader).pos as int) == Ok::<(i64, int), TdfError>(
                        (size, start),
                    ),
                    size < 0,
                    *self == *old(self),
                ensures
                    reader.bytes@ == bytes,
                    find_nul(bytes, start) == Ok::<int, TdfError>(reader.pos - 1),
                    start < reader.pos <= bytes.len(),
                    text@ == bytes.subrange(start, reader.pos - 1),
                    *self == *old(self),
                decreases bytes.len() - reader.pos,
            {
                proof {
                    reveal(decode_string);
                }
                let b = reader.read_u8()?;
                if b == 0 {
                    break ;
                }
                text.push(b);
                assert(text@ =~= bytes.subrange(start, reader.pos as int));
            }
            self.emit(TDFToken::String(text));
            return Ok(());
        }
        if (size - 1) as u64 > reader.bytes.len() as u64 {
            return Err(TdfError::TruncatedInput { offset: reader.pos });
        }
        let text = reader.read_exact((size - 1) as usize)?;
        let _ = reader.read_u8()?;
        self.emit(TDFToken::String(text));
        Ok(())
    }

    /// Reads a blob into a `Blob` token.
    pub fn des_blob(&mut self, reader: &mut ByteReader) -> (result: Result<(), TdfError>)
        ensures
            decodes(
                *old(self),
                *final(self),
                *old(reader),
                *final(reader),
                result,
                decode_blob(old(reader).bytes@, old(reader).pos as int),
            ),
            result is Ok ==> old(reader).pos < final(reader).pos <= old(reader).bytes@.len(),
    {
        proof {
            reveal(decode_blob);
        }
        let at = reader.pos;
        let size = self.read_number(reader)?;
        if size < 0 {
            return Err(TdfError::Unsupported { feature: Feature::NegativeLength, offset: at });
        }
        if size as u64 > reader.bytes.len() as u64 {
            return Err(TdfError::TruncatedInput { offset: reader.pos });
        }
        let data = reader.read_exact(size as usize)?;
        self.emit(TDFToken::Blob(data));
        Ok(())
    }

    /// Reads a list of integers into its tokens.
    pub fn des_int_list(&mut self, reader: &mut ByteReader) -> (result: Result<(), TdfError>)
        ensures
            decodes(
                *old(self),
                *final(self),
                *old(reader),
                *final(reader),
                result,
                decode_int_list(old(reader).bytes@, old(reader).pos as int),
            ),
            result is Ok ==> old(reader).pos < final(reader).pos <= old(reader).bytes@.len(),
    {
        proof {
            reveal(decode_int_list);
        }
        let ghost bytes = reader.bytes@;
        let at = reader.pos;
        let n = self.read_number(reader)?;
        let size = to_count(n, at)?;
        self.emit(TDFToken::IntListStart(size));
        let ghost start = reader.pos as int;
        let ghost mut read: Seq<TokenView> = Seq::empty();
        let mut i: usize = 0;
        while i < size
            invariant
                bytes == old(reader).bytes@,
                reader.bytes@ == bytes,
                i <= size,
                old(reader).pos <= start <= reader.pos <= bytes.len(),
                self.stream.1 == old(self).stream.1,
                self.stream@ == old(self).stream@ + seq![TokenView::IntListStart(size)] + read,
                decode_ints(bytes, start, size as nat) == after_tokens(
                    read,
                    decode_ints(bytes, reader.pos as int, (size - i) as nat),
                ),
                read_varint(bytes, old(reader).pos as int) == Ok::<(i64, int), TdfError>(
                    (n, start),
                ),
                count_of(n, old(reader).pos as int) == Ok::<usize, TdfError>(size),
            decreases size - i,
        {
            let ghost here = reader.pos as int;
            let ghost rest = decode_ints(bytes, here, (size - i) as nat);
            proof {
                reveal(decode_int_list);
            }
            self.des_int(reader)?;
            proof {
                let item = decode_int(bytes, here)->Ok_0.0;
                let next = decode_ints(bytes, reader.pos as int, (size - i - 1) as nat);
                assert(rest == after_tokens(item, next));
                if next is Ok {
                    assert(read + (item + next->Ok_0.0) =~= (read + item) + next->Ok_0.0);
                }
                read = read + item;
            }
            i += 1;
        }
        self.emit(TDFToken::IntListEnd);
        proof {
            assert(self.stream@ =~= old(self).stream@ + (seq![TokenView::IntListStart(size)] + (
            read + seq![TokenView::IntListEnd])));
        }
        Ok(())
    }

    /// Reads the two integers of an object type.
    pub fn des_object_type(&mut self, reader: &mut ByteReader) -> (result: Result<(), TdfError>)
        ensures
            decodes(
                *old(self),
                *final(self),
                *old(reader),
                *final(reader),
                result,
                decode_ints(old(reader).bytes@, old(reader).pos as int, 2),
            ),
            result is Ok ==> old(reader).pos < final(reader).pos <= old(reader).bytes@.len(),
    {
        proof {
            reveal_with_fuel(decode_ints, 3);
        }
        self.des_int(reader)?;
        self.des_int(reader)?;
        proof {
            let a = self.stream@[old(self).stream@.len() as int];
            let b = self.stream@[old(self).stream@.len() as int + 1];
            assert(self.stream@ =~= old(self).stream@ + (seq![a] + (seq![b] + Seq::empty())));
        }
        Ok(())
    }

    /// Reads the three integers of an object id.
    pub fn des_object_id(&mut self, reader: &mut ByteReader) -> (result: Result<(), TdfError>)
        ensures
            decodes(
                *old(self),
                *final(self),
                *old(reader),
                *final(reader),
                result,
                decode_ints(old(reader).bytes@, old(reader).pos as int, 3),
            ),
            result is Ok ==> old(reader).pos < final(reader).pos <= old(reader).bytes@.len(),
    {
        proof {
            reveal_with_fuel(decode_ints, 4);
        }
        self.des_int(reader)?;
        self.des_int(reader)?;
        self.des_int(reader)?;
        proof {
            let a = self.stream@[old(self).stream@.len() as int];
            let b = self.stream@[old(self).stream@.len() as int + 1];
            let c = self.stream@[old(self).stream@.len() as int + 2];
            assert(self.stream@ =~= old(self).stream@ + (seq![a] + (seq![b] + (seq![c]
                + Seq::empty()))));
        }
        Ok(())
    }

    /// Reads the four bytes of a float into a `Float` token.
    pub fn des_float(&mut self, reader: &mut ByteReader) -> (result: Result<(), TdfError>)
        ensures
            decodes(
                *old(self),
                *final(self),
                *old(reader),
                *final(reader),
                result,
                decode_float(old(reader).bytes@, old(reader).pos as int),
            ),
            result is Ok ==> old(reader).pos < final(reader).pos <= old(reader).bytes@.len(),
    {
        proof {
            reveal(decode_float);
        }
        let raw = reader.read_exact(4)?;
        let bits = read_be_u32(raw.as_slice());
        self.emit(TDFToken::Float(bits));
        Ok(())
    }

    /// Reads the value that the type marker `tdf_type` announces. `is_root`
    /// says that the value is the document itself.
    pub fn des_token(
        &mut self,
        reader: &mut ByteReader,
        tdf_type: TDFToken,
        is_root: bool,
    ) -> (result: Result<(), TdfError>)
        ensures
            decodes(
                *old(self),
                *final(self),
                *old(reader),
                *final(reader),
                result,
                decode_value(old(reader).bytes@, old(reader).pos as int, tdf_type@, is_root),
            ),
            result is Ok && !is_root ==> old(reader).pos < final(reader).pos <= old(
                reader,
            ).bytes@.len(),
        decreases old(reader).bytes@.len() - old(reader).pos, 2nat,
    {
        match tdf_type {
            TDFToken::IntType => self.des_int(reader),
            TDFToken::StringType => self.des_string(reader),
            TDFToken::BlobType => self.des_blob(reader),
            TDFToken::MapType => self.des_map(reader, is_root),
            TDFToken::ListType => self.des_list(reader),
            TDFToken::PairListType => self.des_pair_list(reader, false),
            TDFToken::UnionType => self.des_union(reader),
            TDFToken::IntListType => self.des_int_list(reader),
            TDFToken::ObjectTypeType => self.des_object_type(reader),
            TDFToken::ObjectIdType => self.des_object_id(reader),
            TDFToken::FloatType => self.des_float(reader),
            TDFToken::GenericType => self.des_generic(reader),
            _ => Err(
                TdfError::TypeMismatch {
                    expected: TokenKind::AnyType,
                    observed: tdf_type.kind(),
                    offset: reader.pos,
                },
            ),
        }
    }

    /// Reads the value of a field. With `bugged` set, which is for the field
    /// `GBRA` of a map, a pair list is read as bugged; every other value is
    /// read as usual.
    fn des_bugged_token(
        &mut self,
        reader: &mut ByteReader,
        tdf_type: TDFToken,
        bugged: bool,
    ) -> (result: Result<(), TdfError>)
        ensures
            decodes(
                *old(self),
                *final(self),
                *old(reader),
                *final(reader),
                result,
                decode_entry_value(old(reader).bytes@, old(reader).pos as int, tdf_type@, bugged),
            ),
            result is Ok ==> old(reader).pos < final(reader).pos <= old(reader).bytes@.len(),
        decreases old(reader).bytes@.len() - old(reader).pos, 3nat,
    {
        if bugged {
            match tdf_type {
                TDFToken::PairListType => self.des_pair_list(reader, true),
                _ => self.des_token(reader, tdf_type, false),
            }
        } else {
            self.des_token(reader, tdf_type, false)
        }
    }

    /// Reads a label, a type byte and the value of that type. In a map the
    /// field `GBRA` is read as bugged.
    #[verifier::rlimit(50)]
    fn des_field(&mut self, reader: &mut ByteReader, in_map: bool) -> (result: Result<
        (),
        TdfError,
    >)
        ensures
            decodes(
                *old(self),
                *final(self),
                *old(reader),
                *final(reader),
                result,
                decode_field(old(reader).bytes@, old(reader).pos as int, in_map),
            ),
            result is Ok ==> old(reader).pos < final(reader).pos <= old(reader).bytes@.len(),
        decreases old(reader).bytes@.len() - old(reader).pos, 0nat,
    {
        let ghost bytes = reader.bytes@;
        let ghost pos = reader.pos as int;
        let has_bug = self.des_label(reader)?;
        let tdf_type = self.des_type(reader)?;
        let ghost p = bytes_at(bytes, pos, 3)->Ok_0;
        let ghost head = seq![TokenView::Label(unpack_text(p[0], p[1], p[2])), tdf_type@];
        let ghost value = decode_entry_value(bytes, pos + 4, tdf_type@, in_map && is_gbra(p));
        assert(self.stream@ =~= old(self).stream@ + head);
        assert(decode_field(bytes, pos, in_map) == after_tokens(head, value));
        self.des_bugged_token(reader, tdf_type, in_map && has_bug)?;
        assert(self.stream@ =~= old(self).stream@ + (head + value->Ok_0.0));
        Ok(())
    }

    /// Reads a map into its tokens, from `MapStart` to `MapEnd`.
    pub fn des_map(&mut self, reader: &mut ByteReader, is_root: bool) -> (result: Result<
        (),
        TdfError,
    >)
        ensures
            decodes(
                *old(self),
                *final(self),
                *old(reader),
                *final(reader),
                result,
                after_tokens(
                    seq![TokenView::MapStart],
                    decode_entries(old(reader).bytes@, old(reader).pos as int, is_root),
                ),
            ),
            result is Ok && !is_root ==> old(reader).pos < final(reader).pos <= old(
                reader,
            ).bytes@.len(),
        decreases old(reader).bytes@.len() - old(reader).pos, 1nat,
    {
        let ghost bytes = reader.bytes@;
        let ghost start = reader.pos as int;
        self.emit(TDFToken::MapStart);
        let ghost mut read: Seq<TokenView> = Seq::empty();
        assert(self.stream@ =~= old(self).stream@ + seq![TokenView::MapStart] + read);
        loop
            invariant
                bytes == old(reader).bytes@,
                start == old(reader).pos,
                reader.bytes@ == bytes,
                start <= reader.pos,
                self.stream.1 == old(self).stream.1,
                self.stream@ == old(self).stream@ + seq![TokenView::MapStart] + read,
                decode_entries(bytes, start, is_root) == after_tokens(
                    read,
                    decode_entries(bytes, reader.pos as int, is_root),
                ),
            decreases bytes.len() - reader.pos,
        {
            let ghost here = reader.pos as int;
            let ghost rest = decode_entries(bytes, here, is_root);
            let mut marked = false;
            match reader.peek() {
                None => {
                    if is_root {
                        self.emit(TDFToken::MapEnd);
                        assert(self.stream@ =~= old(self).stream@ + (seq![TokenView::MapStart] + (
                        read + seq![TokenView::MapEnd])));
                        return Ok(());
                    } else {
                        return Err(TdfError::TruncatedInput { offset: reader.pos });
                    }
                },
                Some(terminator) => {
                    if terminator == 0 {
                        let _ = reader.read_u8()?;
                        self.emit(TDFToken::MapEnd);
                        assert(self.stream@ =~= old(self).stream@ + (seq![TokenView::MapStart] + (
                        read + seq![TokenView::MapEnd])));
                        return Ok(());
                    } else if terminator <= 2 {
                        self.emit(TDFToken::MapUnion);
                        let _ = reader.read_u8()?;
                        marked = true;
                    }
                },
            }
            let ghost mark = if marked {
                seq![TokenView::MapUnion]
            } else {
                Seq::<TokenView>::empty()
            };
            let ghost field = decode_field(bytes, reader.pos as int, true);
            let ghost before = self.stream@;
            self.des_field(reader, true)?;
            proof {
                let next = decode_entries(bytes, reader.pos as int, is_root);
                assert(advances(bytes, here, reader.pos as int));
                assert(rest == after_tokens(mark + field->Ok_0.0, next));
                if next is Ok {
                    assert(read + ((mark + field->Ok_0.0) + next->Ok_0.0) =~= (read + (mark
                        + field->Ok_0.0)) + next->Ok_0.0);
                }
                assert(self.stream@ =~= old(self).stream@ + seq![TokenView::MapStart] + (read + (
                mark + field->Ok_0.0)));
                read = read + (mark + field->Ok_0.0);
            }
        }
    }

    /// Reads a list into its tokens, from `ListStart` to `ListEnd`.
    pub fn des_list(&mut self, reader: &mut ByteReader) -> (result: Result<(), TdfError>)
        ensures
            decodes(
                *old(self),
                *final(self),
                *old(reader),
                *final(reader),
                result,
                decode_list(old(reader).bytes@, old(reader).pos as int),
            ),
            result is Ok ==> old(reader).pos < final(reader).pos <= old(reader).bytes@.len(),
        decreases old(reader).bytes@.len() - old(reader).pos, 0nat,
    {
        let ghost bytes = reader.bytes@;
        let ghost pos = reader.pos as int;
        let tdf_type = read_type(reader)?;
        let at = reader.pos;
        let n = self.read_number(reader)?;
        let size = to_count(n, at)?;
        self.emit(TDFToken::ListStart(size));
        self.emit(tdf_type.clone());
        let ghost head = seq![TokenView::ListStart(size), tdf_type@];
        let ghost start = reader.pos as int;
        let ghost mut read: Seq<TokenView> = Seq::empty();
        assert(self.stream@ =~= old(self).stream@ + head + read);
        let mut i: usize = 0;
        while i < size
            invariant
                bytes == old(reader).bytes@,
                pos == old(reader).pos,
                reader.bytes@ == bytes,
                i <= size,
                pos < start <= reader.pos <= bytes.len(),
                self.stream.1 == old(self).stream.1,
                self.stream@ == old(self).stream@ + head + read,
                decode_list(bytes, pos) == after_tokens(
                    head,
                    before_tokens(
                        decode_items(bytes, start, tdf_type@, size as nat),
                        seq![TokenView::ListEnd],
                    ),
                ),
                decode_items(bytes, start, tdf_type@, size as nat) == after_tokens(
                    read,
                    decode_items(bytes, reader.pos as int, tdf_type@, (size - i) as nat),
                ),
            decreases size - i,
        {
            let ghost here = reader.pos as int;
            let ghost rest = decode_items(bytes, here, tdf_type@, (size - i) as nat);
            let ghost item = decode_value(bytes, here, tdf_type@, false);
            self.des_token(reader, tdf_type.clone(), false)?;
            proof {
                let next = decode_items(bytes, reader.pos as int, tdf_type@, (size - i - 1) as nat);
                assert(advances(bytes, here, reader.pos as int));
                assert(rest == after_tokens(item->Ok_0.0, next));
                if next is Ok {
                    assert(read + (item->Ok_0.0 + next->Ok_0.0) =~= (read + item->Ok_0.0)
                        + next->Ok_0.0);
                }
                assert(self.stream@ =~= old(self).stream@ + head + (read + item->Ok_0.0));
                read = read + item->Ok_0.0;
            }
            i += 1;
        }
        self.emit(TDFToken::ListEnd);
        assert(self.stream@ =~= old(self).stream@ + (head + (read + seq![TokenView::ListEnd])));
        Ok(())
    }

    /// Reads a pair list into its tokens, from `PairListStart` to
    /// `PairListEnd`. With `has_bug` set the values are read as pair lists
    /// whatever their type byte says.
    #[verifier::rlimit(40)]
    pub fn des_pair_list(&mut self, reader: &mut ByteReader, has_bug: bool) -> (result: Result<
        (),
        TdfError,
    >)
        ensures
            decodes(
                *old(self),
                *final(self),
                *old(reader),
                *final(reader),
                result,
                decode_pair_list(old(reader).bytes@, old(reader).pos as int, has_bug),
            ),
            result is Ok ==> old(reader).pos < final(reader).pos <= old(reader).bytes@.len(),
        decreases old(reader).bytes@.len() - old(reader).pos, 0nat,
    {
        let ghost bytes = reader.bytes@;
        let ghost pos = reader.pos as int;
        let tdf_key = read_type(reader)?;
        let declared = read_type(reader)?;
        let tdf_value = if has_bug { TDFToken::PairListType } else { declared };
        let at = reader.pos;
        let n = self.read_number(reader)?;
        let size = to_count(n, at)?;
        self.emit(TDFToken::PairListStart(size));
        self.emit(tdf_key.clone());
        self.emit(tdf_value.clone());
        let ghost head = seq![TokenView::PairListStart(size), tdf_key@, tdf_value@];
        let ghost start = reader.pos as int;
        let ghost mut read: Seq<TokenView> = Seq::empty();
        assert(self.stream@ =~= old(self).stream@ + head + read);
        let mut i: usize = 0;
        while i < size
            invariant
                bytes == old(reader).bytes@,
                pos == old(reader).pos,
                reader.bytes@ == bytes,
                i <= size,
                pos < start <= reader.pos <= bytes.len(),
                self.stream.1 == old(self).stream.1,
                self.stream@ == old(self).stream@ + head + read,
                decode_pair_list(bytes, pos, has_bug) == after_tokens(
                    head,
                    before_tokens(
                        decode_pairs(bytes, start, tdf_key@, tdf_value@, size as nat),
                        seq![TokenView::PairListEnd],
                    ),
                ),
                decode_pairs(bytes, start, tdf_key@, tdf_value@, size as nat) == after_tokens(
                    read,
                    decode_pairs(
                        bytes,
                        reader.pos as int,
                        tdf_key@,
                        tdf_value@,
                        (size - i) as nat,
                    ),
                ),
            decreases size - i,
        {
            let ghost here = reader.pos as int;
            let ghost rest = decode_pairs(bytes, here, tdf_key@, tdf_value@, (size - i) as nat);
            let ghost k = decode_value(bytes, here, tdf_key@, false);
            self.des_token(reader, tdf_key.clone(), false)?;
            let ghost mid = reader.pos as int;
            let ghost v = decode_value(bytes, mid, tdf_value@, false);
            self.des_token(reader, tdf_value.clone(), false)?;
            proof {
                let next = decode_pairs(
                    bytes,
                    reader.pos as int,
                    tdf_key@,
                    tdf_value@,
                    (size - i - 1) as nat,
                );
                let pair = k->Ok_0.0 + v->Ok_0.0;
                assert(advances(bytes, here, mid));
                assert(advances(bytes, mid, reader.pos as int));
                assert(rest == after_tokens(pair, next));
                if next is Ok {
                    assert(read + (pair + next->Ok_0.0) =~= (read + pair) + next->Ok_0.0);
                }
                assert(self.stream@ =~= old(self).stream@ + head + (read + pair));
                read = read + pair;
            }
            i += 1;
        }
        self.emit(TDFToken::PairListEnd);
        assert(self.stream@ =~= old(self).stream@ + (head + (read + seq![
            TokenView::PairListEnd,
        ])));
        Ok(())
    }

    /// Reads a union into its tokens, from `UnionStart` to `UnionEnd`.
    pub fn des_union(&mut self, reader: &mut ByteReader) -> (result: Result<(), TdfError>)
        ensures
            decodes(
                *old(self),
                *final(self),
                *old(reader),
                *final(reader),
                result,
                decode_union(old(reader).bytes@, old(reader).pos as int),
            ),
            result is Ok ==> old(reader).pos < final(reader).pos <= old(reader).bytes@.len(),
        decreases old(reader).bytes@.len() - old(reader).pos, 0nat,
    {
        let ghost bytes = reader.bytes@;
        let ghost pos = reader.pos as int;
        let at = reader.pos;
        let discriminant = reader.read_u8()?;
        let union_type = match UnionType::from_u8(discriminant) {
            Some(union_type) => union_type,
            None => {
                return Err(
                    TdfError::Unsupported { feature: Feature::UnionDiscriminant, offset: at },
                );
            },
        };
        self.emit(TDFToken::UnionStart(union_type));
        let ghost mut field: Seq<TokenView> = Seq::empty();
        match union_type {
            UnionType::Unset => {},
            _ => {
                proof {
                    field = decode_field(bytes, pos + 1, false)->Ok_0.0;
                }
                self.des_field(reader, false)?;
            },
        }
        self.emit(TDFToken::UnionEnd);
        assert(self.stream@ =~= old(self).stream@ + (seq![TokenView::UnionStart(union_type)] + (
        field + seq![TokenView::UnionEnd])));
        assert(seq![TokenView::UnionStart(UnionType::Unset)] + (Seq::<TokenView>::empty() + seq![
            TokenView::UnionEnd,
        ]) =~= seq![TokenView::UnionStart(UnionType::Unset), TokenView::UnionEnd]);
        Ok(())
    }

    /// Reads a generic into its tokens, from `GenericStart` to
    /// `GenericEnd`.
    pub fn des_generic(&mut self, reader: &mut ByteReader) -> (result: Result<(), TdfError>)
        ensures
            decodes(
                *old(self),
                *final(self),
                *old(reader),
                *final(reader),
                result,
                decode_generic(old(reader).bytes@, old(reader).pos as int),
            ),
            result is Ok ==> old(reader).pos < final(reader).pos <= old(reader).bytes@.len(),
        decreases old(reader).bytes@.len() - old(reader).pos, 0nat,
    {
        let ghost bytes = reader.bytes@;
        let ghost pos = reader.pos as int;
        let generic_exists = reader.read_u8()? != 0;
        self.emit(TDFToken::GenericStart(generic_exists));
        if !generic_exists {
            self.emit(TDFToken::GenericEnd);
            assert(self.stream@ =~= old(self).stream@ + seq![
                TokenView::GenericStart(false),
                TokenView::GenericEnd,
            ]);
            return Ok(());
        }
        let id = self.read_number(reader)?;
        self.emit(TDFToken::Int(id));
        let ghost start = reader.pos as int;
        let ghost head = seq![TokenView::GenericStart(true), TokenView::Int(id)];
        assert(self.stream@ =~= old(self).stream@ + head);
        match reader.peek() {
            None => {
                return Err(TdfError::TruncatedInput { offset: reader.pos });
            },
            Some(b) => {
                if b == 0 {
                    let _ = reader.read_u8()?;
                    self.emit(TDFToken::GenericEnd);
                    assert(self.stream@ =~= old(self).stream@ + seq![
                        TokenView::GenericStart(true),
                        TokenView::Int(id),
                        TokenView::GenericEnd,
                    ]);
                    return Ok(());
                }
            },
        }
        let ghost field = decode_field(bytes, start, false);
        self.des_field(reader, false)?;
        let _ = reader.read_u8()?;
        self.emit(TDFToken::GenericEnd);
        assert(self.stream@ =~= old(self).stream@ + (head + field->Ok_0.0 + seq![
            TokenView::GenericEnd,
        ]));
        Ok(())
    }

    /// Reads a whole document as [`TDFDeserializer::deserialize`] does, but
    /// lets bytes stand behind the closing NUL of the root map.
    pub fn deserialize_lenient(reader: &mut ByteReader) -> (result: Result<
        TDFTokenStream,
        TdfError,
    >)
        ensures
            final(reader).bytes@ == old(reader).bytes@,
            final(reader).pos >= old(reader).pos,
            match decode_document(old(reader).bytes@, old(reader).pos as int, true) {
                Ok(tokens) => result is Ok && result->Ok_0@ == tokens && result->Ok_0.1 == 0,
                Err(e) => result == Err::<TDFTokenStream, TdfError>(e),
            },
    {
        let mut des = Self::new();
        des.emit(TDFToken::MapType);
        des.des_map(reader, true)?;
        proof {
            let entries = decode_entries(old(reader).bytes@, old(reader).pos as int, true)->Ok_0.0;
            assert(des.stream@ =~= seq![TokenView::MapType, TokenView::MapStart] + entries);
        }
        Ok(des.stream)
    }
}

impl<'a> TDFDeserializer<ByteReader<'a>> for BTDFDeserializer {
    /// Reads a whole document: a root map from the reader's offset to the
    /// end of the input.
    fn deserialize(reader: &mut ByteReader<'a>) -> (result: Result<TDFTokenStream, TdfError>)
        ensures
            final(reader).bytes@ == old(reader).bytes@,
            final(reader).pos >= old(reader).pos,
            match decode_document(old(reader).bytes@, old(reader).pos as int, false) {
                Ok(tokens) => result is Ok && result->Ok_0@ == tokens && result->Ok_0.1 == 0,
                Err(e) => result == Err::<TDFTokenStream, TdfError>(e),
            },
    {
        let mut des = Self::new();
        des.emit(TDFToken::MapType);
        des.des_map(reader, true)?;
        if reader.pos < reader.bytes.len() {
            return Err(
                TdfError::Unsupported { feature: Feature::TrailingBytes, offset: reader.pos },
            );
        }
        proof {
            let entries = decode_entries(old(reader).bytes@, old(reader).pos as int, true)->Ok_0.0;
            assert(des.stream@ =~= seq![TokenView::MapType, TokenView::MapStart] + entries);
        }
        Ok(des.stream)
    }
}

/// A count or length read from the wire, as the machine holds it.
fn to_count(n: i64, offset: usize) -> (count: Result<usize, TdfError>)
    ensures
        count == count_of(n, offset as int),
{
    if n < 0 {
        Err(TdfError::Unsupported { feature: Feature::NegativeLength, offset })
    } else if n as u64 > usize::MAX as u64 {
        Err(TdfError::Unsupported { feature: Feature::OversizedLength, offset })
    } else {
        Ok(n as usize)
    }
}

/// Reads a type byte.
fn read_type(reader: &mut ByteReader) -> (result: Result<TDFToken, TdfError>)
    ensures
        final(reader).bytes@ == old(reader).bytes@,
        final(reader).pos >= old(reader).pos,
        match decode_type(old(reader).bytes@, old(reader).pos as int) {
            Ok(ty) => {
                &&& result is Ok
                &&& result->Ok_0@ == ty
                &&& ty.is_type()
                &&& final(reader).pos == old(reader).pos + 1
            },
            Err(e) => result == Err::<TDFToken, TdfError>(e),
        },
{
    let at = reader.pos;
    let tag = reader.read_u8()?;
    match TDFToken::from_tag(tag) {
        Ok(ty) => Ok(ty),
        Err(e) => Err(e.located(at)),
    }
}

} // verus!
