//! The JSON writer: tokens are rendered as text.
//!
//! What is rendered for a token buffer is defined by the functions
//! `json_*` on sequences of tokens; the methods of [`JsonSerializer`]
//! compute them.

use vstd::prelude::*;
use vstd::string::*;
use crate::btdf::ser::{consumes, mismatch, token_at};
use crate::error::{Feature, TdfError, TokenKind};
use crate::outside::{format_hex, format_int, format_lossy, hex_text, int_text, lossy_text};
use crate::token::{TDFSerializer, TDFToken, TDFTokenStream, TokenView, UnionType};

verus! {

/// What rendering gives: the text and the index of the next token, or the
/// first error met.
pub type Rendered = Result<(Seq<char>, int), TdfError>;

/// `rendered` with `text` behind its text.
pub open spec fn before_text(rendered: Rendered, text: Seq<char>) -> Rendered {
    match rendered {
        Ok((read, end)) => Ok((read + text, end)),
        Err(e) => Err(e),
    }
}

/// `count` tab characters.
pub open spec fn tabs(count: nat) -> Seq<char>
    decreases count,
{
    if count == 0 {
        Seq::empty()
    } else {
        tabs((count - 1) as nat) + "\t"@
    }
}

/// A text in double quotes.
pub open spec fn quoted(text: Seq<char>) -> Seq<char> {
    "\""@ + text + "\""@
}

/// The closing token of shape `closer` at index `pos`.
pub open spec fn json_end(tokens: Seq<TokenView>, pos: int, closer: TokenKind) -> Rendered {
    match token_at(tokens, pos) {
        Err(e) => Err(e),
        Ok(t) => if t.kind() == closer {
            Ok((Seq::empty(), pos + 1))
        } else {
            Err(mismatch(closer, t, pos))
        },
    }
}

/// `text`, given that the token at index `pos` has the shape `closer`.
pub open spec fn closed(
    text: Seq<char>,
    tokens: Seq<TokenView>,
    pos: int,
    closer: TokenKind,
) -> Rendered {
    match json_end(tokens, pos, closer) {
        Err(e) => Err(e),
        Ok((_, end)) => Ok((text, end)),
    }
}

/// An `Int` token at `pos`: its decimal text.
pub open spec fn json_int(tokens: Seq<TokenView>, pos: int) -> Rendered {
    match token_at(tokens, pos) {
        Err(e) => Err(e),
        Ok(TokenView::Int(v)) => Ok((int_text(v as int), pos + 1)),
        Ok(t) => Err(mismatch(TokenKind::Int, t, pos)),
    }
}

/// A `String` token at `pos`: its text in quotes.
pub open spec fn json_string(tokens: Seq<TokenView>, pos: int) -> Rendered {
    match token_at(tokens, pos) {
        Err(e) => Err(e),
        Ok(TokenView::String(bytes)) => Ok((quoted(lossy_text(bytes)), pos + 1)),
        Ok(t) => Err(mismatch(TokenKind::String, t, pos)),
    }
}

/// A `Blob` token at `pos`: its bytes in hexadecimal, as `"Blob[..]"`.
pub open spec fn json_blob(tokens: Seq<TokenView>, pos: int) -> Rendered {
    match token_at(tokens, pos) {
        Err(e) => Err(e),
        Ok(TokenView::Blob(bytes)) => Ok(("\"Blob["@ + hex_text(bytes) + "]\""@, pos + 1)),
        Ok(t) => Err(mismatch(TokenKind::Blob, t, pos)),
    }
}

/// A `Float` token at `pos`. The library holds a float by its bits and has
/// no text for it of its own: the text is `texts[pos]`, and without one
/// the token is an error.
pub open spec fn json_float(
    tokens: Seq<TokenView>,
    texts: Seq<Seq<char>>,
    pos: int,
) -> Rendered {
    match token_at(tokens, pos) {
        Err(e) => Err(e),
        Ok(TokenView::Float(_)) => if 0 <= pos < texts.len() {
            Ok((texts[pos], pos + 1))
        } else {
            Err(TdfError::Unsupported { feature: Feature::FloatText, offset: pos as usize })
        },
        Ok(t) => Err(mismatch(TokenKind::Float, t, pos)),
    }
}

/// A label token at `pos`: its text in quotes.
pub open spec fn json_label(tokens: Seq<TokenView>, pos: int) -> Rendered {
    match token_at(tokens, pos) {
        Err(e) => Err(e),
        Ok(TokenView::Label(text)) => Ok((quoted(text), pos + 1)),
        Ok(t) => Err(mismatch(TokenKind::Label, t, pos)),
    }
}

/// `out`, and behind it `count` `Int` tokens from `pos` on, separated by
/// commas.
pub open spec fn json_ints(tokens: Seq<TokenView>, pos: int, count: nat, out: Seq<char>) -> Rendered
    decreases count,
{
    if count == 0 {
        Ok((out, pos))
    } else {
        match json_int(tokens, pos) {
            Err(e) => Err(e),
            Ok((first, next)) => json_ints(
                tokens,
                next,
                (count - 1) as nat,
                if count > 1 {
                    out + first + ","@
                } else {
                    out + first
                },
            ),
        }
    }
}

/// `count` `Int` tokens from `pos` on, in square brackets.
pub open spec fn json_tuple(tokens: Seq<TokenView>, pos: int, count: nat) -> Rendered {
    before_text(json_ints(tokens, pos, count, "["@), "]"@)
}

/// A list of integers from `pos` on, in square brackets.
pub open spec fn json_int_list(tokens: Seq<TokenView>, pos: int) -> Rendered {
    match token_at(tokens, pos) {
        Err(e) => Err(e),
        Ok(TokenView::IntListStart(n)) => match json_tuple(tokens, pos + 1, n as nat) {
            Err(e) => Err(e),
            Ok((text, end)) => closed(text, tokens, end, TokenKind::IntListEnd),
        },
        Ok(t) => Err(mismatch(TokenKind::IntListStart, t, pos)),
    }
}

/// The value of type `ty` whose tokens begin at `pos`, at nesting depth
/// `level`.
pub open spec fn json_value(
    tokens: Seq<TokenView>,
    texts: Seq<Seq<char>>,
    pos: int,
    ty: TokenView,
    level: u32,
) -> Rendered
    decreases tokens.len() - pos, 2nat,
{
    match ty {
        TokenView::IntType => json_int(tokens, pos),
        TokenView::StringType => json_string(tokens, pos),
        TokenView::BlobType => json_blob(tokens, pos),
        TokenView::MapType => json_map(tokens, texts, pos, level),
        TokenView::ListType => json_list(tokens, texts, pos, level),
        TokenView::PairListType => json_pair_list(tokens, texts, pos, level),
        TokenView::UnionType => json_union(tokens, texts, pos, level),
        TokenView::IntListType => json_int_list(tokens, pos),
        TokenView::ObjectTypeType => json_tuple(tokens, pos, 2),
        TokenView::ObjectIdType => json_tuple(tokens, pos, 3),
        TokenView::FloatType => json_float(tokens, texts, pos),
        TokenView::GenericType => json_generic(tokens, texts, pos, level),
        _ => Err(mismatch(TokenKind::AnyType, ty, pos)),
    }
}

/// A map from `pos` on, in braces, one entry a line. A map nested deeper
/// than the level counts is an error.
pub open spec fn json_map(
    tokens: Seq<TokenView>,
    texts: Seq<Seq<char>>,
    pos: int,
    level: u32,
) -> Rendered
    decreases tokens.len() - pos, 1nat,
{
    match token_at(tokens, pos) {
        Err(e) => Err(e),
        Ok(TokenView::MapStart) => if level == u32::MAX {
            Err(TdfError::Unsupported { feature: Feature::OversizedLength, offset: pos as usize })
        } else {
            json_entries(tokens, texts, pos + 1, level, true, "{"@)
        },
        Ok(t) => Err(mismatch(TokenKind::MapStart, t, pos)),
    }
}

/// `out`, and behind it the entries of a map from `pos` on, up to and
/// with the closing brace. `first` says that no entry stands before. Each
/// entry is a line of its own, indented one tab deeper than the map: the
/// label, a colon, the value. The closing brace of an empty map is
/// indented as the map is; that of any other map stands at the start of a
/// line.
pub open spec fn json_entries(
    tokens: Seq<TokenView>,
    texts: Seq<Seq<char>>,
    pos: int,
    level: u32,
    first: bool,
    out: Seq<char>,
) -> Rendered
    decreases tokens.len() - pos, 1nat,
{
    match token_at(tokens, pos) {
        Err(e) => Err(e),
        Ok(TokenView::MapEnd) => Ok(
            (out + (if first { tabs(level as nat) } else { "\n"@ }) + "}"@, pos + 1),
        ),
        Ok(t) => if level == u32::MAX {
            Err(TdfError::Unsupported { feature: Feature::OversizedLength, offset: pos as usize })
        } else {
            let start = if t == TokenView::MapUnion { pos + 1 } else { pos };
            let lead = out + (if first { "\n"@ } else { ",\n"@ }) + tabs((level + 1) as nat);
            match json_label(tokens, start) {
                Err(e) => Err(e),
                Ok((label, _)) => match token_at(tokens, start + 1) {
                    Err(e) => Err(e),
                    Ok(ty) => match json_value(tokens, texts, start + 2, ty, (level + 1) as u32) {
                        Err(e) => Err(e),
                        Ok((value, end)) => if !consumes(tokens, pos, end) {
                            Err(TdfError::EndOfStream { offset: pos as usize })
                        } else {
                            json_entries(
                                tokens,
                                texts,
                                end,
                                level,
                                false,
                                lead + label + ": "@ + value,
                            )
                        },
                    },
                },
            }
        },
    }
}

/// `out`, and behind it `count` values of type `ty` from `pos` on,
/// separated by commas.
pub open spec fn json_items(
    tokens: Seq<TokenView>,
    texts: Seq<Seq<char>>,
    pos: int,
    ty: TokenView,
    count: nat,
    level: u32,
    out: Seq<char>,
) -> Rendered
    decreases tokens.len() - pos, 3nat, count,
{
    if count == 0 {
        Ok((out, pos))
    } else {
        match json_value(tokens, texts, pos, ty, level) {
            Err(e) => Err(e),
            Ok((item, end)) => if !consumes(tokens, pos, end) {
                Err(TdfError::EndOfStream { offset: pos as usize })
            } else {
                json_items(
                    tokens,
                    texts,
                    end,
                    ty,
                    (count - 1) as nat,
                    level,
                    if count > 1 {
                        out + item + ","@
                    } else {
                        out + item
                    },
                )
            },
        }
    }
}

/// `out`, and behind it `count` pairs from `pos` on, each in square
/// brackets, separated by a comma and a line break.
pub open spec fn json_pairs(
    tokens: Seq<TokenView>,
    texts: Seq<Seq<char>>,
    pos: int,
    key: TokenView,
    value: TokenView,
    count: nat,
    level: u32,
    out: Seq<char>,
) -> Rendered
    decreases tokens.len() - pos, 3nat, count,
{
    if count == 0 {
        Ok((out, pos))
    } else {
        match json_value(tokens, texts, pos, key, level) {
            Err(e) => Err(e),
            Ok((k, mid)) => if !consumes(tokens, pos, mid) {
                Err(TdfError::EndOfStream { offset: pos as usize })
            } else {
                match json_value(tokens, texts, mid, value, level) {
                    Err(e) => Err(e),
                    Ok((v, end)) => if !consumes(tokens, mid, end) {
                        Err(TdfError::EndOfStream { offset: mid as usize })
                    } else {
                        json_pairs(
                            tokens,
                            texts,
                            end,
                            key,
                            value,
                            (count - 1) as nat,
                            level,
                            if count > 1 {
                                out + "["@ + k + ","@ + v + "]"@ + ",\n"@
                            } else {
                                out + "["@ + k + ","@ + v + "]"@
                            },
                        )
                    },
                }
            },
        }
    }
}

/// A list from `pos` on, in square brackets.
pub open spec fn json_list(
    tokens: Seq<TokenView>,
    texts: Seq<Seq<char>>,
    pos: int,
    level: u32,
) -> Rendered
    decreases tokens.len() - pos, 0nat,
{
    match token_at(tokens, pos) {
        Err(e) => Err(e),
        Ok(TokenView::ListStart(n)) => match token_at(tokens, pos + 1) {
            Err(e) => Err(e),
            Ok(ty) => match json_items(tokens, texts, pos + 2, ty, n as nat, level, "["@) {
                Err(e) => Err(e),
                Ok((items, end)) => closed(items + "]"@, tokens, end, TokenKind::ListEnd),
            },
        },
        Ok(t) => Err(mismatch(TokenKind::ListStart, t, pos)),
    }
}

/// A pair list from `pos` on, in square brackets.
pub open spec fn json_pair_list(
    tokens: Seq<TokenView>,
    texts: Seq<Seq<char>>,
    pos: int,
    level: u32,
) -> Rendered
    decreases tokens.len() - pos, 0nat,
{
    match token_at(tokens, pos) {
        Err(e) => Err(e),
        Ok(TokenView::PairListStart(n)) => match token_at(tokens, pos + 1) {
            Err(e) => Err(e),
            Ok(key) => match token_at(tokens, pos + 2) {
                Err(e) => Err(e),
                Ok(value) => match json_pairs(
                    tokens,
                    texts,
                    pos + 3,
                    key,
                    value,
                    n as nat,
                    level,
                    "["@,
                ) {
                    Err(e) => Err(e),
                    Ok((pairs, end)) => closed(pairs + "]"@, tokens, end, TokenKind::PairListEnd),
                },
            },
        },
        Ok(t) => Err(mismatch(TokenKind::PairListStart, t, pos)),
    }
}

/// A union from `pos` on: an object with the discriminant and, unless the
/// variant is `Unset`, the label, the tag and the value of its field.
pub open spec fn json_union(
    tokens: Seq<TokenView>,
    texts: Seq<Seq<char>>,
    pos: int,
    level: u32,
) -> Rendered
    decreases tokens.len() - pos, 0nat,
{
    match token_at(tokens, pos) {
        Err(e) => Err(e),
        Ok(TokenView::UnionStart(variant)) => {
            let head = "{"@ + "\"type\": \"union\",\n\"union\": "@ + int_text(
                variant.discriminant() as int,
            );
            if variant == UnionType::Unset {
                closed(head + "}"@, tokens, pos + 1, TokenKind::UnionEnd)
            } else {
                match json_label(tokens, pos + 1) {
                    Err(e) => Err(e),
                    Ok((label, _)) => match token_at(tokens, pos + 2) {
                        Err(e) => Err(e),
                        Ok(ty) => match ty.tag() {
                            None => Err(mismatch(TokenKind::AnyType, ty, pos + 2)),
                            Some(tag) => match json_value(tokens, texts, pos + 3, ty, level) {
                                Err(e) => Err(e),
                                Ok((value, end)) => closed(
                                    head + ",\n"@ + label + ",\n\"tag\": "@ + int_text(tag as int)
                                        + ",\n\"valie\": "@ + value + "}"@,
                                    tokens,
                                    end,
                                    TokenKind::UnionEnd,
                                ),
                            },
                        },
                    },
                }
            }
        },
        Ok(t) => Err(mismatch(TokenKind::UnionStart, t, pos)),
    }
}

/// A generic from `pos` on: an object with, if the generic is present, its
/// id and, if it has content, the label, the tag and the value.
pub open spec fn json_generic(
    tokens: Seq<TokenView>,
    texts: Seq<Seq<char>>,
    pos: int,
    level: u32,
) -> Rendered
    decreases tokens.len() - pos, 0nat,
{
    match token_at(tokens, pos) {
        Err(e) => Err(e),
        Ok(TokenView::GenericStart(present)) => if !present {
            closed("{ \"type\": \"generic\"}"@, tokens, pos + 1, TokenKind::GenericEnd)
        } else {
            match token_at(tokens, pos + 1) {
                Err(e) => Err(e),
                Ok(TokenView::Int(id)) => {
                    let head = "{ \"type\": \"generic\","@ + "\n\"id\": "@ + int_text(id as int);
                    match token_at(tokens, pos + 2) {
                        Err(e) => Err(e),
                        Ok(TokenView::GenericEnd) => Ok((head + "}"@, pos + 3)),
                        Ok(TokenView::Label(text)) => match token_at(tokens, pos + 3) {
                            Err(e) => Err(e),
                            Ok(ty) => match ty.tag() {
                                None => Err(mismatch(TokenKind::AnyType, ty, pos + 3)),
                                Some(tag) => match json_value(tokens, texts, pos + 4, ty, level) {
                                    Err(e) => Err(e),
                                    Ok((value, end)) => closed(
                                        head + ",\n"@ + quoted(text) + "{\n"@ + "\"tag\": "@
                                            + int_text(tag as int) + ",\n"@ + "\"value\": "@ + value
                                            + "}"@ + "}"@,
                                        tokens,
                                        end,
                                        TokenKind::GenericEnd,
                                    ),
                                },
                            },
                        },
                        Ok(t) => Err(mismatch(TokenKind::Label, t, pos + 2)),
                    }
                },
                Ok(t) => Err(mismatch(TokenKind::Int, t, pos + 1)),
            }
        },
        Ok(t) => Err(mismatch(TokenKind::GenericStart, t, pos)),
    }
}

/// The text of a whole token buffer read from `pos` on: a type marker and
/// the value of that type.
pub open spec fn json_document(
    tokens: Seq<TokenView>,
    texts: Seq<Seq<char>>,
    pos: int,
) -> Result<Seq<char>, TdfError> {
    match token_at(tokens, pos) {
        Err(e) => Err(e),
        Ok(ty) => match json_value(tokens, texts, pos + 1, ty, 0) {
            Err(e) => Err(e),
            Ok((text, _)) => Ok(text),
        },
    }
}

/// Renders tokens as JSON text.
pub struct JsonSerializer {
    /// The tokens to render; its cursor is at the next token.
    pub stream: TDFTokenStream,
    /// The texts of the floats: for a `Float` token at index `i` of the
    /// stream the text at index `i`.
    pub floats: Vec<String>,
}

/// How a rendering method leaves the writer: with `rendered` being what
/// the tokens at the cursor stand for, on success the text is returned and
/// the cursor stands behind the tokens rendered; on failure the error is
/// returned.
pub open spec fn renders(
    before: JsonSerializer,
    after: JsonSerializer,
    result: Result<String, TdfError>,
    rendered: Rendered,
) -> bool {
    &&& after.stream@ == before.stream@
    &&& after.floats == before.floats
    &&& match rendered {
        Ok((text, end)) => {
            &&& result is Ok
            &&& result->Ok_0@ == text
            &&& after.stream.1 == end
            &&& consumes(before.stream@, before.stream.1 as int, end)
        },
        Err(e) => result == Err::<String, TdfError>(e),
    }
}

/// Appends `count` tab characters.
fn push_tabs(out: &mut String, count: u32)
    ensures
        final(out)@ == old(out)@ + tabs(count as nat),
{
    let mut i: u32 = 0;
    assert(out@ =~= old(out)@ + tabs(0));
    while i < count
        invariant
            i <= count,
            out@ == old(out)@ + tabs(i as nat),
        decreases count - i,
    {
        let ghost before = out@;
        out.append("\t");
        i += 1;
        assert(out@ =~= old(out)@ + tabs(i as nat));
    }
}

impl JsonSerializer {
    /// The texts of the floats, each as a sequence of characters.
    pub open spec fn texts(&self) -> Seq<Seq<char>> {
        Seq::new(self.floats@.len(), |i: int| self.floats@[i]@)
    }

    /// A writer for the tokens of `stream` from its cursor on, without
    /// texts for floats.
    pub fn new(stream: TDFTokenStream) -> (ser: Self)
        ensures
            ser.stream == stream,
            ser.texts() == Seq::<Seq<char>>::empty(),
    {
        let ser = Self { stream, floats: Vec::new() };
        assert(ser.texts() =~= Seq::<Seq<char>>::empty());
        ser
    }

    /// A writer for the tokens of `stream` from its cursor on, which
    /// renders the `Float` token at index `i` as `floats[i]`.
    pub fn with_floats(stream: TDFTokenStream, floats: Vec<String>) -> (ser: Self)
        ensures
            ser.stream == stream,
            ser.floats == floats,
    {
        Self { stream, floats }
    }

    /// Takes the next token, which must have the shape `closer`.
    fn close(&mut self, closer: TokenKind) -> (result: Result<(), TdfError>)
        ensures
            final(self).stream@ == old(self).stream@,
            final(self).floats == old(self).floats,
            match json_end(old(self).stream@, old(self).stream.1 as int, closer) {
                Ok((_, end)) => result is Ok && final(self).stream.1 == end,
                Err(e) => result == Err::<(), TdfError>(e),
            },
    {
        let at = self.stream.1;
        let token = self.stream.next()?;
        if token.kind() == closer {
            Ok(())
        } else {
            Err(TdfError::TypeMismatch { expected: closer, observed: token.kind(), offset: at })
        }
    }

    /// The decimal text of a number.
    pub fn write_number(&self, number: i64) -> (text: String)
        ensures
            text@ == int_text(number as int),
    {
        format_int(number)
    }

    /// The text of a byte string, in quotes.
    pub fn write_string(&self, string: Vec<u8>) -> (text: String)
        ensures
            text@ == quoted(lossy_text(string@)),
    {
        let mut out = String::new();
        out.append("\"");
        out.append(format_lossy(string.as_slice()).as_str());
        out.append("\"");
        assert(out@ =~= quoted(lossy_text(string@)));
        out
    }

    /// The text of a blob.
    pub fn write_blob(&self, blob: Vec<u8>) -> (text: String)
        ensures
            text@ == "\"Blob["@ + hex_text(blob@) + "]\""@,
    {
        let mut out = String::new();
        out.append("\"Blob[");
        out.append(format_hex(&blob).as_str());
        out.append("]\"");
        assert(out@ =~= "\"Blob["@ + hex_text(blob@) + "]\""@);
        out
    }

    /// The text of a label, in quotes.
    pub fn write_label(&self, label: &String) -> (text: String)
        ensures
            text@ == quoted(label@),
    {
        let mut out = String::new();
        out.append("\"");
        out.append(label.as_str());
        out.append("\"");
        assert(out@ =~= quoted(label@));
        out
    }

    /// Renders the `Int` token at the cursor.
    pub fn ser_int(&mut self) -> (result: Result<String, TdfError>)
        ensures
            renders(
                *old(self),
                *final(self),
                result,
                json_int(old(self).stream@, old(self).stream.1 as int),
            ),
    {
        let at = self.stream.1;
        let token = self.stream.next()?;
        match token {
            TDFToken::Int(number) => Ok(self.write_number(number)),
            _ => Err(
                TdfError::TypeMismatch {
                    expected: TokenKind::Int,
                    observed: token.kind(),
                    offset: at,
                },
            ),
        }
    }

    /// Renders the `String` token at the cursor.
    pub fn ser_string(&mut self) -> (result: Result<String, TdfError>)
        ensures
            renders(
                *old(self),
                *final(self),
                result,
                json_string(old(self).stream@, old(self).stream.1 as int),
            ),
    {
        let at = self.stream.1;
        let token = self.stream.next()?;
        match token {
            TDFToken::String(string) => Ok(self.write_string(string)),
            _ => Err(
                TdfError::TypeMismatch {
                    expected: TokenKind::String,
                    observed: token.kind(),
                    offset: at,
                },
            ),
        }
    }

    /// Renders the `Blob` token at the cursor.
    pub fn ser_blob(&mut self) -> (result: Result<String, TdfError>)
        ensures
            renders(
                *old(self),
                *final(self),
                result,
                json_blob(old(self).stream@, old(self).stream.1 as int),
            ),
    {
        let at = self.stream.1;
        let token = self.stream.next()?;
        match token {
            TDFToken::Blob(blob) => Ok(self.write_blob(blob)),
            _ => Err(
                TdfError::TypeMismatch {
                    expected: TokenKind::Blob,
                    observed: token.kind(),
                    offset: at,
                },
            ),
        }
    }

    /// Renders the `Float` token at the cursor by its text, if it has one.
    pub fn ser_float(&mut self) -> (result: Result<String, TdfError>)
        ensures
            renders(
                *old(self),
                *final(self),
                result,
                json_float(old(self).stream@, old(self).texts(), old(self).stream.1 as int),
            ),
    {
        let at = self.stream.1;
        let token = self.stream.next()?;
        match token {
            TDFToken::Float(_) => {
                if at < self.floats.len() {
                    Ok(self.floats[at].clone())
                } else {
                    Err(TdfError::Unsupported { feature: Feature::FloatText, offset: at })
                }
            },
            _ => Err(
                TdfError::TypeMismatch {
                    expected: TokenKind::Float,
                    observed: token.kind(),
                    offset: at,
                },
            ),
        }
    }

    /// Renders the label token at the cursor.
    fn ser_label(&mut self) -> (result: Result<String, TdfError>)
        ensures
            renders(
                *old(self),
                *final(self),
                result,
                json_label(old(self).stream@, old(self).stream.1 as int),
            ),
    {
        let at = self.stream.1;
        let token = self.stream.next()?;
        match token {
            TDFToken::Label(label_string) => Ok(self.write_label(&label_string)),
            _ => Err(
                TdfError::TypeMismatch {
                    expected: TokenKind::Label,
                    observed: token.kind(),
                    offset: at,
                },
            ),
        }
    }

    /// Renders `count` `Int` tokens in square brackets.
    fn ser_tuple(&mut self, count: usize) -> (result: Result<String, TdfError>)
        ensures
            final(self).stream@ == old(self).stream@,
            final(self).floats == old(self).floats,
            match json_tuple(old(self).stream@, old(self).stream.1 as int, count as nat) {
                Ok((text, end)) => {
                    &&& result is Ok
                    &&& result->Ok_0@ == text
                    &&& final(self).stream.1 == end
                    &&& old(self).stream.1 <= end
                    &&& count > 0 ==> consumes(old(self).stream@, old(self).stream.1 as int, end)
                },
                Err(e) => result == Err::<String, TdfError>(e),
            },
    {
        let ghost tokens = self.stream@;
        let ghost texts = self.texts();
        let ghost pos = self.stream.1 as int;
        let mut output = String::new();
        output.append("[");
        assert(output@ =~= "["@);
        let mut i: usize = 0;
        while i < count
            invariant
                tokens == old(self).stream@,
                pos == old(self).stream.1,
                self.stream@ == tokens,
                self.floats == old(self).floats,
                texts == old(self).texts(),
                i <= count,
                pos <= self.stream.1,
                i > 0 ==> pos < self.stream.1 <= tokens.len(),
                json_ints(tokens, pos, count as nat, "["@) == json_ints(
                    tokens,
                    self.stream.1 as int,
                    (count - i) as nat,
                    output@,
                ),
            decreases count - i,
        {
            let text = self.ser_int()?;
            output.append(text.as_str());
            if i != count - 1 {
                output.append(",");
            }
            i += 1;
        }
        output.append("]");
        Ok(output)
    }

    /// Renders the two `Int` tokens of an object type.
    pub fn ser_object_type(&mut self) -> (result: Result<String, TdfError>)
        ensures
            renders(
                *old(self),
                *final(self),
                result,
                json_tuple(old(self).stream@, old(self).stream.1 as int, 2),
            ),
    {
        self.ser_tuple(2)
    }

    /// Renders the three `Int` tokens of an object id.
    pub fn ser_object_id(&mut self) -> (result: Result<String, TdfError>)
        ensures
            renders(
                *old(self),
                *final(self),
                result,
                json_tuple(old(self).stream@, old(self).stream.1 as int, 3),
            ),
    {
        self.ser_tuple(3)
    }

    /// Renders a list of integers, from `IntListStart` to `IntListEnd`.
    pub fn ser_int_list(&mut self) -> (result: Result<String, TdfError>)
        ensures
            renders(
                *old(self),
                *final(self),
                result,
                json_int_list(old(self).stream@, old(self).stream.1 as int),
            ),
    {
        let at = self.stream.1;
        let token = self.stream.next()?;
        let size = match token {
            TDFToken::IntListStart(s) => s,
            _ => {
                return Err(
                    TdfError::TypeMismatch {
                        expected: TokenKind::IntListStart,
                        observed: token.kind(),
                        offset: at,
                    },
                );
            },
        };
        let output = self.ser_tuple(size)?;
        self.close(TokenKind::IntListEnd)?;
        Ok(output)
    }

    /// Renders the value that the type marker `token_type` announces, from
    /// the tokens at the cursor, at nesting depth `level`.
    pub fn ser_token(&mut self, token_type: TDFToken, level: u32) -> (result: Result<
        String,
        TdfError,
    >)
        ensures
            renders(
                *old(self),
                *final(self),
                result,
                json_value(
                    old(self).stream@,
                    old(self).texts(),
                    old(self).stream.1 as int,
                    token_type@,
                    level,
                ),
            ),
        decreases old(self).stream@.len() - old(self).stream.1, 2nat,
    {
        match token_type {
            TDFToken::IntType => self.ser_int(),
            TDFToken::StringType => self.ser_string(),
            TDFToken::BlobType => self.ser_blob(),
            TDFToken::MapType => self.ser_map(level),
            TDFToken::ListType => self.ser_list(level),
            TDFToken::PairListType => self.ser_pair_list(level),
            TDFToken::UnionType => self.ser_union(level),
            TDFToken::IntListType => self.ser_int_list(),
            TDFToken::ObjectTypeType => self.ser_object_type(),
            TDFToken::ObjectIdType => self.ser_object_id(),
            TDFToken::FloatType => self.ser_float(),
            TDFToken::GenericType => self.ser_generic(level),
            _ => Err(
                TdfError::TypeMismatch {
                    expected: TokenKind::AnyType,
                    observed: token_type.kind(),
                    offset: self.stream.1,
                },
            ),
        }
    }

    /// Renders a map, from `MapStart` to `MapEnd`.
    pub fn ser_map(&mut self, level: u32) -> (result: Result<String, TdfError>)
        ensures
            renders(
                *old(self),
                *final(self),
                result,
                json_map(old(self).stream@, old(self).texts(), old(self).stream.1 as int, level),
            ),
        decreases old(self).stream@.len() - old(self).stream.1, 1nat,
    {
        let ghost tokens = self.stream@;
        let ghost texts = self.texts();
        let ghost pos = self.stream.1 as int;
        let at = self.stream.1;
        let token = self.stream.next()?;
        match token {
            TDFToken::MapStart => {},
            _ => {
                return Err(
                    TdfError::TypeMismatch {
                        expected: TokenKind::MapStart,
                        observed: token.kind(),
                        offset: at,
                    },
                );
            },
        }
        if level == u32::MAX {
            return Err(TdfError::Unsupported { feature: Feature::OversizedLength, offset: at });
        }
        let mut output = String::new();
        let mut first = true;
        output.append("{");
        assert(output@ =~= "{"@);
        loop
            invariant
                tokens == old(self).stream@,
                pos == old(self).stream.1,
                self.stream@ == tokens,
                self.floats == old(self).floats,
                texts == old(self).texts(),
                pos < self.stream.1 <= tokens.len(),
                level < u32::MAX,
                json_map(tokens, texts, pos, level) == json_entries(
                    tokens,
                    texts,
                    self.stream.1 as int,
                    level,
                    first,
                    output@,
                ),
            decreases tokens.len() - self.stream.1,
        {
            let done = self.ser_entry(&mut output, level, first)?;
            if done {
                return Ok(output);
            }
            first = false;
        }
    }

    /// Renders the token at the cursor as the end of a map, or the entry
    /// that begins there, behind `output`; and tells whether it was the
    /// end.
    fn ser_entry(&mut self, output: &mut String, level: u32, first: bool) -> (result: Result<
        bool,
        TdfError,
    >)
        requires
            level < u32::MAX,
        ensures
            final(self).stream@ == old(self).stream@,
            final(self).floats == old(self).floats,
            match result {
                Ok(done) => {
                    &&& consumes(
                        old(self).stream@,
                        old(self).stream.1 as int,
                        final(self).stream.1 as int,
                    )
                    &&& json_entries(
                        old(self).stream@,
                        old(self).texts(),
                        old(self).stream.1 as int,
                        level,
                        first,
                        old(output)@,
                    ) == if done {
                        Ok::<(Seq<char>, int), TdfError>(
                            (final(output)@, final(self).stream.1 as int),
                        )
                    } else {
                        json_entries(
                            old(self).stream@,
                        old(self).texts(),
                            final(self).stream.1 as int,
                            level,
                            false,
                            final(output)@,
                        )
                    }
                },
                Err(e) => json_entries(
                    old(self).stream@,
                        old(self).texts(),
                    old(self).stream.1 as int,
                    level,
                    first,
                    old(output)@,
                ) == Err::<(Seq<char>, int), TdfError>(e),
            },
        decreases old(self).stream@.len() - old(self).stream.1, 0nat,
    {
        let label = self.stream.get(self.stream.1)?;
        match label {
            TDFToken::MapEnd => {
                self.stream.skip();
                if !first {
                    output.append("\n");
                } else {
                    push_tabs(output, level);
                }
                output.append("}");
                return Ok(true);
            },
            TDFToken::MapUnion => {
                self.stream.skip();
            },
            _ => {},
        }
        if !first {
            output.append(",\n");
        } else {
            output.append("\n");
        }
        push_tabs(output, level + 1);
        let name = self.ser_label()?;
        output.append(name.as_str());
        output.append(": ");
        let value = self.stream.next()?;
        let text = self.ser_token(value, level + 1)?;
        output.append(text.as_str());
        Ok(false)
    }

    /// Renders a list, from `ListStart` to `ListEnd`.
    pub fn ser_list(&mut self, level: u32) -> (result: Result<String, TdfError>)
        ensures
            renders(
                *old(self),
                *final(self),
                result,
                json_list(old(self).stream@, old(self).texts(), old(self).stream.1 as int, level),
            ),
        decreases old(self).stream@.len() - old(self).stream.1, 0nat,
    {
        let ghost tokens = self.stream@;
        let ghost texts = self.texts();
        let ghost pos = self.stream.1 as int;
        let at = self.stream.1;
        let token = self.stream.next()?;
        let size = match token {
            TDFToken::ListStart(s) => s,
            _ => {
                return Err(
                    TdfError::TypeMismatch {
                        expected: TokenKind::ListStart,
                        observed: token.kind(),
                        offset: at,
                    },
                );
            },
        };
        let mut output = String::new();
        let inner_type = self.stream.next()?;
        output.append("[");
        assert(output@ =~= "["@);
        let mut i: usize = 0;
        while i < size
            invariant
                tokens == old(self).stream@,
                pos == old(self).stream.1,
                self.stream@ == tokens,
                self.floats == old(self).floats,
                texts == old(self).texts(),
                i <= size,
                pos + 2 <= self.stream.1 <= tokens.len(),
                token_at(tokens, pos) == Ok::<TokenView, TdfError>(TokenView::ListStart(size)),
                token_at(tokens, pos + 1) == Ok::<TokenView, TdfError>(inner_type@),
                json_items(tokens, texts, pos + 2, inner_type@, size as nat, level, "["@)
                    == json_items(
                    tokens,
                    texts,
                    self.stream.1 as int,
                    inner_type@,
                    (size - i) as nat,
                    level,
                    output@,
                ),
            decreases size - i,
        {
            let text = self.ser_token(inner_type.clone(), level)?;
            output.append(text.as_str());
            if i != size - 1 {
                output.append(",");
            }
            i += 1;
        }
        output.append("]");
        self.close(TokenKind::ListEnd)?;
        Ok(output)
    }

    /// Renders a pair list, from `PairListStart` to `PairListEnd`.
    pub fn ser_pair_list(&mut self, level: u32) -> (result: Result<String, TdfError>)
        ensures
            renders(
                *old(self),
                *final(self),
                result,
                json_pair_list(
                    old(self).stream@,
                    old(self).texts(),
                    old(self).stream.1 as int,
                    level,
                ),
            ),
        decreases old(self).stream@.len() - old(self).stream.1, 0nat,
    {
        let ghost tokens = self.stream@;
        let ghost texts = self.texts();
        let ghost pos = self.stream.1 as int;
        let at = self.stream.1;
        let token = self.stream.next()?;
        let size = match token {
            TDFToken::PairListStart(s) => s,
            _ => {
                return Err(
                    TdfError::TypeMismatch {
                        expected: TokenKind::PairListStart,
                        observed: token.kind(),
                        offset: at,
                    },
                );
            },
        };
        let mut output = String::new();
        let k_type = self.stream.next()?;
        let v_type = self.stream.next()?;
        output.append("[");
        assert(output@ =~= "["@);
        let mut i: usize = 0;
        while i < size
            invariant
                tokens == old(self).stream@,
                pos == old(self).stream.1,
                self.stream@ == tokens,
                self.floats == old(self).floats,
                texts == old(self).texts(),
                i <= size,
                pos + 3 <= self.stream.1 <= tokens.len(),
                token_at(tokens, pos) == Ok::<TokenView, TdfError>(TokenView::PairListStart(size)),
                token_at(tokens, pos + 1) == Ok::<TokenView, TdfError>(k_type@),
                token_at(tokens, pos + 2) == Ok::<TokenView, TdfError>(v_type@),
                json_pairs(tokens, texts, pos + 3, k_type@, v_type@, size as nat, level, "["@)
                    == json_pairs(
                    tokens,
                    texts,
                    self.stream.1 as int,
                    k_type@,
                    v_type@,
                    (size - i) as nat,
                    level,
                    output@,
                ),
            decreases size - i,
        {
            output.append("[");
            let k = self.ser_token(k_type.clone(), level)?;
            output.append(k.as_str());
            output.append(",");
            let v = self.ser_token(v_type.clone(), level)?;
            output.append(v.as_str());
            output.append("]");
            if i != size - 1 {
                output.append(",\n");
            }
            i += 1;
        }
        output.append("]");
        self.close(TokenKind::PairListEnd)?;
        Ok(output)
    }

    /// Renders a union, from `UnionStart` to `UnionEnd`.
    #[verifier::rlimit(50)]
    pub fn ser_union(&mut self, level: u32) -> (result: Result<String, TdfError>)
        ensures
            renders(
                *old(self),
                *final(self),
                result,
                json_union(old(self).stream@, old(self).texts(), old(self).stream.1 as int, level),
            ),
        decreases old(self).stream@.len() - old(self).stream.1, 0nat,
    {
        let at = self.stream.1;
        let token = self.stream.next()?;
        let union_type = match token {
            TDFToken::UnionStart(t) => t,
            _ => {
                return Err(
                    TdfError::TypeMismatch {
                        expected: TokenKind::UnionStart,
                        observed: token.kind(),
                        offset: at,
                    },
                );
            },
        };
        let mut output = String::new();
        output.append("{");
        assert(output@ =~= "{"@);
        output.append("\"type\": \"union\",\n\"union\": ");
        output.append(format_int(union_type.to_u8() as i64).as_str());
        match union_type {
            UnionType::Unset => {
                self.close(TokenKind::UnionEnd)?;
                output.append("}");
                return Ok(output);
            },
            _ => {},
        }
        let name = self.ser_label()?;
        output.append(",\n");
        output.append(name.as_str());
        let tag_at = self.stream.1;
        let value = self.stream.next()?;
        let tag = match value.get_tag() {
            Ok(tag) => tag,
            Err(e) => {
                return Err(e.located(tag_at));
            },
        };
        output.append(",\n\"tag\": ");
        output.append(format_int(tag as i64).as_str());
        output.append(",\n\"valie\": ");
        let text = self.ser_token(value, level)?;
        output.append(text.as_str());
        output.append("}");
        self.close(TokenKind::UnionEnd)?;
        Ok(output)
    }

    /// Renders a generic, from `GenericStart` to `GenericEnd`.
    pub fn ser_generic(&mut self, level: u32) -> (result: Result<String, TdfError>)
        ensures
            renders(
                *old(self),
                *final(self),
                result,
                json_generic(
                    old(self).stream@,
                    old(self).texts(),
                    old(self).stream.1 as int,
                    level,
                ),
            ),
        decreases old(self).stream@.len() - old(self).stream.1, 0nat,
    {
        let at = self.stream.1;
        let token = self.stream.next()?;
        let exist = match token {
            TDFToken::GenericStart(t) => t,
            _ => {
                return Err(
                    TdfError::TypeMismatch {
                        expected: TokenKind::GenericStart,
                        observed: token.kind(),
                        offset: at,
                    },
                );
            },
        };
        let mut output = String::new();
        if !exist {
            output.append("{ \"type\": \"generic\"}");
            assert(output@ =~= "{ \"type\": \"generic\"}"@);
            self.close(TokenKind::GenericEnd)?;
            return Ok(output);
        }
        let id_at = self.stream.1;
        let tdf_id = self.stream.next()?;
        output.append("{ \"type\": \"generic\",");
        assert(output@ =~= "{ \"type\": \"generic\","@);
        match tdf_id {
            TDFToken::Int(id) => {
                output.append("\n\"id\": ");
                output.append(self.write_number(id).as_str());
            },
            _ => {
                return Err(
                    TdfError::TypeMismatch {
                        expected: TokenKind::Int,
                        observed: tdf_id.kind(),
                        offset: id_at,
                    },
                );
            },
        }
        let label_at = self.stream.1;
        let generic_label = self.stream.next()?;
        match generic_label {
            TDFToken::Label(label_string) => {
                output.append(",\n");
                output.append(self.write_label(&label_string).as_str());
            },
            TDFToken::GenericEnd => {
                output.append("}");
                return Ok(output);
            },
            _ => {
                return Err(
                    TdfError::TypeMismatch {
                        expected: TokenKind::Label,
                        observed: generic_label.kind(),
                        offset: label_at,
                    },
                );
            },
        }
        let tag_at = self.stream.1;
        let value = self.stream.next()?;
        let tag = match value.get_tag() {
            Ok(tag) => tag,
            Err(e) => {
                return Err(e.located(tag_at));
            },
        };
        output.append("{\n");
        output.append("\"tag\": ");
        output.append(format_int(tag as i64).as_str());
        output.append(",\n");
        output.append("\"value\": ");
        let text = self.ser_token(value, level)?;
        output.append(text.as_str());
        output.append("}");
        self.close(TokenKind::GenericEnd)?;
        output.append("}");
        Ok(output)
    }
}

impl TDFSerializer<String> for JsonSerializer {
    /// Renders a whole token buffer, the type marker at the cursor and the
    /// value of that type, and appends the text to `writer`.
    fn serialize(stream: TDFTokenStream, writer: &mut String) -> (result: Result<(), TdfError>)
        ensures
            match json_document(stream@, Seq::empty(), stream.1 as int) {
                Ok(text) => result is Ok && final(writer)@ == old(writer)@ + text,
                Err(e) => result == Err::<(), TdfError>(e) && final(writer)@ == old(writer)@,
            },
    {
        let mut des = Self::new(stream);
        let token = des.stream.next()?;
        let str_res = des.ser_token(token, 0)?;
        writer.append(str_res.as_str());
        Ok(())
    }
}

impl JsonSerializer {
    /// Renders a whole token buffer as [`TDFSerializer::serialize`] does,
    /// with `floats[i]` for the `Float` token at index `i`.
    pub fn serialize_with_floats(
        stream: TDFTokenStream,
        floats: Vec<String>,
        writer: &mut String,
    ) -> (result: Result<(), TdfError>)
        ensures
            match json_document(
                stream@,
                Seq::new(floats@.len(), |i: int| floats@[i]@),
                stream.1 as int,
            ) {
                Ok(text) => result is Ok && final(writer)@ == old(writer)@ + text,
                Err(e) => result == Err::<(), TdfError>(e) && final(writer)@ == old(writer)@,
            },
    {
        let mut des = Self::with_floats(stream, floats);
        let token = des.stream.next()?;
        let str_res = des.ser_token(token, 0)?;
        writer.append(str_res.as_str());
        Ok(())
    }
}

} // verus!
