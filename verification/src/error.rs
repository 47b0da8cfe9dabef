//! The error taxonomy shared by every layer of the codec.

use vstd::prelude::*;

verus! {

/// The shape of a token, without its payload. Errors name the expected and
/// the observed shape with it.
#[derive(Debug, Clone, Copy, PartialEq, Eq, Structural)]
pub enum TokenKind {
    /// Any of the twelve type markers.
    AnyType,
    IntType,
    Int,
    StringType,
    String,
    BlobType,
    Blob,
    MapType,
    MapStart,
    Label,
    MapEnd,
    MapUnion,
    ListType,
    ListStart,
    ListEnd,
    PairListType,
    PairListStart,
    PairListEnd,
    UnionType,
    UnionStart,
    UnionEnd,
    IntListType,
    IntListStart,
    IntListEnd,
    ObjectTypeType,
    ObjectIdType,
    FloatType,
    Float,
    GenericType,
    GenericStart,
    GenericEnd,
}

/// What an `Unsupported` error refers to.
#[derive(Debug, Clone, Copy, PartialEq, Eq, Structural)]
pub enum Feature {
    /// Type tag 11, historically a time type.
    ReservedTypeTag,
    /// A union discriminant byte outside the six defined ones.
    UnionDiscriminant,
    /// A union variant whose inner schema is not agreed on
    /// (`XboxServerAddr`, `HostnameAddr`).
    UnionVariant,
    /// A generic payload of a type other than integer or string.
    GenericPayload,
    /// Bytes after the closing NUL of the root map.
    TrailingBytes,
    /// A count or length that the wire integer or the machine cannot carry.
    OversizedLength,
    /// A negative count or length where none is allowed.
    NegativeLength,
    /// A float where text is asked for.
    FloatText,
}

/// Why a codec invocation was abandoned. `offset` is a byte offset where
/// bytes are read and a token index where tokens are read.
#[derive(Debug, Clone, Copy, PartialEq, Eq, Structural)]
#[allow(inconsistent_fields)]
pub enum TdfError {
    /// The byte source was exhausted in the middle of a value.
    TruncatedInput { offset: usize },
    /// The token stream was read past its end.
    EndOfStream { offset: usize },
    /// A type byte that is not in the table of wire types.
    UnknownTypeTag { tag: u8, offset: usize },
    /// A token of another shape stood where `expected` was due.
    TypeMismatch { expected: TokenKind, observed: TokenKind, offset: usize },
    /// A field label differs from the one the schema asks for. Both labels
    /// are given in packed form.
    LabelMismatch { expected: u32, observed: u32, offset: usize },
    /// A collection count disagrees with what was found.
    SizeMismatch { declared: usize, actual: usize, offset: usize },
    /// A string that was asked for as text is not UTF-8.
    InvalidUtf8 { offset: usize },
    /// A reserved or not yet agreed part of the format.
    Unsupported { feature: Feature, offset: usize },
}

impl TdfError {
    /// The same error at another place.
    pub open spec fn at(self, offset: usize) -> TdfError {
        match self {
            TdfError::TruncatedInput { .. } => TdfError::TruncatedInput { offset },
            TdfError::EndOfStream { .. } => TdfError::EndOfStream { offset },
            TdfError::UnknownTypeTag { tag, .. } => TdfError::UnknownTypeTag { tag, offset },
            TdfError::TypeMismatch { expected, observed, .. } => TdfError::TypeMismatch {
                expected,
                observed,
                offset,
            },
            TdfError::LabelMismatch { expected, observed, .. } => TdfError::LabelMismatch {
                expected,
                observed,
                offset,
            },
            TdfError::SizeMismatch { declared, actual, .. } => TdfError::SizeMismatch {
                declared,
                actual,
                offset,
            },
            TdfError::InvalidUtf8 { .. } => TdfError::InvalidUtf8 { offset },
            TdfError::Unsupported { feature, .. } => TdfError::Unsupported { feature, offset },
        }
    }

    /// The same error, placed at `offset`.
    pub fn located(self, offset: usize) -> (moved: TdfError)
        ensures
            moved == self.at(offset),
    {
        match self {
            TdfError::TruncatedInput { .. } => TdfError::TruncatedInput { offset },
            TdfError::EndOfStream { .. } => TdfError::EndOfStream { offset },
            TdfError::UnknownTypeTag { tag, .. } => TdfError::UnknownTypeTag { tag, offset },
            TdfError::TypeMismatch { expected, observed, .. } => TdfError::TypeMismatch {
                expected,
                observed,
                offset,
            },
            TdfError::LabelMismatch { expected, observed, .. } => TdfError::LabelMismatch {
                expected,
                observed,
                offset,
            },
            TdfError::SizeMismatch { declared, actual, .. } => TdfError::SizeMismatch {
                declared,
                actual,
                offset,
            },
            TdfError::InvalidUtf8 { .. } => TdfError::InvalidUtf8 { offset },
            TdfError::Unsupported { feature, .. } => TdfError::Unsupported { feature, offset },
        }
    }
}

} // verus!
