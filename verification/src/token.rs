//! The token model: the typed tokens that stand between the binary format
//! and native records, the numbering of the wire types, and a token buffer
//! with a read cursor.

use vstd::prelude::*;
use crate::error::{Feature, TdfError, TokenKind};

verus! {

/// The variant a union carries. It describes a network topology.
#[derive(Debug, Clone, Copy, PartialEq, Eq, Structural)]
pub enum UnionType {
    /// Client address specific for Xbox
    XboxClientAddr,
    /// Server address specific for Xbox
    XboxServerAddr,
    /// Pair of IPs
    IpPairAddr,
    /// Info about IP address
    IpAddr,
    /// Address of game server
    HostnameAddr,
    /// None is specified in this union
    Unset,
}

impl UnionType {
    /// The discriminant byte of the variant.
    pub open spec fn discriminant(self) -> u8 {
        match self {
            UnionType::XboxClientAddr => 0x0,
            UnionType::XboxServerAddr => 0x1,
            UnionType::IpPairAddr => 0x2,
            UnionType::IpAddr => 0x3,
            UnionType::HostnameAddr => 0x4,
            UnionType::Unset => 0x7F,
        }
    }

    /// The variant with discriminant `byte`, if it is one of the six.
    pub open spec fn of_discriminant(byte: u8) -> Option<UnionType> {
        if byte == 0x0 {
            Some(UnionType::XboxClientAddr)
        } else if byte == 0x1 {
            Some(UnionType::XboxServerAddr)
        } else if byte == 0x2 {
            Some(UnionType::IpPairAddr)
        } else if byte == 0x3 {
            Some(UnionType::IpAddr)
        } else if byte == 0x4 {
            Some(UnionType::HostnameAddr)
        } else if byte == 0x7F {
            Some(UnionType::Unset)
        } else {
            None
        }
    }

    /// The discriminant byte written for this variant.
    pub fn to_u8(self) -> (byte: u8)
        ensures
            byte == self.discriminant(),
    {
        match self {
            UnionType::XboxClientAddr => 0x0,
            UnionType::XboxServerAddr => 0x1,
            UnionType::IpPairAddr => 0x2,
            UnionType::IpAddr => 0x3,
            UnionType::HostnameAddr => 0x4,
            UnionType::Unset => 0x7F,
        }
    }

    /// The variant that a discriminant byte stands for.
    pub fn from_u8(byte: u8) -> (variant: Option<UnionType>)
        ensures
            variant == Self::of_discriminant(byte),
    {
        match byte {
            0x0 => Some(UnionType::XboxClientAddr),
            0x1 => Some(UnionType::XboxServerAddr),
            0x2 => Some(UnionType::IpPairAddr),
            0x3 => Some(UnionType::IpAddr),
            0x4 => Some(UnionType::HostnameAddr),
            0x7F => Some(UnionType::Unset),
            _ => None,
        }
    }

    /// Reading back a written discriminant gives the variant.
    pub proof fn lemma_discriminant_round_trip(self)
        ensures
            Self::of_discriminant(self.discriminant()) == Some(self),
    {
    }
}

/// A token. Type markers carry no payload and announce the shape of the
/// value that follows; the other tokens carry values or frame collections.
#[derive(Debug, PartialEq)]
pub enum TDFToken {
    /// Indicates Integer type
    IntType,
    /// Integer
    Int(i64),
    /// Indicates String type
    StringType,
    /// Bytes representing a string,
    /// but not always valid utf-8
    String(Vec<u8>),
    /// Indicates Blob type
    BlobType,
    /// Any sort of raw bytes
    Blob(Vec<u8>),
    /// Indicates Map type
    MapType,
    /// Map starting point
    MapStart,
    /// Label primitive
    Label(String),
    /// Map end marker
    MapEnd,
    /// Special map Marker
    MapUnion,
    /// Indicates List type
    ListType,
    /// Start list with size
    ListStart(usize),
    /// End List
    ListEnd,
    /// Indicates Pair list type
    PairListType,
    /// Pair list with length
    PairListStart(usize),
    /// End the pair list
    PairListEnd,
    /// Indicates Union type
    UnionType,
    /// Some Typed Union start
    UnionStart(UnionType),
    /// End of the Union
    UnionEnd,
    /// Indicates Int List type
    IntListType,
    /// Start of Int list with size
    IntListStart(usize),
    /// End of the int list
    IntListEnd,
    /// Indicates Object type type
    ObjectTypeType,
    /// Object Id type
    ObjectIdType,
    /// Indicates Float type
    FloatType,
    /// Float number, as the bits of its IEEE-754 single precision form
    Float(u32),
    /// Indicates Generic type
    GenericType,
    /// Indicates if Generic exists
    GenericStart(bool),
    /// End of Generic
    GenericEnd,
}

/// The mathematical value of a token: byte strings are sequences of bytes
/// and a label is a sequence of characters.
pub enum TokenView {
    IntType,
    Int(i64),
    StringType,
    String(Seq<u8>),
    BlobType,
    Blob(Seq<u8>),
    MapType,
    MapStart,
    Label(Seq<char>),
    MapEnd,
    MapUnion,
    ListType,
    ListStart(usize),
    ListEnd,
    PairListType,
    PairListStart(usize),
    PairListEnd,
    UnionType,
    UnionStart(UnionType),
    UnionEnd,
    IntListType,
    IntListStart(usize),
    IntListEnd,
    ObjectTypeType,
    ObjectIdType,
    FloatType,
    Float(u32),
    GenericType,
    GenericStart(bool),
    GenericEnd,
}

impl TokenView {
    /// The shape of the token.
    pub open spec fn kind(self) -> TokenKind {
        match self {
            TokenView::IntType => TokenKind::IntType,
            TokenView::Int(_) => TokenKind::Int,
            TokenView::StringType => TokenKind::StringType,
            TokenView::String(_) => TokenKind::String,
            TokenView::BlobType => TokenKind::BlobType,
            TokenView::Blob(_) => TokenKind::Blob,
            TokenView::MapType => TokenKind::MapType,
            TokenView::MapStart => TokenKind::MapStart,
            TokenView::Label(_) => TokenKind::Label,
            TokenView::MapEnd => TokenKind::MapEnd,
            TokenView::MapUnion => TokenKind::MapUnion,
            TokenView::ListType => TokenKind::ListType,
            TokenView::ListStart(_) => TokenKind::ListStart,
            TokenView::ListEnd => TokenKind::ListEnd,
            TokenView::PairListType => TokenKind::PairListType,
            TokenView::PairListStart(_) => TokenKind::PairListStart,
            TokenView::PairListEnd => TokenKind::PairListEnd,
            TokenView::UnionType => TokenKind::UnionType,
            TokenView::UnionStart(_) => TokenKind::UnionStart,
            TokenView::UnionEnd => TokenKind::UnionEnd,
            TokenView::IntListType => TokenKind::IntListType,
            TokenView::IntListStart(_) => TokenKind::IntListStart,
            TokenView::IntListEnd => TokenKind::IntListEnd,
            TokenView::ObjectTypeType => TokenKind::ObjectTypeType,
            TokenView::ObjectIdType => TokenKind::ObjectIdType,
            TokenView::FloatType => TokenKind::FloatType,
            TokenView::Float(_) => TokenKind::Float,
            TokenView::GenericType => TokenKind::GenericType,
            TokenView::GenericStart(_) => TokenKind::GenericStart,
            TokenView::GenericEnd => TokenKind::GenericEnd,
        }
    }

    /// Whether the token carries a value.
    pub open spec fn has_payload(self) -> bool {
        match self {
            TokenView::Int(_) => true,
            TokenView::String(_) => true,
            TokenView::Blob(_) => true,
            TokenView::Label(_) => true,
            TokenView::ListStart(_) => true,
            TokenView::PairListStart(_) => true,
            TokenView::IntListStart(_) => true,
            TokenView::UnionStart(_) => true,
            TokenView::Float(_) => true,
            TokenView::GenericStart(_) => true,
            _ => false,
        }
    }

    /// The tag byte of a type marker; `None` for every other token.
    pub open spec fn tag(self) -> Option<u8> {
        match self {
            TokenView::IntType => Some(0u8),
            TokenView::StringType => Some(1u8),
            TokenView::BlobType => Some(2u8),
            TokenView::MapType => Some(3u8),
            TokenView::ListType => Some(4u8),
            TokenView::PairListType => Some(5u8),
            TokenView::UnionType => Some(6u8),
            TokenView::IntListType => Some(7u8),
            TokenView::ObjectTypeType => Some(8u8),
            TokenView::ObjectIdType => Some(9u8),
            TokenView::FloatType => Some(10u8),
            TokenView::GenericType => Some(12u8),
            _ => None,
        }
    }

    /// Whether the token is one of the twelve type markers.
    pub open spec fn is_type(self) -> bool {
        self.tag() is Some
    }

    /// The type marker with tag byte `tag`; `None` where the table of wire
    /// types has no such tag.
    pub open spec fn of_tag(tag: u8) -> Option<TokenView> {
        if tag == 0 {
            Some(TokenView::IntType)
        } else if tag == 1 {
            Some(TokenView::StringType)
        } else if tag == 2 {
            Some(TokenView::BlobType)
        } else if tag == 3 {
            Some(TokenView::MapType)
        } else if tag == 4 {
            Some(TokenView::ListType)
        } else if tag == 5 {
            Some(TokenView::PairListType)
        } else if tag == 6 {
            Some(TokenView::UnionType)
        } else if tag == 7 {
            Some(TokenView::IntListType)
        } else if tag == 8 {
            Some(TokenView::ObjectTypeType)
        } else if tag == 9 {
            Some(TokenView::ObjectIdType)
        } else if tag == 10 {
            Some(TokenView::FloatType)
        } else if tag == 12 {
            Some(TokenView::GenericType)
        } else {
            None
        }
    }

    /// What reading the type byte `tag` at byte `offset` gives: the type
    /// marker, or the error for a reserved or unknown tag.
    pub open spec fn read_tag(tag: u8, offset: usize) -> Result<TokenView, TdfError> {
        match Self::of_tag(tag) {
            Some(marker) => Ok(marker),
            None => if tag == 11 {
                Err(TdfError::Unsupported { feature: Feature::ReservedTypeTag, offset })
            } else {
                Err(TdfError::UnknownTypeTag { tag, offset })
            },
        }
    }

    /// A type marker is found again from its tag, and a tag from its marker.
    pub proof fn lemma_tag_round_trip(self, tag: u8)
        ensures
            self.tag() matches Some(t) ==> Self::of_tag(t) == Some(self),
            Self::of_tag(tag) matches Some(m) ==> m.tag() == Some(tag),
    {
    }
}

impl View for TDFToken {
    type V = TokenView;

    open spec fn view(&self) -> TokenView {
        match self {
            TDFToken::IntType => TokenView::IntType,
            TDFToken::Int(v) => TokenView::Int(*v),
            TDFToken::StringType => TokenView::StringType,
            TDFToken::String(bytes) => TokenView::String(bytes@),
            TDFToken::BlobType => TokenView::BlobType,
            TDFToken::Blob(bytes) => TokenView::Blob(bytes@),
            TDFToken::MapType => TokenView::MapType,
            TDFToken::MapStart => TokenView::MapStart,
            TDFToken::Label(text) => TokenView::Label(text@),
            TDFToken::MapEnd => TokenView::MapEnd,
            TDFToken::MapUnion => TokenView::MapUnion,
            TDFToken::ListType => TokenView::ListType,
            TDFToken::ListStart(n) => TokenView::ListStart(*n),
            TDFToken::ListEnd => TokenView::ListEnd,
            TDFToken::PairListType => TokenView::PairListType,
            TDFToken::PairListStart(n) => TokenView::PairListStart(*n),
            TDFToken::PairListEnd => TokenView::PairListEnd,
            TDFToken::UnionType => TokenView::UnionType,
            TDFToken::UnionStart(u) => TokenView::UnionStart(*u),
            TDFToken::UnionEnd => TokenView::UnionEnd,
            TDFToken::IntListType => TokenView::IntListType,
            TDFToken::IntListStart(n) => TokenView::IntListStart(*n),
            TDFToken::IntListEnd => TokenView::IntListEnd,
            TDFToken::ObjectTypeType => TokenView::ObjectTypeType,
            TDFToken::ObjectIdType => TokenView::ObjectIdType,
            TDFToken::FloatType => TokenView::FloatType,
            TDFToken::Float(bits) => TokenView::Float(*bits),
            TDFToken::GenericType => TokenView::GenericType,
            TDFToken::GenericStart(present) => TokenView::GenericStart(*present),
            TDFToken::GenericEnd => TokenView::GenericEnd,
        }
    }
}

impl Clone for TDFToken {
    fn clone(&self) -> (copy: Self)
        ensures
            copy@ == self@,
    {
        match self {
            TDFToken::IntType => TDFToken::IntType,
            TDFToken::Int(v) => TDFToken::Int(*v),
            TDFToken::StringType => TDFToken::StringType,
            TDFToken::String(bytes) => TDFToken::String(bytes.clone()),
            TDFToken::BlobType => TDFToken::BlobType,
            TDFToken::Blob(bytes) => TDFToken::Blob(bytes.clone()),
            TDFToken::MapType => TDFToken::MapType,
            TDFToken::MapStart => TDFToken::MapStart,
            TDFToken::Label(text) => TDFToken::Label(text.clone()),
            TDFToken::MapEnd => TDFToken::MapEnd,
            TDFToken::MapUnion => TDFToken::MapUnion,
            TDFToken::ListType => TDFToken::ListType,
            TDFToken::ListStart(n) => TDFToken::ListStart(*n),
            TDFToken::ListEnd => TDFToken::ListEnd,
            TDFToken::PairListType => TDFToken::PairListType,
            TDFToken::PairListStart(n) => TDFToken::PairListStart(*n),
            TDFToken::PairListEnd => TDFToken::PairListEnd,
            TDFToken::UnionType => TDFToken::UnionType,
            TDFToken::UnionStart(u) => TDFToken::UnionStart(*u),
            TDFToken::UnionEnd => TDFToken::UnionEnd,
            TDFToken::IntListType => TDFToken::IntListType,
            TDFToken::IntListStart(n) => TDFToken::IntListStart(*n),
            TDFToken::IntListEnd => TDFToken::IntListEnd,
            TDFToken::ObjectTypeType => TDFToken::ObjectTypeType,
            TDFToken::ObjectIdType => TDFToken::ObjectIdType,
            TDFToken::FloatType => TDFToken::FloatType,
            TDFToken::Float(bits) => TDFToken::Float(*bits),
            TDFToken::GenericType => TDFToken::GenericType,
            TDFToken::GenericStart(present) => TDFToken::GenericStart(*present),
            TDFToken::GenericEnd => TDFToken::GenericEnd,
        }
    }
}

/// Whether two byte strings are equal.
fn same_bytes(a: &Vec<u8>, b: &Vec<u8>) -> (equal: bool)
    ensures
        equal == (a@ == b@),
{
    if a.len() != b.len() {
        return false;
    }
    let mut i: usize = 0;
    while i < a.len()
        invariant
            i <= a.len(),
            a.len() == b.len(),
            forall|j: int| 0 <= j < i ==> a@[j] == b@[j],
        decreases a.len() - i,
    {
        if a[i] != b[i] {
            return false;
        }
        i += 1;
    }
    assert(a@ =~= b@);
    true
}

impl TDFToken {
    /// Whether two tokens are equal: of the same shape and with the same
    /// payload.
    pub fn same(&self, other: &TDFToken) -> (equal: bool)
        ensures
            equal == (self@ == other@),
    {
        match (self, other) {
            (TDFToken::Int(a), TDFToken::Int(b)) => *a == *b,
            (TDFToken::String(a), TDFToken::String(b)) => same_bytes(a, b),
            (TDFToken::Blob(a), TDFToken::Blob(b)) => same_bytes(a, b),
            (TDFToken::Label(a), TDFToken::Label(b)) => *a == *b,
            (TDFToken::ListStart(a), TDFToken::ListStart(b)) => *a == *b,
            (TDFToken::PairListStart(a), TDFToken::PairListStart(b)) => *a == *b,
            (TDFToken::IntListStart(a), TDFToken::IntListStart(b)) => *a == *b,
            (TDFToken::UnionStart(a), TDFToken::UnionStart(b)) => *a == *b,
            (TDFToken::Float(a), TDFToken::Float(b)) => *a == *b,
            (TDFToken::GenericStart(a), TDFToken::GenericStart(b)) => *a == *b,
            (a, b) => {
                let ka = a.kind();
                let kb = b.kind();
                ka == kb && !a.has_payload()
            },
        }
    }

    /// Whether the token carries a value.
    pub fn has_payload(&self) -> (payload: bool)
        ensures
            payload == self@.has_payload(),
    {
        match self {
            TDFToken::Int(_) => true,
            TDFToken::String(_) => true,
            TDFToken::Blob(_) => true,
            TDFToken::Label(_) => true,
            TDFToken::ListStart(_) => true,
            TDFToken::PairListStart(_) => true,
            TDFToken::IntListStart(_) => true,
            TDFToken::UnionStart(_) => true,
            TDFToken::Float(_) => true,
            TDFToken::GenericStart(_) => true,
            _ => false,
        }
    }

    /// The shape of the token.
    pub fn kind(&self) -> (kind: TokenKind)
        ensures
            kind == self@.kind(),
    {
        match self {
            TDFToken::IntType => TokenKind::IntType,
            TDFToken::Int(_) => TokenKind::Int,
            TDFToken::StringType => TokenKind::StringType,
            TDFToken::String(_) => TokenKind::String,
            TDFToken::BlobType => TokenKind::BlobType,
            TDFToken::Blob(_) => TokenKind::Blob,
            TDFToken::MapType => TokenKind::MapType,
            TDFToken::MapStart => TokenKind::MapStart,
            TDFToken::Label(_) => TokenKind::Label,
            TDFToken::MapEnd => TokenKind::MapEnd,
            TDFToken::MapUnion => TokenKind::MapUnion,
            TDFToken::ListType => TokenKind::ListType,
            TDFToken::ListStart(_) => TokenKind::ListStart,
            TDFToken::ListEnd => TokenKind::ListEnd,
            TDFToken::PairListType => TokenKind::PairListType,
            TDFToken::PairListStart(_) => TokenKind::PairListStart,
            TDFToken::PairListEnd => TokenKind::PairListEnd,
            TDFToken::UnionType => TokenKind::UnionType,
            TDFToken::UnionStart(_) => TokenKind::UnionStart,
            TDFToken::UnionEnd => TokenKind::UnionEnd,
            TDFToken::IntListType => TokenKind::IntListType,
            TDFToken::IntListStart(_) => TokenKind::IntListStart,
            TDFToken::IntListEnd => TokenKind::IntListEnd,
            TDFToken::ObjectTypeType => TokenKind::ObjectTypeType,
            TDFToken::ObjectIdType => TokenKind::ObjectIdType,
            TDFToken::FloatType => TokenKind::FloatType,
            TDFToken::Float(_) => TokenKind::Float,
            TDFToken::GenericType => TokenKind::GenericType,
            TDFToken::GenericStart(_) => TokenKind::GenericStart,
            TDFToken::GenericEnd => TokenKind::GenericEnd,
        }
    }

    /// Get the corresponding tag for the typed token
    pub fn get_tag(&self) -> (tag: Result<u8, TdfError>)
        ensures
            tag == match self@.tag() {
                Some(t) => Ok::<u8, TdfError>(t),
                None => Err(
                    TdfError::TypeMismatch {
                        expected: TokenKind::AnyType,
                        observed: self@.kind(),
                        offset: 0,
                    },
                ),
            },
    {
        match self {
            TDFToken::IntType => Ok(0),
            TDFToken::StringType => Ok(1),
            TDFToken::BlobType => Ok(2),
            TDFToken::MapType => Ok(3),
            TDFToken::ListType => Ok(4),
            TDFToken::PairListType => Ok(5),
            TDFToken::UnionType => Ok(6),
            TDFToken::IntListType => Ok(7),
            TDFToken::ObjectTypeType => Ok(8),
            TDFToken::ObjectIdType => Ok(9),
            TDFToken::FloatType => Ok(10),
            TDFToken::GenericType => Ok(12),
            _ => Err(
                TdfError::TypeMismatch {
                    expected: TokenKind::AnyType,
                    observed: self.kind(),
                    offset: 0,
                },
            ),
        }
    }

    /// Get type token from tag
    pub fn from_tag(tag: u8) -> (marker: Result<TDFToken, TdfError>)
        ensures
            match TokenView::read_tag(tag, 0) {
                Ok(m) => marker is Ok && marker->Ok_0@ == m,
                Err(e) => marker == Err::<TDFToken, TdfError>(e),
            },
    {
        match tag {
            0 => Ok(TDFToken::IntType),
            1 => Ok(TDFToken::StringType),
            2 => Ok(TDFToken::BlobType),
            3 => Ok(TDFToken::MapType),
            4 => Ok(TDFToken::ListType),
            5 => Ok(TDFToken::PairListType),
            6 => Ok(TDFToken::UnionType),
            7 => Ok(TDFToken::IntListType),
            8 => Ok(TDFToken::ObjectTypeType),
            9 => Ok(TDFToken::ObjectIdType),
            10 => Ok(TDFToken::FloatType),
            11 => Err(TdfError::Unsupported { feature: Feature::ReservedTypeTag, offset: 0 }),
            12 => Ok(TDFToken::GenericType),
            _ => Err(TdfError::UnknownTypeTag { tag, offset: 0 }),
        }
    }
}

/// A token buffer: the tokens in order, and the index of the next one to
/// read.
#[derive(Debug)]
pub struct TDFTokenStream(pub Vec<TDFToken>, pub usize);

impl Clone for TDFTokenStream {
    fn clone(&self) -> (copy: Self)
        ensures
            copy@ == self@,
            copy.cursor() == self.cursor(),
    {
        let mut tokens: Vec<TDFToken> = Vec::new();
        let mut i: usize = 0;
        while i < self.0.len()
            invariant
                i <= self.0.len(),
                tokens.len() == i,
                forall|j: int| 0 <= j < i ==> tokens@[j]@ == self.0@[j]@,
            decreases self.0.len() - i,
        {
            tokens.push(self.0[i].clone());
            i += 1;
        }
        Self(tokens, self.1)
    }
}

impl View for TDFTokenStream {
    type V = Seq<TokenView>;

    /// The tokens of the buffer, each by its value.
    open spec fn view(&self) -> Seq<TokenView> {
        Seq::new(self.0@.len(), |i: int| self.0@[i]@)
    }
}

impl TDFTokenStream {
    /// The read cursor.
    pub open spec fn cursor(&self) -> int {
        self.1 as int
    }

    /// An empty buffer with the cursor at its start.
    pub fn new() -> (stream: Self)
        ensures
            stream@ == Seq::<TokenView>::empty(),
            stream.cursor() == 0,
    {
        Self(Vec::new(), 0)
    }

    /// The token at the cursor; the cursor then moves one step on.
    pub fn next(&mut self) -> (token: Result<TDFToken, TdfError>)
        ensures
            final(self)@ == old(self)@,
            old(self).cursor() < old(self)@.len() ==> token is Ok
                && token->Ok_0@ == old(self)@[old(self).cursor()]
                && final(self).cursor() == old(self).cursor() + 1,
            old(self).cursor() >= old(self)@.len() ==> token == Err::<TDFToken, TdfError>(
                TdfError::EndOfStream { offset: old(self).1 },
            ) && final(self).cursor() == old(self).cursor(),
    {
        if self.1 >= self.0.len() {
            return Err(TdfError::EndOfStream { offset: self.1 });
        }
        let token = self.0[self.1].clone();
        self.1 += 1;
        Ok(token)
    }

    /// The token at `index`.
    pub fn get(&self, index: usize) -> (token: Result<TDFToken, TdfError>)
        ensures
            index < self@.len() ==> token is Ok && token->Ok_0@ == self@[index as int],
            index >= self@.len() ==> token == Err::<TDFToken, TdfError>(
                TdfError::EndOfStream { offset: index },
            ),
    {
        if index >= self.0.len() {
            return Err(TdfError::EndOfStream { offset: index });
        }
        Ok(self.0[index].clone())
    }

    /// Moves the cursor `steps` tokens back, to read them again. The cursor
    /// cannot go back beyond the first token.
    pub fn peek_back(&mut self, steps: usize) -> (result: Result<(), TdfError>)
        ensures
            final(self)@ == old(self)@,
            steps <= old(self).cursor() ==> result is Ok && final(self).cursor() == old(
                self,
            ).cursor() - steps,
            steps > old(self).cursor() ==> result == Err::<(), TdfError>(
                TdfError::EndOfStream { offset: old(self).1 },
            ) && final(self).cursor() == old(self).cursor(),
    {
        if steps > self.1 {
            return Err(TdfError::EndOfStream { offset: self.1 });
        }
        self.1 -= steps;
        Ok(())
    }

    /// Moves the cursor one step on, over a token that has been looked at.
    pub(crate) fn skip(&mut self)
        requires
            old(self).cursor() < old(self)@.len(),
        ensures
            final(self)@ == old(self)@,
            final(self).cursor() == old(self).cursor() + 1,
    {
        if self.1 < self.0.len() {
            self.1 += 1;
        }
    }

    /// Appends a token; the cursor stays.
    pub fn push(&mut self, token: TDFToken)
        ensures
            final(self)@ == old(self)@.push(token@),
            final(self).cursor() == old(self).cursor(),
    {
        self.0.push(token);
    }
}

/// Whether the tokens `part` stand in `tokens` from index `pos` on.
pub open spec fn stands(tokens: Seq<TokenView>, pos: int, part: Seq<TokenView>) -> bool {
    &&& 0 <= pos
    &&& pos + part.len() <= tokens.len()
    &&& tokens.subrange(pos, pos + part.len()) == part
}

/// Where a sequence of two parts stands, its parts stand one behind the
/// other.
pub proof fn lemma_stands_split(
    tokens: Seq<TokenView>,
    pos: int,
    first: Seq<TokenView>,
    second: Seq<TokenView>,
)
    requires
        stands(tokens, pos, first + second),
    ensures
        stands(tokens, pos, first),
        stands(tokens, pos + first.len(), second),
{
    let whole = first + second;
    assert(tokens.subrange(pos, pos + first.len()) =~= whole.subrange(0, first.len() as int));
    assert(whole.subrange(0, first.len() as int) =~= first);
    assert(tokens.subrange(pos + first.len(), pos + first.len() + second.len())
        =~= whole.subrange(first.len() as int, whole.len() as int));
    assert(whole.subrange(first.len() as int, whole.len() as int) =~= second);
}

/// The token at an index within tokens that stand in `tokens`.
pub proof fn lemma_stands_index(tokens: Seq<TokenView>, pos: int, part: Seq<TokenView>, i: int)
    requires
        stands(tokens, pos, part),
        0 <= i < part.len(),
    ensures
        0 <= pos + i < tokens.len(),
        tokens[pos + i] == part[i],
{
    assert(tokens.subrange(pos, pos + part.len())[i] == tokens[pos + i]);
}

/// Serializer writes into stream or data given TDFToken
pub trait TDFSerializer<W> {
    /// Writes the tokens of `stream`, from its cursor on, into `writer`.
    fn serialize(stream: TDFTokenStream, writer: &mut W) -> Result<(), TdfError>;
}

/// Deserializer produces TDFToken from some stream or data
pub trait TDFDeserializer<R> {
    /// Reads `reader` into a stream of tokens.
    fn deserialize(reader: &mut R) -> Result<TDFTokenStream, TdfError>;
}

} // verus!
