use tdf::btdf::des::BTDFDeserializer;
use tdf::btdf::label::{code, fold, pack, unpack};
use tdf::btdf::reader::ByteReader;
use tdf::btdf::ser::BTDFSerializer;
use tdf::error::{Feature, TdfError, TokenKind};
use tdf::token::{TDFDeserializer, TDFSerializer, TDFToken, TDFTokenStream, UnionType};

fn encode_int(v: i64) -> Vec<u8> {
    let ser = BTDFSerializer::new(TDFTokenStream::new());
    let mut out = Vec::new();
    ser.write_number(&mut out, v);
    out
}

fn decode_int(bytes: &[u8]) -> Result<i64, TdfError> {
    let des = BTDFDeserializer::new();
    let mut reader = ByteReader::new(bytes);
    des.read_number(&mut reader)
}

fn decode(bytes: &[u8]) -> Result<Vec<TDFToken>, TdfError> {
    let mut reader = ByteReader::new(bytes);
    BTDFDeserializer::deserialize(&mut reader).map(|stream| stream.0)
}

fn encode(tokens: Vec<TDFToken>) -> Result<Vec<u8>, TdfError> {
    let mut out = Vec::new();
    BTDFSerializer::serialize(TDFTokenStream(tokens, 0), &mut out)?;
    Ok(out)
}

fn label(text: &str) -> TDFToken {
    TDFToken::Label(text.to_string())
}

#[test]
fn varint_zero_is_one_zero_byte() {
    assert_eq!(encode_int(0), vec![0x00]);
    assert_eq!(decode_int(&[0x00]), Ok(0));
}

#[test]
fn varint_least_integer() {
    assert_eq!(encode_int(i64::MIN), vec![0x40]);
    assert_eq!(decode_int(&[0x40]), Ok(i64::MIN));
}

#[test]
fn varint_exact_bytes() {
    assert_eq!(encode_int(1), vec![0x01]);
    assert_eq!(encode_int(-1), vec![0x41]);
    assert_eq!(encode_int(63), vec![0x3F]);
    assert_eq!(encode_int(64), vec![0x80, 0x01]);
    assert_eq!(encode_int(-78), vec![0xCE, 0x01]);
    assert_eq!(encode_int(456), vec![0x88, 0x07]);
    assert_eq!(encode_int(543_654), vec![0xA6, 0xAE, 0x42]);
    assert_eq!(
        encode_int(i64::MAX),
        vec![0xBF, 0xFF, 0xFF, 0xFF, 0xFF, 0xFF, 0xFF, 0xFF, 0xFF, 0x01]
    );
}

#[test]
fn varint_round_trip_on_values() {
    let mut values = vec![0i64, 1, -1, 63, 64, -64, 127, 128, 8191, 8192, 543_654, -6543];
    values.extend([i64::MAX, i64::MIN, i64::MIN + 1, i64::MAX - 1]);
    for shift in 0..63 {
        values.push(1i64 << shift);
        values.push(-(1i64 << shift));
        values.push((1i64 << shift) - 1);
    }
    for v in values {
        let bytes = encode_int(v);
        assert_eq!(decode_int(&bytes), Ok(v));
    }
}

#[test]
fn varint_truncated() {
    assert_eq!(decode_int(&[]), Err(TdfError::TruncatedInput { offset: 0 }));
    assert_eq!(decode_int(&[0x80]), Err(TdfError::TruncatedInput { offset: 1 }));
    assert_eq!(decode_int(&[0x80, 0x80, 0x80]), Err(TdfError::TruncatedInput { offset: 3 }));
}

#[test]
fn varint_wraps_at_64_bits() {
    // sixty-four payload bits and more: the bits above the 64th are dropped
    let bytes = [0xBF, 0xFF, 0xFF, 0xFF, 0xFF, 0xFF, 0xFF, 0xFF, 0xFF, 0xFF, 0x7F];
    assert_eq!(decode_int(&bytes), Ok(-1));
    // a negative sign on the magnitude 2^63
    let bytes = [0xC0, 0x80, 0x80, 0x80, 0x80, 0x80, 0x80, 0x80, 0x80, 0x02];
    assert_eq!(decode_int(&bytes), Ok(i64::MIN));
}

#[test]
fn label_gbra_packs_to_its_three_bytes() {
    assert_eq!(pack(b"GBRA"), [0x9E, 0x2C, 0xA1]);
    assert_eq!(unpack(0x9E, 0x2C, 0xA1), "GBRA");
    assert_eq!(code(b"GBRA"), 0x9E2CA1);
}

#[test]
fn label_folding() {
    assert_eq!(fold(b'a'), b'A');
    assert_eq!(fold(b'z'), b'Z');
    assert_eq!(fold(b'_'), b' ');
    assert_eq!(fold(3), 0);
    assert_eq!(fold(b'7'), b'7');
    assert_eq!(pack(b"gbra"), pack(b"GBRA"));
    assert_eq!(pack(b"a_b"), pack(b"A B "));
    assert_eq!(pack(b"IP"), pack(b"IP  "));
    assert_eq!(pack(b"LONGER"), pack(b"LONG"));
    assert_eq!(pack(b""), pack(b"    "));
    assert_eq!(pack(b"    "), [0, 0, 0]);
}

#[test]
fn label_round_trip_over_the_alphabet() {
    let alphabet: Vec<u8> = b" 0123456789ABCDEFGHIJKLMNOPQRSTUVWXYZ".to_vec();
    for &a in &alphabet {
        for &b in &alphabet {
            for &c in &alphabet {
                let text = [a, b, c, alphabet[(a as usize + b as usize + c as usize) % 37]];
                let p = pack(&text);
                assert_eq!(unpack(p[0], p[1], p[2]).as_bytes(), &text);
            }
        }
    }
}

#[test]
fn tags_of_the_twelve_types() {
    let table = [
        (TDFToken::IntType, 0u8),
        (TDFToken::StringType, 1),
        (TDFToken::BlobType, 2),
        (TDFToken::MapType, 3),
        (TDFToken::ListType, 4),
        (TDFToken::PairListType, 5),
        (TDFToken::UnionType, 6),
        (TDFToken::IntListType, 7),
        (TDFToken::ObjectTypeType, 8),
        (TDFToken::ObjectIdType, 9),
        (TDFToken::FloatType, 10),
        (TDFToken::GenericType, 12),
    ];
    for (token, tag) in table {
        assert_eq!(token.get_tag(), Ok(tag));
        assert_eq!(TDFToken::from_tag(tag), Ok(token));
    }
    assert_eq!(
        TDFToken::from_tag(11),
        Err(TdfError::Unsupported { feature: Feature::ReservedTypeTag, offset: 0 })
    );
    assert_eq!(TDFToken::from_tag(13), Err(TdfError::UnknownTypeTag { tag: 13, offset: 0 }));
    assert_eq!(TDFToken::from_tag(255), Err(TdfError::UnknownTypeTag { tag: 255, offset: 0 }));
    assert_eq!(
        TDFToken::MapStart.get_tag(),
        Err(TdfError::TypeMismatch {
            expected: TokenKind::AnyType,
            observed: TokenKind::MapStart,
            offset: 0
        })
    );
}

#[test]
fn union_discriminants() {
    let table = [
        (UnionType::XboxClientAddr, 0u8),
        (UnionType::XboxServerAddr, 1),
        (UnionType::IpPairAddr, 2),
        (UnionType::IpAddr, 3),
        (UnionType::HostnameAddr, 4),
        (UnionType::Unset, 0x7F),
    ];
    for (variant, byte) in table {
        assert_eq!(variant.to_u8(), byte);
        assert_eq!(UnionType::from_u8(byte), Some(variant));
    }
    assert_eq!(UnionType::from_u8(5), None);
    assert_eq!(UnionType::from_u8(0x80), None);
}

#[test]
fn token_stream_cursor() {
    let mut stream = TDFTokenStream::new();
    assert_eq!(stream.next(), Err(TdfError::EndOfStream { offset: 0 }));
    stream.push(TDFToken::Int(1));
    stream.push(TDFToken::MapEnd);
    assert_eq!(stream.get(1), Ok(TDFToken::MapEnd));
    assert_eq!(stream.get(2), Err(TdfError::EndOfStream { offset: 2 }));
    assert_eq!(stream.next(), Ok(TDFToken::Int(1)));
    assert_eq!(stream.next(), Ok(TDFToken::MapEnd));
    assert_eq!(stream.next(), Err(TdfError::EndOfStream { offset: 2 }));
    assert_eq!(stream.1, 2);
    assert_eq!(stream.peek_back(1), Ok(()));
    assert_eq!(stream.1, 1);
    assert_eq!(stream.next(), Ok(TDFToken::MapEnd));
    assert_eq!(stream.peek_back(3), Err(TdfError::EndOfStream { offset: 2 }));
    assert_eq!(stream.1, 2);
    let copy = stream.clone();
    assert_eq!(copy.0, stream.0);
    assert_eq!(copy.1, 2);
}

#[test]
fn token_equality() {
    assert!(TDFToken::Int(3).same(&TDFToken::Int(3)));
    assert!(!TDFToken::Int(3).same(&TDFToken::Int(4)));
    assert!(TDFToken::MapEnd.same(&TDFToken::MapEnd));
    assert!(!TDFToken::MapEnd.same(&TDFToken::ListEnd));
    assert!(label("A").same(&label("A")));
    assert!(!label("A").same(&label("B")));
    assert!(TDFToken::String(vec![1, 2]).same(&TDFToken::String(vec![1, 2])));
    assert!(!TDFToken::String(vec![1, 2]).same(&TDFToken::Blob(vec![1, 2])));
    assert!(!TDFToken::String(vec![1, 2]).same(&TDFToken::String(vec![1])));
}

#[test]
fn empty_document_is_an_empty_root_map() {
    assert_eq!(decode(&[]), Ok(vec![TDFToken::MapType, TDFToken::MapStart, TDFToken::MapEnd]));
    assert_eq!(decode(&[0]), Ok(vec![TDFToken::MapType, TDFToken::MapStart, TDFToken::MapEnd]));
    assert_eq!(
        encode(vec![TDFToken::MapType, TDFToken::MapStart, TDFToken::MapEnd]),
        Ok(vec![])
    );
}

#[test]
fn trailing_bytes_behind_the_root_map() {
    assert_eq!(
        decode(&[0, 7]),
        Err(TdfError::Unsupported { feature: Feature::TrailingBytes, offset: 1 })
    );
    let mut reader = ByteReader::new(&[0, 7]);
    let stream = BTDFDeserializer::deserialize_lenient(&mut reader).unwrap();
    assert_eq!(stream.0, vec![TDFToken::MapType, TDFToken::MapStart, TDFToken::MapEnd]);
    assert_eq!(reader.pos, 1);
}

fn sample_tokens() -> Vec<TDFToken> {
    vec![
        TDFToken::MapType,
        TDFToken::MapStart,
        label("NUMB"),
        TDFToken::IntType,
        TDFToken::Int(-78),
        label("TEXT"),
        TDFToken::StringType,
        TDFToken::String(b"hi".to_vec()),
        label("BLOB"),
        TDFToken::BlobType,
        TDFToken::Blob(vec![0, 45, 255]),
        label("LIST"),
        TDFToken::ListType,
        TDFToken::ListStart(2),
        TDFToken::IntType,
        TDFToken::Int(1),
        TDFToken::Int(2),
        TDFToken::ListEnd,
        label("PAIR"),
        TDFToken::PairListType,
        TDFToken::PairListStart(1),
        TDFToken::IntType,
        TDFToken::StringType,
        TDFToken::Int(5),
        TDFToken::String(b"five".to_vec()),
        TDFToken::PairListEnd,
        TDFToken::MapUnion,
        label("UNIO"),
        TDFToken::UnionType,
        TDFToken::UnionStart(UnionType::IpAddr),
        label("VALU"),
        TDFToken::IntType,
        TDFToken::Int(9),
        TDFToken::UnionEnd,
        label("UNSE"),
        TDFToken::UnionType,
        TDFToken::UnionStart(UnionType::Unset),
        TDFToken::UnionEnd,
        label("INTS"),
        TDFToken::IntListType,
        TDFToken::IntListStart(3),
        TDFToken::Int(675),
        TDFToken::Int(5),
        TDFToken::Int(-1),
        TDFToken::IntListEnd,
        label("OTYP"),
        TDFToken::ObjectTypeType,
        TDFToken::Int(34),
        TDFToken::Int(56),
        label("OBID"),
        TDFToken::ObjectIdType,
        TDFToken::Int(1),
        TDFToken::Int(2),
        TDFToken::Int(3),
        label("FLOA"),
        TDFToken::FloatType,
        TDFToken::Float(0x3F80_0000),
        label("GEN0"),
        TDFToken::GenericType,
        TDFToken::GenericStart(false),
        TDFToken::GenericEnd,
        label("GEN1"),
        TDFToken::GenericType,
        TDFToken::GenericStart(true),
        TDFToken::Int(6),
        TDFToken::GenericEnd,
        label("GEN2"),
        TDFToken::GenericType,
        TDFToken::GenericStart(true),
        TDFToken::Int(5),
        label("GAMA"),
        TDFToken::IntType,
        TDFToken::Int(34),
        TDFToken::GenericEnd,
        label("NEST"),
        TDFToken::MapType,
        TDFToken::MapStart,
        label("IN  "),
        TDFToken::MapType,
        TDFToken::MapStart,
        TDFToken::MapEnd,
        TDFToken::MapEnd,
        TDFToken::MapEnd,
    ]
}

#[test]
fn every_wire_type_round_trips_as_tokens() {
    let tokens = sample_tokens();
    let bytes = encode(tokens.clone()).unwrap();
    assert_eq!(decode(&bytes), Ok(tokens));
}

#[test]
fn document_exact_bytes() {
    let tokens = vec![
        TDFToken::MapType,
        TDFToken::MapStart,
        label("GBRA"),
        TDFToken::StringType,
        TDFToken::String(b"hi".to_vec()),
        label("FLOA"),
        TDFToken::FloatType,
        TDFToken::Float(0x3F80_0000),
        label("SUB "),
        TDFToken::MapType,
        TDFToken::MapStart,
        TDFToken::MapEnd,
        TDFToken::MapEnd,
    ];
    let f = pack(b"FLOA");
    let s = pack(b"SUB ");
    let expected = vec![
        0x9E, 0x2C, 0xA1, 1, 3, b'h', b'i', 0, // GBRA string "hi"
        f[0], f[1], f[2], 10, 0x3F, 0x80, 0x00, 0x00, // FLOA float 1.0
        s[0], s[1], s[2], 3, 0, // SUB  map, closed by NUL
    ];
    assert_eq!(encode(tokens.clone()), Ok(expected.clone()));
    assert_eq!(decode(&expected), Ok(tokens));
}

#[test]
fn string_with_negative_length_runs_to_the_first_nul() {
    let l = pack(b"TEXT");
    let bytes = vec![l[0], l[1], l[2], 1, 0x41, b'a', b'b', b'c', 0];
    let tokens = decode(&bytes).unwrap();
    assert_eq!(tokens[4], TDFToken::String(b"abc".to_vec()));
    // the encoder writes the length
    assert_eq!(
        encode(tokens),
        Ok(vec![l[0], l[1], l[2], 1, 4, b'a', b'b', b'c', 0])
    );
    // without a NUL the input is truncated
    assert_eq!(
        decode(&[l[0], l[1], l[2], 1, 0x41, b'a']),
        Err(TdfError::TruncatedInput { offset: 6 })
    );
}

#[test]
fn string_of_length_zero_has_no_terminator() {
    let l = pack(b"TEXT");
    let tokens = decode(&[l[0], l[1], l[2], 1, 0]).unwrap();
    assert_eq!(tokens[4], TDFToken::String(vec![]));
    assert_eq!(tokens.len(), 6);
}

fn quirked_bytes(field: &[u8; 4]) -> Vec<u8> {
    let l = pack(field);
    vec![
        l[0], l[1], l[2], 5, // the field: a pair list
        0, 3, 1, // integer keys, values declared as maps, one pair
        1, // key 1
        0, 1, 1, // the value, which is a pair list: integer keys, string values, one pair
        2, // key 2
        5, b't', b'e', b's', b't', 0, // value "test"
    ]
}

#[test]
fn gbra_pair_list_with_values_declared_as_maps_is_read() {
    let bytes = quirked_bytes(b"GBRA");
    let tokens = decode(&bytes).unwrap();
    assert_eq!(
        tokens,
        vec![
            TDFToken::MapType,
            TDFToken::MapStart,
            label("GBRA"),
            TDFToken::PairListType,
            TDFToken::PairListStart(1),
            TDFToken::IntType,
            TDFToken::PairListType,
            TDFToken::Int(1),
            TDFToken::PairListStart(1),
            TDFToken::IntType,
            TDFToken::StringType,
            TDFToken::Int(2),
            TDFToken::String(b"test".to_vec()),
            TDFToken::PairListEnd,
            TDFToken::PairListEnd,
            TDFToken::MapEnd,
        ]
    );
    let again = encode(tokens.clone()).unwrap();
    assert_ne!(again, bytes);
    assert_eq!(again[5], 5);
    assert_eq!(decode(&again), Ok(tokens));
}

#[test]
fn another_label_is_read_as_declared() {
    // under another label the value is read as the map it is declared
    // to be, which these bytes are not
    let bytes = quirked_bytes(b"MSID");
    assert!(decode(&bytes).is_err());
}

#[test]
fn map_union_marks() {
    let l = pack(b"AAAA");
    for mark in [1u8, 2] {
        let bytes = vec![mark, l[0], l[1], l[2], 0, 7];
        let tokens = decode(&bytes).unwrap();
        assert_eq!(tokens[2], TDFToken::MapUnion);
        assert_eq!(tokens[3], label("AAAA"));
        assert_eq!(encode(tokens), Ok(vec![2, l[0], l[1], l[2], 0, 7]));
    }
}

#[test]
fn nested_map_must_be_closed() {
    let l = pack(b"AAAA");
    // the root map may end with the input
    assert!(decode(&[l[0], l[1], l[2], 0, 7]).is_ok());
    // a nested map may not
    assert_eq!(
        decode(&[l[0], l[1], l[2], 3]),
        Err(TdfError::TruncatedInput { offset: 4 })
    );
    assert!(decode(&[l[0], l[1], l[2], 3, 0]).is_ok());
}

#[test]
fn decoding_errors_name_the_offset() {
    let l = pack(b"AAAA");
    assert_eq!(decode(&[l[0], l[1]]), Err(TdfError::TruncatedInput { offset: 0 }));
    assert_eq!(decode(&[l[0], l[1], l[2]]), Err(TdfError::TruncatedInput { offset: 3 }));
    assert_eq!(
        decode(&[l[0], l[1], l[2], 13]),
        Err(TdfError::UnknownTypeTag { tag: 13, offset: 3 })
    );
    assert_eq!(
        decode(&[l[0], l[1], l[2], 11]),
        Err(TdfError::Unsupported { feature: Feature::ReservedTypeTag, offset: 3 })
    );
    assert_eq!(
        decode(&[l[0], l[1], l[2], 6, 9]),
        Err(TdfError::Unsupported { feature: Feature::UnionDiscriminant, offset: 4 })
    );
    assert_eq!(
        decode(&[l[0], l[1], l[2], 2, 0x41]),
        Err(TdfError::Unsupported { feature: Feature::NegativeLength, offset: 4 })
    );
    assert_eq!(
        decode(&[l[0], l[1], l[2], 4, 0, 0x41]),
        Err(TdfError::Unsupported { feature: Feature::NegativeLength, offset: 5 })
    );
    assert_eq!(
        decode(&[l[0], l[1], l[2], 2, 5, 1, 2]),
        Err(TdfError::TruncatedInput { offset: 5 })
    );
    assert_eq!(
        decode(&[l[0], l[1], l[2], 4, 0, 2, 1]),
        Err(TdfError::TruncatedInput { offset: 7 })
    );
    assert_eq!(
        decode(&[l[0], l[1], l[2], 10, 1, 2, 3]),
        Err(TdfError::TruncatedInput { offset: 4 })
    );
}

#[test]
fn generic_terminator_is_not_held_to_zero() {
    let l = pack(b"GENE");
    let g = pack(b"GAMA");
    let bytes = vec![l[0], l[1], l[2], 12, 1, 5, g[0], g[1], g[2], 0, 34, 9];
    let tokens = decode(&bytes).unwrap();
    assert_eq!(
        &tokens[4..],
        &[
            TDFToken::GenericStart(true),
            TDFToken::Int(5),
            label("GAMA"),
            TDFToken::IntType,
            TDFToken::Int(34),
            TDFToken::GenericEnd,
            TDFToken::MapEnd,
        ]
    );
    let again = encode(tokens).unwrap();
    assert_eq!(again[11], 0);
}

#[test]
fn encoding_errors() {
    assert_eq!(encode(vec![]), Err(TdfError::EndOfStream { offset: 0 }));
    assert_eq!(
        encode(vec![TDFToken::MapStart]),
        Err(TdfError::TypeMismatch {
            expected: TokenKind::AnyType,
            observed: TokenKind::MapStart,
            offset: 1
        })
    );
    assert_eq!(encode(vec![TDFToken::MapType]), Err(TdfError::EndOfStream { offset: 1 }));
    assert_eq!(
        encode(vec![TDFToken::MapType, TDFToken::MapStart]),
        Err(TdfError::EndOfStream { offset: 2 })
    );
    assert_eq!(
        encode(vec![TDFToken::MapType, TDFToken::MapStart, TDFToken::Int(1)]),
        Err(TdfError::TypeMismatch {
            expected: TokenKind::Label,
            observed: TokenKind::Int,
            offset: 2
        })
    );
    assert_eq!(
        encode(vec![TDFToken::IntType, TDFToken::MapEnd]),
        Err(TdfError::TypeMismatch {
            expected: TokenKind::Int,
            observed: TokenKind::MapEnd,
            offset: 1
        })
    );
    assert_eq!(
        encode(vec![
            TDFToken::ListType,
            TDFToken::ListStart(1),
            TDFToken::IntType,
            TDFToken::Int(1),
            TDFToken::MapEnd
        ]),
        Err(TdfError::TypeMismatch {
            expected: TokenKind::ListEnd,
            observed: TokenKind::MapEnd,
            offset: 4
        })
    );
    assert_eq!(
        encode(vec![TDFToken::ListType, TDFToken::ListStart(usize::MAX), TDFToken::IntType]),
        Err(TdfError::Unsupported { feature: Feature::OversizedLength, offset: 1 })
    );
}

#[test]
fn a_value_other_than_a_map_can_be_the_root() {
    assert_eq!(encode(vec![TDFToken::IntType, TDFToken::Int(64)]), Ok(vec![0x80, 0x01]));
    assert_eq!(
        encode(vec![TDFToken::FloatType, TDFToken::Float(0x0102_0304)]),
        Ok(vec![1, 2, 3, 4])
    );
    assert_eq!(
        encode(vec![TDFToken::BlobType, TDFToken::Blob(vec![9, 8])]),
        Ok(vec![2, 9, 8])
    );
}

#[test]
fn error_moves_to_another_offset() {
    let e = TdfError::UnknownTypeTag { tag: 13, offset: 0 };
    assert_eq!(e.located(9), TdfError::UnknownTypeTag { tag: 13, offset: 9 });
    let e = TdfError::TruncatedInput { offset: 1 };
    assert_eq!(e.located(2), TdfError::TruncatedInput { offset: 2 });
}

#[test]
fn reader_reads_and_peeks() {
    let bytes = [1u8, 2, 3];
    let mut reader = ByteReader::new(&bytes);
    assert_eq!(reader.peek(), Some(1));
    assert_eq!(reader.read_u8(), Ok(1));
    assert_eq!(reader.read_exact(3), Err(TdfError::TruncatedInput { offset: 1 }));
    assert_eq!(reader.read_exact(2), Ok(vec![2, 3]));
    assert_eq!(reader.peek(), None);
    assert_eq!(reader.read_u8(), Err(TdfError::TruncatedInput { offset: 3 }));
    assert_eq!(reader.read_exact(0), Ok(vec![]));
}
