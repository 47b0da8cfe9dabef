use tdf::bin_to_json;
use tdf::btdf::label::pack;
use tdf::btdf::reader::ByteReader;
use tdf::error::{Feature, TdfError, TokenKind};
use tdf::json::ser::JsonSerializer;
use tdf::token::{TDFSerializer, TDFToken, TDFTokenStream, UnionType};

fn render(tokens: Vec<TDFToken>) -> Result<String, TdfError> {
    let mut out = String::new();
    JsonSerializer::serialize(TDFTokenStream(tokens, 0), &mut out)?;
    Ok(out)
}

fn name(text: &str) -> TDFToken {
    TDFToken::Label(text.to_string())
}

#[test]
fn json_of_scalars() {
    assert_eq!(render(vec![TDFToken::IntType, TDFToken::Int(-78)]), Ok("-78".to_string()));
    assert_eq!(render(vec![TDFToken::IntType, TDFToken::Int(0)]), Ok("0".to_string()));
    assert_eq!(
        render(vec![TDFToken::IntType, TDFToken::Int(i64::MIN)]),
        Ok("-9223372036854775808".to_string())
    );
    assert_eq!(
        render(vec![TDFToken::StringType, TDFToken::String(b"hi".to_vec())]),
        Ok("\"hi\"".to_string())
    );
    assert_eq!(
        render(vec![TDFToken::StringType, TDFToken::String(vec![b'a', 0xFF])]),
        Ok("\"a\u{FFFD}\"".to_string())
    );
    assert_eq!(
        render(vec![TDFToken::BlobType, TDFToken::Blob(vec![0, 45, 255, 6])]),
        Ok("\"Blob[[0, 2d, ff, 6]]\"".to_string())
    );
    assert_eq!(
        render(vec![TDFToken::ObjectTypeType, TDFToken::Int(34), TDFToken::Int(56)]),
        Ok("[34,56]".to_string())
    );
    assert_eq!(
        render(vec![TDFToken::ObjectIdType, TDFToken::Int(1), TDFToken::Int(2), TDFToken::Int(3)]),
        Ok("[1,2,3]".to_string())
    );
}

#[test]
fn json_of_collections() {
    assert_eq!(
        render(vec![
            TDFToken::IntListType,
            TDFToken::IntListStart(3),
            TDFToken::Int(675),
            TDFToken::Int(5),
            TDFToken::Int(-1),
            TDFToken::IntListEnd,
        ]),
        Ok("[675,5,-1]".to_string())
    );
    assert_eq!(
        render(vec![TDFToken::IntListType, TDFToken::IntListStart(0), TDFToken::IntListEnd]),
        Ok("[]".to_string())
    );
    assert_eq!(
        render(vec![
            TDFToken::ListType,
            TDFToken::ListStart(2),
            TDFToken::StringType,
            TDFToken::String(b"a".to_vec()),
            TDFToken::String(b"b".to_vec()),
            TDFToken::ListEnd,
        ]),
        Ok("[\"a\",\"b\"]".to_string())
    );
    assert_eq!(
        render(vec![
            TDFToken::PairListType,
            TDFToken::PairListStart(2),
            TDFToken::IntType,
            TDFToken::StringType,
            TDFToken::Int(1),
            TDFToken::String(b"seven".to_vec()),
            TDFToken::Int(2),
            TDFToken::String(b"five".to_vec()),
            TDFToken::PairListEnd,
        ]),
        Ok("[[1,\"seven\"],\n[2,\"five\"]]".to_string())
    );
}

#[test]
fn json_of_maps() {
    assert_eq!(
        render(vec![TDFToken::MapType, TDFToken::MapStart, TDFToken::MapEnd]),
        Ok("{}".to_string())
    );
    assert_eq!(
        render(vec![
            TDFToken::MapType,
            TDFToken::MapStart,
            name("A   "),
            TDFToken::IntType,
            TDFToken::Int(1),
            TDFToken::MapUnion,
            name("SUB "),
            TDFToken::MapType,
            TDFToken::MapStart,
            name("IN  "),
            TDFToken::MapType,
            TDFToken::MapStart,
            TDFToken::MapEnd,
            TDFToken::MapEnd,
            TDFToken::MapEnd,
        ]),
        Ok("{\n\t\"A   \": 1,\n\t\"SUB \": {\n\t\t\"IN  \": {\t\t}\n}\n}".to_string())
    );
}

#[test]
fn json_of_unions_and_generics() {
    assert_eq!(
        render(vec![
            TDFToken::UnionType,
            TDFToken::UnionStart(UnionType::Unset),
            TDFToken::UnionEnd
        ]),
        Ok("{\"type\": \"union\",\n\"union\": 127}".to_string())
    );
    assert_eq!(
        render(vec![
            TDFToken::UnionType,
            TDFToken::UnionStart(UnionType::IpPairAddr),
            name("VALU"),
            TDFToken::IntType,
            TDFToken::Int(9),
            TDFToken::UnionEnd,
        ]),
        Ok("{\"type\": \"union\",\n\"union\": 2,\n\"VALU\",\n\"tag\": 0,\n\"valie\": 9}".to_string())
    );
    assert_eq!(
        render(vec![TDFToken::GenericType, TDFToken::GenericStart(false), TDFToken::GenericEnd]),
        Ok("{ \"type\": \"generic\"}".to_string())
    );
    assert_eq!(
        render(vec![
            TDFToken::GenericType,
            TDFToken::GenericStart(true),
            TDFToken::Int(6),
            TDFToken::GenericEnd,
        ]),
        Ok("{ \"type\": \"generic\",\n\"id\": 6}".to_string())
    );
    assert_eq!(
        render(vec![
            TDFToken::GenericType,
            TDFToken::GenericStart(true),
            TDFToken::Int(5),
            name("GAMA"),
            TDFToken::IntType,
            TDFToken::Int(34),
            TDFToken::GenericEnd,
        ]),
        Ok("{ \"type\": \"generic\",\n\"id\": 5,\n\"GAMA\"{\n\"tag\": 0,\n\"value\": 34}}".to_string())
    );
}

#[test]
fn json_errors() {
    assert_eq!(render(vec![]), Err(TdfError::EndOfStream { offset: 0 }));
    assert_eq!(
        render(vec![TDFToken::FloatType, TDFToken::Float(0x3F80_0000)]),
        Err(TdfError::Unsupported { feature: Feature::FloatText, offset: 1 })
    );
    assert_eq!(
        render(vec![TDFToken::IntType, TDFToken::MapEnd]),
        Err(TdfError::TypeMismatch {
            expected: TokenKind::Int,
            observed: TokenKind::MapEnd,
            offset: 1
        })
    );
    assert_eq!(
        render(vec![TDFToken::MapType, TDFToken::MapStart, TDFToken::Int(1)]),
        Err(TdfError::TypeMismatch {
            expected: TokenKind::Label,
            observed: TokenKind::Int,
            offset: 2
        })
    );
}

#[test]
fn json_of_floats_takes_their_texts() {
    let tokens = vec![
        TDFToken::ListType,
        TDFToken::ListStart(2),
        TDFToken::FloatType,
        TDFToken::Float(1.5f32.to_bits()),
        TDFToken::Float(0.25f32.to_bits()),
        TDFToken::ListEnd,
    ];
    let floats: Vec<String> = tokens
        .iter()
        .map(|t| match t {
            TDFToken::Float(bits) => format!("{}", f32::from_bits(*bits)),
            _ => String::new(),
        })
        .collect();
    let mut out = String::new();
    JsonSerializer::serialize_with_floats(TDFTokenStream(tokens.clone(), 0), floats, &mut out)
        .unwrap();
    assert_eq!(out, "[1.5,0.25]");
    // a float without a text is an error
    let mut out = String::new();
    assert_eq!(
        JsonSerializer::serialize_with_floats(
            TDFTokenStream(tokens, 0),
            vec![String::new(); 4],
            &mut out
        ),
        Err(TdfError::Unsupported { feature: Feature::FloatText, offset: 4 })
    );
}

#[test]
fn json_of_blobs() {
    assert_eq!(
        render(vec![TDFToken::BlobType, TDFToken::Blob(vec![])]),
        Ok("\"Blob[[]]\"".to_string())
    );
    assert_eq!(
        render(vec![TDFToken::BlobType, TDFToken::Blob(vec![0xAB])]),
        Ok("\"Blob[[ab]]\"".to_string())
    );
    assert_eq!(
        render(vec![TDFToken::BlobType, TDFToken::Blob(vec![15, 16])]),
        Ok("\"Blob[[f, 10]]\"".to_string())
    );
}

#[test]
fn json_is_appended_to_the_writer() {
    let mut out = "x = ".to_string();
    JsonSerializer::serialize(TDFTokenStream(vec![TDFToken::IntType, TDFToken::Int(7)], 0), &mut out)
        .unwrap();
    assert_eq!(out, "x = 7");
}

#[test]
fn json_of_a_binary_document() {
    let l = pack(b"NUMB");
    let bytes = vec![l[0], l[1], l[2], 0, 0xCE, 0x01];
    let mut reader = ByteReader::new(&bytes);
    assert_eq!(bin_to_json(&mut reader), Ok("{\n\t\"NUMB\": -78\n}".to_string()));
    let short = [l[0], l[1]];
    let mut reader = ByteReader::new(&short);
    assert_eq!(bin_to_json(&mut reader), Err(TdfError::TruncatedInput { offset: 0 }));
}
