use tdf::btdf::reader::ByteReader;
use tdf::error::TdfError;
use tdf::rtdf::des::{Deserialize, RTDFDeserializer};
use tdf::rtdf::ser::{RTDFSerializer, Serialize};
use tdf::error::{Feature, TokenKind};
use tdf::rtdf::map::{map_of_pairs, read_map};
use tdf::rtdf::{
    FloatBits, Generic, GenericContent, GenericType, IntList, IpAddress, Localization, ObjectId,
    ObjectType, Union,
};
use tdf::token::{TDFDeserializer, TDFSerializer, TDFToken, TDFTokenStream, UnionType};
use tdf::rtdf::ser::StructConstructor;
use std::collections::HashMap;
use tdf::{bin_to_json, bin_to_struct, struct_to_bin};
use std::fmt::Debug;

#[derive(Debug, PartialEq)]
struct TestNumbers {
    a: i64,
    c: u64,
    b: i32,
    d: u32,
}

impl Deserialize for TestNumbers {
    fn tdf_type() -> TDFToken {
        TDFToken::MapType
    }

    fn deserialize(&self, des: &mut RTDFDeserializer) -> Result<(), TdfError> {
        des.emit(TDFToken::MapStart);
        des.des_field("a", &self.a)?;
        des.des_field("b", &self.b)?;
        des.des_field("c", &self.c)?;
        des.des_field("d", &self.d)?;
        des.emit(TDFToken::MapEnd);
        Ok(())
    }
}

impl Serialize for TestNumbers {
    fn serialize(ser: &mut RTDFSerializer) -> Result<Self, TdfError> {
        ser.map_start()?;
        let (_, a) = ser.ser_field::<i64>()?;
        let (_, b) = ser.ser_field::<i32>()?;
        let (_, c) = ser.ser_field::<u64>()?;
        let (_, d) = ser.ser_field::<u32>()?;
        ser.map_end()?;
        Ok(Self { a, c, b, d })
    }
}

#[derive(Debug, PartialEq)]
struct TestBasic {
    a: String,
    b: Vec<u8>,
    c: Vec<i32>,
    d: IntList,
}

impl Deserialize for TestBasic {
    fn tdf_type() -> TDFToken {
        TDFToken::MapType
    }

    fn deserialize(&self, des: &mut RTDFDeserializer) -> Result<(), TdfError> {
        des.emit(TDFToken::MapStart);
        des.des_field("a", &self.a)?;
        des.des_field("b", &self.b)?;
        des.des_field("c", &self.c)?;
        des.des_field("d", &self.d)?;
        des.emit(TDFToken::MapEnd);
        Ok(())
    }
}

impl Serialize for TestBasic {
    fn serialize(ser: &mut RTDFSerializer) -> Result<Self, TdfError> {
        ser.map_start()?;
        let (_, a) = ser.ser_field::<String>()?;
        let (_, b) = ser.ser_field::<Vec<u8>>()?;
        let (_, c) = ser.ser_field::<Vec<i32>>()?;
        let (_, d) = ser.ser_field::<IntList>()?;
        ser.map_end()?;
        Ok(Self { a, b, c, d })
    }
}

#[derive(Debug, PartialEq)]
struct TestCustom {
    a: Localization,
    b: ObjectType,
    c: ObjectId,
}

impl Deserialize for TestCustom {
    fn tdf_type() -> TDFToken {
        TDFToken::MapType
    }

    fn deserialize(&self, des: &mut RTDFDeserializer) -> Result<(), TdfError> {
        des.emit(TDFToken::MapStart);
        des.des_field("a", &self.a)?;
        des.des_field("b", &self.b)?;
        des.des_field("c", &self.c)?;
        des.emit(TDFToken::MapEnd);
        Ok(())
    }
}

impl Serialize for TestCustom {
    fn serialize(ser: &mut RTDFSerializer) -> Result<Self, TdfError> {
        ser.map_start()?;
        let (_, a) = ser.ser_field::<Localization>()?;
        let (_, b) = ser.ser_field::<ObjectType>()?;
        let (_, c) = ser.ser_field::<ObjectId>()?;
        ser.map_end()?;
        Ok(Self { a, b, c })
    }
}

#[derive(Debug, PartialEq)]
struct TestUnions {
    a: Union,
    b: Union,
    c: Union,
}

impl Deserialize for TestUnions {
    fn tdf_type() -> TDFToken {
        TDFToken::MapType
    }

    fn deserialize(&self, des: &mut RTDFDeserializer) -> Result<(), TdfError> {
        des.emit(TDFToken::MapStart);
        des.des_field("a", &self.a)?;
        des.des_field("b", &self.b)?;
        des.des_field("c", &self.c)?;
        des.emit(TDFToken::MapEnd);
        Ok(())
    }
}

impl Serialize for TestUnions {
    fn serialize(ser: &mut RTDFSerializer) -> Result<Self, TdfError> {
        ser.map_start()?;
        let (_, a) = ser.ser_field::<Union>()?;
        let (_, b) = ser.ser_field::<Union>()?;
        let (_, c) = ser.ser_field::<Union>()?;
        ser.map_end()?;
        Ok(Self { a, b, c })
    }
}

fn test_bi_direct<T: Deserialize + Serialize + PartialEq + Debug>(mut input: T) -> Result<(), TdfError> {
    let mut bytes: Vec<u8> = vec![];
    struct_to_bin(&mut input, &mut bytes)?;
    let mut reader = ByteReader::new(&bytes);
    let tested_struct = bin_to_struct::<T>(&mut reader)?;
    assert_eq!(tested_struct, input);
    Ok(())
}

fn test_json<T: Deserialize + Serialize + PartialEq + Debug>(mut input: T) -> Result<(), TdfError> {
    let mut bytes: Vec<u8> = vec![];
    struct_to_bin(&mut input, &mut bytes)?;
    let mut reader = ByteReader::new(&bytes);
    let json_string = bin_to_json(&mut reader)?;
    println!("{}", json_string);
    Ok(())
}

fn numbers() -> TestNumbers {
    TestNumbers { a: -78, b: 543654, c: 0, d: 456 }
}

fn basic() -> TestBasic {
    TestBasic {
        a: "crossplayGames".into(),
        b: vec![0, 45, 255, 6, 0],
        c: vec![7894, 45, -6543, 56],
        d: IntList(vec![675, 5, 6, -1]),
    }
}

fn custom() -> TestCustom {
    TestCustom { a: Localization("enUS".to_string()), b: ObjectType(34, 56), c: ObjectId(1, 2, 3) }
}

fn unions() -> TestUnions {
    TestUnions {
        a: Union::Unset,
        b: Union::XboxClientAddr { dctx: 3 },
        c: Union::IpPairAddr {
            internal: IpAddress { ip: 34, port: 0, maci: 0 },
            external: IpAddress { ip: 34, port: 0, maci: 0 },
            mac_addr: 80,
        },
    }
}

#[test]
fn numbers_test() {
    test_bi_direct(numbers()).unwrap();
}

#[test]
fn customs_test() {
    test_bi_direct(custom()).unwrap();
}

#[test]
fn basic_test() {
    test_bi_direct(basic()).unwrap();
}

#[test]
fn unions_test() {
    test_bi_direct(unions()).unwrap();
}

#[derive(Debug, PartialEq)]
struct TestGenerics {
    alph: Generic,
    beta: Generic,
    gama: Generic,
}

impl Deserialize for TestGenerics {
    fn tdf_type() -> TDFToken {
        TDFToken::MapType
    }

    fn deserialize(&self, des: &mut RTDFDeserializer) -> Result<(), TdfError> {
        des.emit(TDFToken::MapStart);
        des.des_field("alph", &self.alph)?;
        des.des_field("beta", &self.beta)?;
        des.des_field("gama", &self.gama)?;
        des.emit(TDFToken::MapEnd);
        Ok(())
    }
}

impl Serialize for TestGenerics {
    fn serialize(ser: &mut RTDFSerializer) -> Result<Self, TdfError> {
        ser.map_start()?;
        let (_, alph) = ser.ser_field::<Generic>()?;
        let (_, beta) = ser.ser_field::<Generic>()?;
        let (_, gama) = ser.ser_field::<Generic>()?;
        ser.map_end()?;
        Ok(Self { alph, beta, gama })
    }
}

#[test]
fn generic_test() -> Result<(), TdfError> {
    test_bi_direct(TestGenerics {
        alph: Generic::Valid(0x06, GenericContent::Empty),
        beta: Generic::Invalid,
        gama: Generic::Valid(0x05, GenericContent::Labeled("GAMA".into(), GenericType::Int(34))),
    })
}

#[derive(Debug, PartialEq)]
struct TestEaBug {
    gbra: Vec<(u32, Vec<(u32, String)>)>,
    msid: Vec<(u32, Vec<(u32, String)>)>,
    pelm: Vec<(String, Vec<String>)>,
}

impl Deserialize for TestEaBug {
    fn tdf_type() -> TDFToken {
        TDFToken::MapType
    }

    fn deserialize(&self, des: &mut RTDFDeserializer) -> Result<(), TdfError> {
        des.emit(TDFToken::MapStart);
        des.des_field("gbra", &self.gbra)?;
        des.des_field("msid", &self.msid)?;
        des.des_field("pelm", &self.pelm)?;
        des.emit(TDFToken::MapEnd);
        Ok(())
    }
}

impl Serialize for TestEaBug {
    fn serialize(ser: &mut RTDFSerializer) -> Result<Self, TdfError> {
        ser.map_start()?;
        let (_, gbra) = ser.ser_field::<Vec<(u32, Vec<(u32, String)>)>>()?;
        let (_, msid) = ser.ser_field::<Vec<(u32, Vec<(u32, String)>)>>()?;
        let (_, pelm) = ser.ser_field::<Vec<(String, Vec<String>)>>()?;
        ser.map_end()?;
        Ok(Self { gbra, msid, pelm })
    }
}

#[test]
fn ea_bug_fix_test() {
    test_bi_direct(TestEaBug {
        gbra: vec![(1, vec![(2, "test".into())])],
        msid: vec![(1, vec![(2, "test".into())])],
        pelm: vec![("a".into(), vec!["test".into()])],
    })
    .unwrap();
}

#[derive(Debug, PartialEq)]
struct TestCustomJson {
    a: String,
    b: Vec<u8>,
    c: Vec<i32>,
    d: IntList,
    e: Localization,
    f: ObjectType,
    g: ObjectId,
    t: TestBasic,
    unio: TestUnions,
    gama: Generic,
    alph: Generic,
    beta: Generic,
}

impl Deserialize for TestCustomJson {
    fn tdf_type() -> TDFToken {
        TDFToken::MapType
    }

    fn deserialize(&self, des: &mut RTDFDeserializer) -> Result<(), TdfError> {
        des.emit(TDFToken::MapStart);
        des.des_field("a", &self.a)?;
        des.des_field("alph", &self.alph)?;
        des.des_field("b", &self.b)?;
        des.des_field("beta", &self.beta)?;
        des.des_field("c", &self.c)?;
        des.des_field("d", &self.d)?;
        des.des_field("e", &self.e)?;
        des.des_field("f", &self.f)?;
        des.des_field("g", &self.g)?;
        des.des_field("gama", &self.gama)?;
        des.des_field("t", &self.t)?;
        des.des_field("unio", &self.unio)?;
        des.emit(TDFToken::MapEnd);
        Ok(())
    }
}

impl Serialize for TestCustomJson {
    fn serialize(ser: &mut RTDFSerializer) -> Result<Self, TdfError> {
        ser.map_start()?;
        let (_, a) = ser.ser_field::<String>()?;
        let (_, alph) = ser.ser_field::<Generic>()?;
        let (_, b) = ser.ser_field::<Vec<u8>>()?;
        let (_, beta) = ser.ser_field::<Generic>()?;
        let (_, c) = ser.ser_field::<Vec<i32>>()?;
        let (_, d) = ser.ser_field::<IntList>()?;
        let (_, e) = ser.ser_field::<Localization>()?;
        let (_, f) = ser.ser_field::<ObjectType>()?;
        let (_, g) = ser.ser_field::<ObjectId>()?;
        let (_, gama) = ser.ser_field::<Generic>()?;
        let (_, t) = ser.ser_field::<TestBasic>()?;
        let (_, unio) = ser.ser_field::<TestUnions>()?;
        ser.map_end()?;
        Ok(Self { a, b, c, d, e, f, g, t, unio, gama, alph, beta })
    }
}

fn custom_json() -> TestCustomJson {
    TestCustomJson {
        a: "test-frostbite string".into(),
        b: vec![0xf, 0xf, 0xc],
        c: vec![12, 34325, 0],
        d: IntList(vec![675, 5, 6, -1]),
        e: Localization("enUS".to_string()),
        f: ObjectType(34, 56),
        g: ObjectId(1, 2, 3),
        t: basic(),
        unio: unions(),
        gama: Generic::Valid(0x05, GenericContent::Labeled("GAMA".into(), GenericType::Int(34))),
        alph: Generic::Valid(0x06, GenericContent::Empty),
        beta: Generic::Invalid,
    }
}

#[test]
fn array_test_json() {
    test_json(custom_json()).unwrap();
}

#[test]
fn whole_record_round_trips() {
    test_bi_direct(custom_json()).unwrap();
}

#[test]
fn numbers_record_exact_bytes() {
    let mut bytes: Vec<u8> = vec![];
    struct_to_bin(&mut numbers(), &mut bytes).unwrap();
    assert_eq!(
        bytes,
        vec![
            0x84, 0x00, 0x00, 0x00, 0xCE, 0x01, // A    int -78
            0x88, 0x00, 0x00, 0x00, 0xA6, 0xAE, 0x42, // B    int 543654
            0x8C, 0x00, 0x00, 0x00, 0x00, // C    int 0
            0x90, 0x00, 0x00, 0x00, 0x88, 0x07, // D    int 456
        ]
    );
}

#[test]
fn locale_is_carried_as_an_integer() {
    let mut des = RTDFDeserializer::new();
    Localization("enUS".to_string()).deserialize(&mut des).unwrap();
    assert_eq!(des.stream.0, vec![TDFToken::Int(0x656E5553)]);
    let mut ser = RTDFSerializer::new(des.stream);
    assert_eq!(Localization::serialize(&mut ser), Ok(Localization("enUS".to_string())));
}

#[test]
fn locale_of_another_length_is_refused() {
    let mut des = RTDFDeserializer::new();
    assert_eq!(
        Localization("en".to_string()).deserialize(&mut des),
        Err(TdfError::SizeMismatch { declared: 4, actual: 2, offset: 0 })
    );
}

#[test]
fn bool_reads_zero_as_false() {
    let mut des = RTDFDeserializer::new();
    true.deserialize(&mut des).unwrap();
    false.deserialize(&mut des).unwrap();
    des.emit(TDFToken::Int(-7));
    assert_eq!(des.stream.0[0], TDFToken::Int(1));
    assert_eq!(des.stream.0[1], TDFToken::Int(0));
    let mut ser = RTDFSerializer::new(des.stream);
    assert_eq!(bool::serialize(&mut ser), Ok(true));
    assert_eq!(bool::serialize(&mut ser), Ok(false));
    assert_eq!(bool::serialize(&mut ser), Ok(true));
}

#[test]
fn unsupported_union_variants_are_refused() {
    let mut des = RTDFDeserializer::new();
    assert!(matches!(
        Union::XboxServerAddr {}.deserialize(&mut des),
        Err(TdfError::Unsupported { .. })
    ));
    assert!(matches!(
        Union::HostnameAddr {}.deserialize(&mut des),
        Err(TdfError::Unsupported { .. })
    ));
}

#[test]
fn single_address_union_round_trips() {
    let mut des = RTDFDeserializer::new();
    let u = Union::IpAddr { addr: IpAddress { ip: 7, maci: 8, port: 9 } };
    u.deserialize(&mut des).unwrap();
    let mut ser = RTDFSerializer::new(des.stream);
    assert_eq!(Union::serialize(&mut ser), Ok(u));
}

#[derive(Debug, PartialEq)]
struct TestMap {
    map: HashMap<u32, String>,
}

impl Deserialize for TestMap {
    fn tdf_type() -> TDFToken {
        TDFToken::MapType
    }

    fn deserialize(&self, des: &mut RTDFDeserializer) -> Result<(), TdfError> {
        let mut pairs: Vec<(u32, String)> = Vec::new();
        for (k, v) in &self.map {
            pairs.push((*k, v.clone()));
        }
        des.emit(TDFToken::MapStart);
        des.des_field("map", &pairs)?;
        des.emit(TDFToken::MapEnd);
        Ok(())
    }
}

impl Serialize for TestMap {
    fn serialize(ser: &mut RTDFSerializer) -> Result<Self, TdfError> {
        ser.map_start()?;
        let (_, pairs) = ser.ser_field::<Vec<(u32, String)>>()?;
        ser.map_end()?;
        Ok(Self { map: map_of_pairs(pairs) })
    }
}

#[test]
fn hash_map_test() {
    let mut test_case = HashMap::new();

    test_case.insert(1, "seven".to_string());
    test_case.insert(2, "five".to_string());

    test_bi_direct(TestMap { map: test_case }).unwrap();
}

#[test]
fn mapping_keeps_the_last_pair_of_a_key() {
    let map = map_of_pairs(vec![(1u32, "a"), (2, "b"), (1, "c"), (3, "d"), (2, "e")]);
    assert_eq!(map.len(), 3);
    assert_eq!(map[&1], "c");
    assert_eq!(map[&2], "e");
    assert_eq!(map[&3], "d");
    assert!(map_of_pairs(Vec::<(u32, u32)>::new()).is_empty());
}

#[test]
fn mapping_is_read_from_a_pair_list() {
    let mut des = RTDFDeserializer::new();
    vec![(1u32, "a".to_string()), (1, "b".to_string())].deserialize(&mut des).unwrap();
    let mut ser = RTDFSerializer::new(des.stream);
    let map: HashMap<u32, String> = read_map(&mut ser).unwrap();
    assert_eq!(map.len(), 1);
    assert_eq!(map[&1], "b");
    assert_eq!(
        read_map::<u32, String>(&mut ser),
        Err(TdfError::EndOfStream { offset: 8 })
    );
}

#[derive(Debug, PartialEq)]
struct TestArray {
    array: [u32; 3],
}

impl Deserialize for TestArray {
    fn tdf_type() -> TDFToken {
        TDFToken::MapType
    }

    fn deserialize(&self, des: &mut RTDFDeserializer) -> Result<(), TdfError> {
        des.emit(TDFToken::MapStart);
        des.des_field("array", &self.array)?;
        des.emit(TDFToken::MapEnd);
        Ok(())
    }
}

impl Serialize for TestArray {
    fn serialize(ser: &mut RTDFSerializer) -> Result<Self, TdfError> {
        ser.map_start()?;
        let (_, array) = ser.ser_field::<[u32; 3]>()?;
        ser.map_end()?;
        Ok(Self { array })
    }
}

#[test]
fn array_test() {
    test_bi_direct(TestArray { array: [3, 3, 5] }).unwrap();
}

#[test]
fn array_of_another_length_is_refused() {
    let mut des = RTDFDeserializer::new();
    vec![1u32, 2].deserialize(&mut des).unwrap();
    let mut ser = RTDFSerializer::new(des.stream);
    assert_eq!(
        <[u32; 3]>::serialize(&mut ser),
        Err(TdfError::SizeMismatch { declared: 2, actual: 3, offset: 0 })
    );
}

#[derive(Debug, PartialEq)]
struct TestOptional {
    a: Option<i32>,
    b: i64,
}

impl Deserialize for TestOptional {
    fn tdf_type() -> TDFToken {
        TDFToken::MapType
    }

    fn deserialize(&self, des: &mut RTDFDeserializer) -> Result<(), TdfError> {
        des.emit(TDFToken::MapStart);
        des.des_field_optional("a", &self.a)?;
        des.des_field("b", &self.b)?;
        des.emit(TDFToken::MapEnd);
        Ok(())
    }
}

impl Serialize for TestOptional {
    fn serialize(ser: &mut RTDFSerializer) -> Result<Self, TdfError> {
        ser.map_start()?;
        let a = ser.ser_field_optional::<i32>(TDFToken::Label("a".into()))?;
        let (_, b) = ser.ser_field::<i64>()?;
        ser.map_end()?;
        Ok(Self { a, b })
    }
}

#[test]
fn optional_field_round_trips() {
    test_bi_direct(TestOptional { a: Some(-5), b: 9 }).unwrap();
    test_bi_direct(TestOptional { a: None, b: 9 }).unwrap();
}

#[test]
fn empty_optional_field_is_left_out() {
    let mut with = TestOptional { a: Some(1), b: 2 };
    let mut without = TestOptional { a: None, b: 2 };
    let present = RTDFDeserializer::deserialize(&mut with).unwrap().0;
    let absent = RTDFDeserializer::deserialize(&mut without).unwrap().0;
    assert_eq!(
        present,
        vec![
            TDFToken::MapType,
            TDFToken::MapStart,
            TDFToken::Label("A   ".into()),
            TDFToken::IntType,
            TDFToken::Int(1),
            TDFToken::Label("B   ".into()),
            TDFToken::IntType,
            TDFToken::Int(2),
            TDFToken::MapEnd,
        ]
    );
    assert_eq!(
        absent,
        vec![
            TDFToken::MapType,
            TDFToken::MapStart,
            TDFToken::Label("B   ".into()),
            TDFToken::IntType,
            TDFToken::Int(2),
            TDFToken::MapEnd,
        ]
    );
}

#[test]
fn optional_field_reads_nothing_at_another_token() {
    let tokens = vec![TDFToken::Label("B   ".into()), TDFToken::IntType, TDFToken::Int(2)];
    let mut ser = RTDFSerializer::new(TDFTokenStream(tokens, 0));
    assert_eq!(ser.ser_field_optional::<i64>(TDFToken::Label("a".into())), Ok(None));
    assert_eq!(ser.stream.1, 0);
    assert_eq!(ser.ser_field_optional::<i64>(TDFToken::Label("b".into())), Ok(Some(2)));
    assert_eq!(ser.stream.1, 3);
    assert_eq!(
        ser.ser_field_optional::<i64>(TDFToken::Label("b".into())),
        Err(TdfError::EndOfStream { offset: 3 })
    );
}

#[test]
fn field_names_are_written_in_wire_form() {
    let mut des = RTDFDeserializer::new();
    des.des_field("dctx", &1i64).unwrap();
    des.des_field("a_b", &2i64).unwrap();
    des.des_field("longname", &3i64).unwrap();
    assert_eq!(des.stream.0[0], TDFToken::Label("DCTX".into()));
    assert_eq!(des.stream.0[3], TDFToken::Label("A B ".into()));
    assert_eq!(des.stream.0[6], TDFToken::Label("LONG".into()));
}

#[test]
fn reading_errors() {
    let read = |tokens: Vec<TDFToken>| RTDFSerializer::new(TDFTokenStream(tokens, 0));
    assert_eq!(i64::serialize(&mut read(vec![])), Err(TdfError::EndOfStream { offset: 0 }));
    assert_eq!(
        i64::serialize(&mut read(vec![TDFToken::MapEnd])),
        Err(TdfError::TypeMismatch {
            expected: TokenKind::Int,
            observed: TokenKind::MapEnd,
            offset: 0
        })
    );
    assert_eq!(
        String::serialize(&mut read(vec![TDFToken::String(vec![0xFF])])),
        Err(TdfError::InvalidUtf8 { offset: 0 })
    );
    assert_eq!(
        Localization::serialize(&mut read(vec![TDFToken::Int(0xFFFF_FFFF)])),
        Err(TdfError::InvalidUtf8 { offset: 0 })
    );
    assert_eq!(
        <Vec<i64>>::serialize(&mut read(vec![
            TDFToken::ListStart(1),
            TDFToken::StringType,
            TDFToken::String(vec![]),
            TDFToken::ListEnd
        ])),
        Err(TdfError::TypeMismatch {
            expected: TokenKind::IntType,
            observed: TokenKind::StringType,
            offset: 1
        })
    );
    assert_eq!(
        Union::serialize(&mut read(vec![TDFToken::UnionStart(UnionType::HostnameAddr)])),
        Err(TdfError::Unsupported { feature: Feature::UnionVariant, offset: 0 })
    );
    assert!(matches!(
        Union::serialize(&mut read(vec![
            TDFToken::UnionStart(UnionType::XboxClientAddr),
            TDFToken::Label("VALU".into()),
        ])),
        Err(TdfError::LabelMismatch { offset: 1, .. })
    ));
    assert_eq!(
        Generic::serialize(&mut read(vec![
            TDFToken::GenericStart(true),
            TDFToken::Int(1),
            TDFToken::Label("GAMA".into()),
            TDFToken::MapType,
        ])),
        Err(TdfError::Unsupported { feature: Feature::GenericPayload, offset: 3 })
    );
    let mut ser = read(vec![TDFToken::MapEnd]);
    assert_eq!(
        ser.ser_field::<i64>(),
        Err(TdfError::TypeMismatch {
            expected: TokenKind::Label,
            observed: TokenKind::MapEnd,
            offset: 0
        })
    );
    let mut ser = read(vec![TDFToken::Label("IP  ".into()), TDFToken::IntType, TDFToken::Int(1)]);
    assert!(matches!(
        ser.ser_field_named::<u64>("PORT"),
        Err(TdfError::LabelMismatch { offset: 0, .. })
    ));
    let mut ser = read(vec![TDFToken::Label("ip".into()), TDFToken::IntType, TDFToken::Int(1)]);
    assert_eq!(ser.ser_field_named::<u64>("IP  "), Ok(1));
}

#[test]
fn checked_tokens() {
    let mut ser = RTDFSerializer::new(TDFTokenStream(
        vec![TDFToken::MapStart, TDFToken::Int(4), TDFToken::MapEnd],
        0,
    ));
    assert_eq!(ser.map_start(), Ok(()));
    assert_eq!(
        ser.check_token(TDFToken::Int(5)),
        Err(TdfError::TypeMismatch {
            expected: TokenKind::Int,
            observed: TokenKind::Int,
            offset: 1
        })
    );
    assert_eq!(ser.check_token(TDFToken::MapEnd), Ok(TDFToken::MapEnd));
    assert_eq!(ser.map_end(), Err(TdfError::EndOfStream { offset: 3 }));
}

#[test]
fn integers_are_narrowed_by_wrapping() {
    let read = |v: i64| RTDFSerializer::new(TDFTokenStream(vec![TDFToken::Int(v)], 0));
    assert_eq!(u32::serialize(&mut read(0x1_0000_0005)), Ok(5));
    assert_eq!(i32::serialize(&mut read(-1)), Ok(-1));
    assert_eq!(u64::serialize(&mut read(-1)), Ok(u64::MAX));
    let mut des = RTDFDeserializer::new();
    u64::MAX.deserialize(&mut des).unwrap();
    assert_eq!(des.stream.0, vec![TDFToken::Int(-1)]);
}

#[test]
fn float_is_carried_by_its_bits() {
    let mut des = RTDFDeserializer::new();
    FloatBits(1.5f32.to_bits()).deserialize(&mut des).unwrap();
    assert_eq!(des.stream.0, vec![TDFToken::Float(0x3FC0_0000)]);
    let mut ser = RTDFSerializer::new(des.stream);
    let back = FloatBits::serialize(&mut ser).unwrap();
    assert_eq!(f32::from_bits(back.0), 1.5);
}

#[test]
fn struct_constructor_builds_what_was_read() {
    let empty = StructConstructor::<TestNumbers>::new();
    assert_eq!(empty.build(), Err(TdfError::EndOfStream { offset: 0 }));
    let mut record = numbers();
    let stream = RTDFDeserializer::deserialize(&mut record).unwrap();
    let mut sc = StructConstructor::<TestNumbers>::new();
    RTDFSerializer::serialize(stream, &mut sc).unwrap();
    assert_eq!(sc.build(), Ok(numbers()));
    let mut sc = StructConstructor::<TestNumbers>::new();
    assert_eq!(
        RTDFSerializer::serialize(TDFTokenStream(vec![TDFToken::IntType], 0), &mut sc),
        Err(TdfError::TypeMismatch {
            expected: TokenKind::MapType,
            observed: TokenKind::IntType,
            offset: 0
        })
    );
}

#[test]
fn generic_with_a_string_round_trips() {
    let mut des = RTDFDeserializer::new();
    let g = Generic::Valid(7, GenericContent::Labeled("NAME".into(), GenericType::String("x".into())));
    g.deserialize(&mut des).unwrap();
    let mut ser = RTDFSerializer::new(des.stream);
    assert_eq!(Generic::serialize(&mut ser), Ok(g));
}
