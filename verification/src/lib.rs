//! Codec for TDF, the tagged binary wire format of the Blaze backend.
//!
//! Three representations are bridged: the binary byte stream, a linear stream
//! of typed tokens, and native records. [`btdf`] converts between bytes and
//! tokens, [`rtdf`] between tokens and records, [`json`] renders tokens as
//! text.

use vstd::prelude::*;

pub mod error;
pub mod outside;
pub mod token;
pub mod btdf;
pub mod json;
pub mod rtdf;

use crate::btdf::des::{decode_document, BTDFDeserializer};
use crate::btdf::reader::ByteReader;
use crate::btdf::round_trip::{canonical, lemma_token_round_trip};
use crate::btdf::ser::{encode_document, encode_value, BTDFSerializer};
use crate::error::TdfError;
use crate::json::ser::{json_document, JsonSerializer};
use crate::rtdf::des::{record_tokens, Deserialize, RTDFDeserializer};
use crate::rtdf::round_trip::RoundTrip;
use crate::rtdf::ser::{parsed_record, RTDFSerializer, Serialize, StructConstructor};
use crate::token::{stands, TDFDeserializer, TDFSerializer, TokenView};

verus! {

/// The record of type `T` in a binary document, named by the tokens it is
/// written as; or the first error met in decoding the bytes or in reading
/// the tokens.
pub open spec fn record_of_binary<T: Serialize>(bytes: Seq<u8>, start: int) -> Result<
    Seq<TokenView>,
    TdfError,
> {
    match decode_document(bytes, start, false) {
        Err(e) => Err(e),
        Ok(tokens) => match parsed_record::<T>(tokens, 0) {
            Err(e) => Err(e),
            Ok((record, _)) => Ok(record),
        },
    }
}

/// The bytes of a record, or the first error met in writing its tokens or
/// in encoding them.
pub open spec fn binary_of_record<D: Deserialize>(record: &D) -> Result<Seq<u8>, TdfError> {
    match record_tokens(record) {
        Err(e) => Err(e),
        Ok(tokens) => encode_document(tokens, 0),
    }
}

/// Round trip of the record form: a record whose tokens are a canonical
/// root map that the encoder takes as a whole is read back from its bytes
/// as a record that is written as the same tokens.
pub proof fn lemma_record_round_trip<T: RoundTrip>(record: &T)
    requires
        T::marker() == TokenView::MapType,
        record_tokens(record) is Ok,
        canonical(record_tokens(record)->Ok_0),
        encode_document(record_tokens(record)->Ok_0, 0) is Ok,
        encode_value(record_tokens(record)->Ok_0, 1, TokenView::MapType, true)->Ok_0.1
            == record_tokens(record)->Ok_0.len(),
    ensures
        binary_of_record(record) is Ok,
        record_of_binary::<T>(binary_of_record(record)->Ok_0, 0) == Ok::<
            Seq<TokenView>,
            TdfError,
        >(record.expansion()->Ok_0),
{
    let tokens = record_tokens(record)->Ok_0;
    let own = record.expansion()->Ok_0;
    assert(tokens == seq![TokenView::MapType] + own);
    lemma_token_round_trip(tokens);
    assert(tokens.subrange(1, 1 + own.len() as int) =~= own);
    assert(stands(tokens, 1, own));
    record.lemma_read_back(tokens, 1);
}

/// Performs TDF binary to rust struct conversion
pub fn bin_to_struct<T: Serialize>(reader: &mut ByteReader) -> (result: Result<T, TdfError>)
    ensures
        final(reader).bytes@ == old(reader).bytes@,
        match record_of_binary::<T>(old(reader).bytes@, old(reader).pos as int) {
            Ok(record) => result is Ok && result->Ok_0.expansion() == Ok::<
                Seq<TokenView>,
                TdfError,
            >(record),
            Err(e) => result is Err && result->Err_0 == e,
        },
{
    // Convert bin into token stream
    let stream = BTDFDeserializer::deserialize(reader)?;
    // Init Struct builder
    let mut sc = StructConstructor::<T>::new();
    // Ser given struct
    RTDFSerializer::serialize(stream, &mut sc)?;
    // Build it
    sc.build()
}

/// Performs rust struct to tdf bin stream conversion
pub fn struct_to_bin<D: Deserialize>(structure: &mut D, writer: &mut Vec<u8>) -> (result: Result<
    (),
    TdfError,
>)
    ensures
        *final(structure) == *old(structure),
        match binary_of_record(old(structure)) {
            Ok(bytes) => result is Ok && final(writer)@ == old(writer)@ + bytes,
            Err(e) => result == Err::<(), TdfError>(e),
        },
{
    let stream = RTDFDeserializer::deserialize(structure)?;
    BTDFSerializer::serialize(stream, writer)?;
    Ok(())
}

/// The JSON text of a binary document, or the first error met in decoding
/// or in rendering it. A document that holds a float has none here: see
/// [`JsonSerializer::serialize_with_floats`].
pub open spec fn json_of_binary(bytes: Seq<u8>, start: int) -> Result<Seq<char>, TdfError> {
    match decode_document(bytes, start, false) {
        Err(e) => Err(e),
        Ok(tokens) => json_document(tokens, Seq::empty(), 0),
    }
}

/// Performs TDF binary to json conversion
pub fn bin_to_json(reader: &mut ByteReader) -> (result: Result<String, TdfError>)
    ensures
        final(reader).bytes@ == old(reader).bytes@,
        match json_of_binary(old(reader).bytes@, old(reader).pos as int) {
            Ok(text) => result is Ok && result->Ok_0@ == text,
            Err(e) => result == Err::<String, TdfError>(e),
        },
{
    // Convert bin into token stream
    let stream = BTDFDeserializer::deserialize(reader)?;
    let mut sc = String::new();
    // Ser given struct
    JsonSerializer::serialize(stream, &mut sc)?;
    assert(sc@ =~= json_document(stream@, Seq::empty(), 0)->Ok_0);
    Ok(sc)
}

} // verus!
