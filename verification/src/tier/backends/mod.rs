//! Value codec for tier backends that store bytes.
//!
//! In-memory tiers store `V` directly; backends that transport or persist
//! bytes need a codec. A value that is already bytes (`Vec<u8>`) passes
//! through unchanged; a `String` is its UTF-8 encoding.
use vstd::prelude::*;

use crate::error::CacheError;

pub mod outcome;
pub mod sled_record;

verus! {

/// `String::from_utf8`: the string the bytes encode when they are valid
/// UTF-8, and an error otherwise.
#[verifier::external_body]
fn string_from_utf8(bytes: Vec<u8>) -> (r: Result<String, ()>)
    ensures
        r is Ok <==> vstd::utf8::valid_utf8(bytes@),
        r matches Ok(s) ==> s@ == vstd::utf8::decode_utf8(bytes@),
{
    String::from_utf8(bytes).map_err(|_| ())
}

/// A value that can be encoded to and decoded from raw bytes. Decoding the
/// encoding of a value succeeds and yields a value with the same encoding.
pub trait ByteValue: Clone + Send + Sync + Sized + 'static {
    /// The bytes the value encodes to.
    spec fn encoding(&self) -> Seq<u8>;

    /// The bytes decode to some value.
    spec fn decodable(bytes: Seq<u8>) -> bool;

    /// Every encoding decodes.
    proof fn lemma_encoding_decodable(v: &Self)
        ensures
            Self::decodable(v.encoding()),
    ;

    /// Encodes the value. `Err` on serialization failure.
    fn encode_bytes(&self) -> (r: Result<Vec<u8>, CacheError>)
        ensures
            r matches Ok(b) ==> b@ == self.encoding(),
    ;

    /// Decodes bytes previously produced by `encode_bytes`; refuses bytes that
    /// decode to no value with `SerializationFailed`.
    fn decode_bytes(bytes: &[u8]) -> (r: Result<Self, CacheError>)
        ensures
            r is Ok <==> Self::decodable(bytes@),
            r matches Ok(v) ==> v.encoding() == bytes@,
            r matches Err(e) ==> e == CacheError::SerializationFailed,
    ;
}

impl ByteValue for Vec<u8> {
    open spec fn encoding(&self) -> Seq<u8> {
        self@
    }

    open spec fn decodable(bytes: Seq<u8>) -> bool {
        true
    }

    proof fn lemma_encoding_decodable(v: &Self) {
    }

    fn encode_bytes(&self) -> (r: Result<Vec<u8>, CacheError>)
        ensures
            r is Ok,
    {
        Ok(vstd::slice::slice_to_vec(self.as_slice()))
    }

    fn decode_bytes(bytes: &[u8]) -> (r: Result<Self, CacheError>) {
        Ok(vstd::slice::slice_to_vec(bytes))
    }
}

impl ByteValue for String {
    open spec fn encoding(&self) -> Seq<u8> {
        vstd::utf8::encode_utf8(self@)
    }

    open spec fn decodable(bytes: Seq<u8>) -> bool {
        vstd::utf8::valid_utf8(bytes)
    }

    proof fn lemma_encoding_decodable(v: &Self) {
        vstd::utf8::encode_utf8_valid_utf8(v@);
    }

    fn encode_bytes(&self) -> (r: Result<Vec<u8>, CacheError>)
        ensures
            r is Ok,
    {
        Ok(vstd::slice::slice_to_vec(self.as_str().as_bytes()))
    }

    fn decode_bytes(bytes: &[u8]) -> (r: Result<Self, CacheError>)
        ensures
            r matches Ok(s) ==> s@ == vstd::utf8::decode_utf8(bytes@),
    {
        match string_from_utf8(vstd::slice::slice_to_vec(bytes)) {
            Ok(s) => {
                proof {
                    vstd::utf8::decode_utf8_encode_utf8(bytes@);
                }
                Ok(s)
            },
            Err(_) => Err(CacheError::SerializationFailed),
        }
    }
}

/// Round trip: decoding what `encode_bytes` produced succeeds and gives back
/// a value with the same encoding; for strings, the same characters.
pub proof fn lemma_string_roundtrip(s: String, bytes: Seq<u8>, back: String)
    requires
        bytes == s.encoding(),
        back@ == vstd::utf8::decode_utf8(bytes),
    ensures
        <String as ByteValue>::decodable(bytes),
        back@ == s@,
{
    vstd::utf8::encode_utf8_valid_utf8(s@);
    vstd::utf8::encode_utf8_decode_utf8(s@);
}

} // verus!
