use vstd::prelude::*;

use std::hash::{Hash, Hasher};

use crate::error::CacheError;

verus! {

/// A borrowed view of an encoded key.
#[derive(Debug, Clone, Copy, PartialEq, Eq, Hash)]
pub struct KeyRef<'a>(pub &'a [u8]);

impl<'a> View for KeyRef<'a> {
    type V = Seq<u8>;

    open spec fn view(&self) -> Seq<u8> {
        self.0@
    }
}

impl<'a> From<&'a [u8]> for KeyRef<'a> {
    fn from(bytes: &'a [u8]) -> (k: Self)
        ensures
            k@ == bytes@,
    {
        KeyRef(bytes)
    }
}

impl<'a> vstd::std_specs::convert::FromSpecImpl<&'a [u8]> for KeyRef<'a> {
    open spec fn obeys_from_spec() -> bool {
        true
    }

    open spec fn from_spec(v: &'a [u8]) -> Self {
        KeyRef(v)
    }
}

/// The 64-bit hash that std's `DefaultHasher` gives a byte slice.
pub uninterp spec fn bytes_hash(key: Seq<u8>) -> u64;

/// Hashes a byte slice with std's `DefaultHasher` (`DefaultHasher::new`, the
/// slice's `Hash` impl, `Hasher::finish`). `DefaultHasher::new` is documented
/// to build the same hasher every time, so the result is a function of the
/// bytes alone.
#[verifier::external_body]
pub fn hash_bytes(key: &[u8]) -> (h: u64)
    ensures
        h == bytes_hash(key@),
{
    let mut hasher = std::collections::hash_map::DefaultHasher::new();
    key.hash(&mut hasher);
    hasher.finish()
}

/// Writes `bytes` at the front of `buf`, leaving the rest of `buf` as it was,
/// or refuses when `buf` is too short.
pub fn copy_key_bytes(bytes: &[u8], buf: &mut [u8]) -> (r: Result<usize, CacheError>)
    ensures
        match r {
            Ok(n) => {
                &&& n == bytes@.len()
                &&& n <= old(buf)@.len()
                &&& final(buf)@ == bytes@ + old(buf)@.subrange(n as int, old(buf)@.len() as int)
            },
            Err(e) => {
                &&& e == CacheError::ConfigurationError
                &&& old(buf)@.len() < bytes@.len()
                &&& final(buf)@ == old(buf)@
            },
        },
{
    if buf.len() < bytes.len() {
        return Err(CacheError::ConfigurationError);
    }
    let n = bytes.len();
    let ghost orig = buf@;
    let mut i: usize = 0;
    while i < n
        invariant
            n == bytes@.len(),
            n <= orig.len(),
            0 <= i <= n,
            buf@.len() == orig.len(),
            buf@ == bytes@.subrange(0, i as int) + orig.subrange(i as int, orig.len() as int),
        decreases n - i,
    {
        buf[i] = bytes[i];
        i = i + 1;
        assert(buf@ =~= bytes@.subrange(0, i as int) + orig.subrange(i as int, orig.len() as int));
    }
    assert(bytes@.subrange(0, n as int) =~= bytes@);
    Ok(n)
}

/// A cache key: anything that encodes to bytes.
pub trait Key: std::hash::Hash + Eq + Clone + Send + Sync + std::fmt::Debug {
    /// The bytes the key encodes to.
    spec fn key_bytes(&self) -> Seq<u8>;

    /// Writes the key's bytes at the front of `buf` and returns their count;
    /// refuses with `ConfigurationError`, leaving `buf` untouched, when `buf`
    /// is too short.
    fn encode(&self, buf: &mut [u8]) -> (r: Result<usize, CacheError>)
        ensures
            match r {
                Ok(n) => {
                    &&& n == self.key_bytes().len()
                    &&& n <= old(buf)@.len()
                    &&& final(buf)@ == self.key_bytes() + old(buf)@.subrange(n as int, old(buf)@.len() as int)
                },
                Err(e) => {
                    &&& e == CacheError::ConfigurationError
                    &&& old(buf)@.len() < self.key_bytes().len()
                    &&& final(buf)@ == old(buf)@
                },
            },
    ;

    /// The number of bytes the key encodes to.
    fn encoded_len(&self) -> (n: usize)
        ensures
            n == self.key_bytes().len(),
    ;
}

impl Key for String {
    open spec fn key_bytes(&self) -> Seq<u8> {
        vstd::utf8::encode_utf8(self@)
    }

    fn encode(&self, buf: &mut [u8]) -> (r: Result<usize, CacheError>) {
        copy_key_bytes(self.as_str().as_bytes(), buf)
    }

    fn encoded_len(&self) -> (n: usize) {
        self.as_str().as_bytes().len()
    }
}

impl<'a> Key for &'a str {
    open spec fn key_bytes(&self) -> Seq<u8> {
        vstd::utf8::encode_utf8((*self)@)
    }

    fn encode(&self, buf: &mut [u8]) -> (r: Result<usize, CacheError>) {
        copy_key_bytes(self.as_bytes(), buf)
    }

    fn encoded_len(&self) -> (n: usize) {
        self.as_bytes().len()
    }
}

impl Key for Vec<u8> {
    open spec fn key_bytes(&self) -> Seq<u8> {
        self@
    }

    fn encode(&self, buf: &mut [u8]) -> (r: Result<usize, CacheError>) {
        copy_key_bytes(self.as_slice(), buf)
    }

    fn encoded_len(&self) -> (n: usize) {
        self.len()
    }
}

impl<'a, K: Key> Key for &'a K {
    open spec fn key_bytes(&self) -> Seq<u8> {
        (**self).key_bytes()
    }

    fn encode(&self, buf: &mut [u8]) -> (r: Result<usize, CacheError>) {
        (**self).encode(buf)
    }

    fn encoded_len(&self) -> (n: usize) {
        (**self).encoded_len()
    }
}

impl<T: Key> Key for std::sync::Arc<T> {
    open spec fn key_bytes(&self) -> Seq<u8> {
        (**self).key_bytes()
    }

    fn encode(&self, buf: &mut [u8]) -> (r: Result<usize, CacheError>) {
        (**self).encode(buf)
    }

    fn encoded_len(&self) -> (n: usize) {
        (**self).encoded_len()
    }
}

/// A byte-vector key encodes to its own bytes, so two byte-vector keys
/// encode alike exactly when they are equal.
pub proof fn lemma_vec_key_bytes(a: Vec<u8>, b: Vec<u8>)
    ensures
        a.key_bytes() == a@,
        a.key_bytes() == b.key_bytes() <==> a@ == b@,
{
}

/// A string key encodes to the UTF-8 bytes of its characters, which decode
/// back to them: two string keys encode alike exactly when they are equal.
pub proof fn lemma_string_key_bytes(a: String, b: String)
    ensures
        vstd::utf8::decode_utf8(a.key_bytes()) == a@,
        a.key_bytes() == b.key_bytes() <==> a@ == b@,
{
    vstd::utf8::encode_utf8_decode_utf8(a@);
    vstd::utf8::encode_utf8_decode_utf8(b@);
}

/// A string-slice key encodes as the string of the same characters, and two
/// of them encode alike exactly when they are equal.
pub proof fn lemma_str_key_bytes(a: &str, b: &str)
    ensures
        vstd::utf8::decode_utf8(a.key_bytes()) == a@,
        a.key_bytes() == b.key_bytes() <==> a@ == b@,
{
    vstd::utf8::encode_utf8_decode_utf8(a@);
    vstd::utf8::encode_utf8_decode_utf8(b@);
}

} // verus!
