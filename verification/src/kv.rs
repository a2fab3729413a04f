//! Keys, values and key/value pairs.
//!
//! All of them are byte strings. A [`Key`] and a [`Value`] own their bytes, a
//! [`KeyRef`] borrows them from the caller for the time of one request, and a
//! [`KvPair`] holds a key together with its value. Each is viewed as the
//! sequence of its bytes; text is taken by its UTF-8 encoding.
//!
//! The conversions are specified through the view of what they return (the
//! `ensures` of each `from`), not through equality of representations.

use crate::order::{compare, key_lt, Side};
use vstd::prelude::*;
use vstd::slice::slice_to_vec;
use vstd::std_specs::convert::FromSpecImpl;
use vstd::string::StrSliceExecFns;
use vstd::utf8::encode_utf8;

verus! {

/// An owned key.
#[derive(Debug, PartialEq, Eq, PartialOrd, Ord, Hash)]
pub struct Key(Vec<u8>);

/// An owned value.
#[derive(Debug, PartialEq, Eq, PartialOrd, Ord, Hash)]
pub struct Value(Vec<u8>);

/// A key borrowed from bytes that the caller holds.
#[derive(Clone, Copy, Debug, PartialEq, Eq, PartialOrd, Ord, Hash)]
pub struct KeyRef<'a>(&'a [u8]);

/// A key together with its value.
#[derive(Debug, PartialEq, Eq, PartialOrd, Ord, Hash)]
pub struct KvPair(Key, Value);

impl View for Key {
    type V = Seq<u8>;

    closed spec fn view(&self) -> Seq<u8> {
        self.0@
    }
}

impl View for Value {
    type V = Seq<u8>;

    closed spec fn view(&self) -> Seq<u8> {
        self.0@
    }
}

impl<'a> View for KeyRef<'a> {
    type V = Seq<u8>;

    closed spec fn view(&self) -> Seq<u8> {
        self.0@
    }
}

impl View for KvPair {
    type V = (Seq<u8>, Seq<u8>);

    closed spec fn view(&self) -> (Seq<u8>, Seq<u8>) {
        (self.0@, self.1@)
    }
}

/// The views of a run of pairs, in the same order.
pub open spec fn pair_views(pairs: Seq<KvPair>) -> Seq<(Seq<u8>, Seq<u8>)> {
    pairs.map_values(|pair: KvPair| pair@)
}

/// The views of a run of runs of pairs, in the same order.
pub open spec fn group_views(groups: Seq<Vec<KvPair>>) -> Seq<Seq<(Seq<u8>, Seq<u8>)>> {
    groups.map_values(|group: Vec<KvPair>| pair_views(group@))
}

/// The views of a run of borrowed keys, in the same order.
pub open spec fn key_views(keys: Seq<KeyRef<'_>>) -> Seq<Seq<u8>> {
    keys.map_values(|key: KeyRef<'_>| key@)
}

impl Key {
    /// The bytes of the key.
    pub fn as_bytes(&self) -> (bytes: &[u8])
        ensures
            bytes@ == self@,
    {
        self.0.as_slice()
    }

    /// Borrows the key for a request.
    pub fn as_key_ref(&self) -> (key: KeyRef<'_>)
        ensures
            key@ == self@,
    {
        KeyRef(self.0.as_slice())
    }

    /// Gives the bytes back.
    pub fn into_bytes(self) -> (bytes: Vec<u8>)
        ensures
            bytes@ == self@,
    {
        self.0
    }
}

impl Value {
    /// A value without payload, as a key-only scan reports it.
    pub fn empty() -> (value: Value)
        ensures
            value@ == Seq::<u8>::empty(),
    {
        Value(Vec::new())
    }

    /// The bytes of the value.
    pub fn as_bytes(&self) -> (bytes: &[u8])
        ensures
            bytes@ == self@,
    {
        self.0.as_slice()
    }

    /// Gives the bytes back.
    pub fn into_bytes(self) -> (bytes: Vec<u8>)
        ensures
            bytes@ == self@,
    {
        self.0
    }
}

impl<'a> KeyRef<'a> {
    /// The bytes of the key.
    pub fn as_bytes(&self) -> (bytes: &'a [u8])
        ensures
            bytes@ == self@,
    {
        self.0
    }

    /// How this key stands to another in byte-wise order.
    pub fn compare(&self, other: KeyRef<'_>) -> (side: Side)
        ensures
            side == Side::Before <==> key_lt(self@, other@),
            side == Side::Same <==> self@ == other@,
            side == Side::After <==> key_lt(other@, self@),
    {
        compare(self.0, other.0)
    }

    /// Copies the borrowed bytes into a key of its own.
    pub fn to_key(&self) -> (key: Key)
        ensures
            key@ == self@,
    {
        Key(slice_to_vec(self.0))
    }
}

impl KvPair {
    /// Pairs a key with its value.
    pub fn new(key: Key, value: Value) -> (pair: KvPair)
        ensures
            pair@ == (key@, value@),
    {
        KvPair(key, value)
    }

    /// The key of the pair.
    pub fn key(&self) -> (key: &Key)
        ensures
            key@ == self@.0,
    {
        &self.0
    }

    /// The value of the pair.
    pub fn value(&self) -> (value: &Value)
        ensures
            value@ == self@.1,
    {
        &self.1
    }

    /// Splits the pair into its key and its value.
    pub fn into_inner(self) -> (parts: (Key, Value))
        ensures
            (parts.0@, parts.1@) == self@,
    {
        (self.0, self.1)
    }
}

impl Clone for Key {
    fn clone(&self) -> (copy: Key)
        ensures
            copy@ == self@,
    {
        Key(self.0.clone())
    }
}

impl Clone for Value {
    fn clone(&self) -> (copy: Value)
        ensures
            copy@ == self@,
    {
        Value(self.0.clone())
    }
}

impl Clone for KvPair {
    fn clone(&self) -> (copy: KvPair)
        ensures
            copy@ == self@,
    {
        KvPair(self.0.clone(), self.1.clone())
    }
}

impl From<Vec<u8>> for Key {
    fn from(bytes: Vec<u8>) -> (key: Key)
        ensures
            key@ == bytes@,
    {
        Key(bytes)
    }
}

impl FromSpecImpl<Vec<u8>> for Key {
    open spec fn obeys_from_spec() -> bool {
        false
    }

    open spec fn from_spec(bytes: Vec<u8>) -> Key {
        arbitrary()
    }
}

impl From<String> for Key {
    fn from(text: String) -> (key: Key)
        ensures
            key@ == encode_utf8(text@),
    {
        Key(text.as_str().as_bytes_vec())
    }
}

impl FromSpecImpl<String> for Key {
    open spec fn obeys_from_spec() -> bool {
        false
    }

    open spec fn from_spec(text: String) -> Key {
        arbitrary()
    }
}

impl From<&str> for Key {
    fn from(text: &str) -> (key: Key)
        ensures
            key@ == encode_utf8(text@),
    {
        Key(text.as_bytes_vec())
    }
}

impl FromSpecImpl<&str> for Key {
    open spec fn obeys_from_spec() -> bool {
        false
    }

    open spec fn from_spec(text: &str) -> Key {
        arbitrary()
    }
}

impl From<Vec<u8>> for Value {
    fn from(bytes: Vec<u8>) -> (value: Value)
        ensures
            value@ == bytes@,
    {
        Value(bytes)
    }
}

impl FromSpecImpl<Vec<u8>> for Value {
    open spec fn obeys_from_spec() -> bool {
        false
    }

    open spec fn from_spec(bytes: Vec<u8>) -> Value {
        arbitrary()
    }
}

impl From<String> for Value {
    fn from(text: String) -> (value: Value)
        ensures
            value@ == encode_utf8(text@),
    {
        Value(text.as_str().as_bytes_vec())
    }
}

impl FromSpecImpl<String> for Value {
    open spec fn obeys_from_spec() -> bool {
        false
    }

    open spec fn from_spec(text: String) -> Value {
        arbitrary()
    }
}

impl From<&str> for Value {
    fn from(text: &str) -> (value: Value)
        ensures
            value@ == encode_utf8(text@),
    {
        Value(text.as_bytes_vec())
    }
}

impl FromSpecImpl<&str> for Value {
    open spec fn obeys_from_spec() -> bool {
        false
    }

    open spec fn from_spec(text: &str) -> Value {
        arbitrary()
    }
}

impl<'a> From<&'a [u8]> for KeyRef<'a> {
    fn from(bytes: &'a [u8]) -> (key: KeyRef<'a>)
        ensures
            key@ == bytes@,
    {
        KeyRef(bytes)
    }
}

impl<'a> FromSpecImpl<&'a [u8]> for KeyRef<'a> {
    open spec fn obeys_from_spec() -> bool {
        false
    }

    open spec fn from_spec(bytes: &'a [u8]) -> KeyRef<'a> {
        arbitrary()
    }
}

impl<'a> From<&'a Vec<u8>> for KeyRef<'a> {
    fn from(bytes: &'a Vec<u8>) -> (key: KeyRef<'a>)
        ensures
            key@ == bytes@,
    {
        KeyRef(bytes.as_slice())
    }
}

impl<'a> FromSpecImpl<&'a Vec<u8>> for KeyRef<'a> {
    open spec fn obeys_from_spec() -> bool {
        false
    }

    open spec fn from_spec(bytes: &'a Vec<u8>) -> KeyRef<'a> {
        arbitrary()
    }
}

impl<'a> From<&'a str> for KeyRef<'a> {
    fn from(text: &'a str) -> (key: KeyRef<'a>)
        ensures
            key@ == encode_utf8(text@),
    {
        KeyRef(text.as_bytes())
    }
}

impl<'a> FromSpecImpl<&'a str> for KeyRef<'a> {
    open spec fn obeys_from_spec() -> bool {
        false
    }

    open spec fn from_spec(text: &'a str) -> KeyRef<'a> {
        arbitrary()
    }
}

impl<'a> From<&'a String> for KeyRef<'a> {
    fn from(text: &'a String) -> (key: KeyRef<'a>)
        ensures
            key@ == encode_utf8(text@),
    {
        KeyRef(text.as_str().as_bytes())
    }
}

impl<'a> FromSpecImpl<&'a String> for KeyRef<'a> {
    open spec fn obeys_from_spec() -> bool {
        false
    }

    open spec fn from_spec(text: &'a String) -> KeyRef<'a> {
        arbitrary()
    }
}

impl<'a> From<&'a Key> for KeyRef<'a> {
    fn from(owned: &'a Key) -> (key: KeyRef<'a>)
        ensures
            key@ == owned@,
    {
        owned.as_key_ref()
    }
}

impl<'a> FromSpecImpl<&'a Key> for KeyRef<'a> {
    open spec fn obeys_from_spec() -> bool {
        false
    }

    open spec fn from_spec(owned: &'a Key) -> KeyRef<'a> {
        arbitrary()
    }
}

impl From<(Key, Value)> for KvPair {
    fn from(parts: (Key, Value)) -> (pair: KvPair)
        ensures
            pair@ == (parts.0@, parts.1@),
    {
        KvPair(parts.0, parts.1)
    }
}

impl FromSpecImpl<(Key, Value)> for KvPair {
    open spec fn obeys_from_spec() -> bool {
        false
    }

    open spec fn from_spec(parts: (Key, Value)) -> KvPair {
        arbitrary()
    }
}

impl From<(Vec<u8>, Vec<u8>)> for KvPair {
    fn from(parts: (Vec<u8>, Vec<u8>)) -> (pair: KvPair)
        ensures
            pair@ == (parts.0@, parts.1@),
    {
        KvPair(Key(parts.0), Value(parts.1))
    }
}

impl FromSpecImpl<(Vec<u8>, Vec<u8>)> for KvPair {
    open spec fn obeys_from_spec() -> bool {
        false
    }

    open spec fn from_spec(parts: (Vec<u8>, Vec<u8>)) -> KvPair {
        arbitrary()
    }
}

impl From<(String, String)> for KvPair {
    fn from(parts: (String, String)) -> (pair: KvPair)
        ensures
            pair@ == (encode_utf8(parts.0@), encode_utf8(parts.1@)),
    {
        KvPair(Key(parts.0.as_str().as_bytes_vec()), Value(parts.1.as_str().as_bytes_vec()))
    }
}

impl FromSpecImpl<(String, String)> for KvPair {
    open spec fn obeys_from_spec() -> bool {
        false
    }

    open spec fn from_spec(parts: (String, String)) -> KvPair {
        arbitrary()
    }
}

} // verus!
