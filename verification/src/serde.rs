//! Serialization of values to bytes and back.
use vstd::prelude::*;

verus! {

/// An error of deserialization.
#[derive(Debug)]
pub enum Error {
    /// The data could not be read back into a value: the message of the decoder's error
    /// (Verus takes no trait object with auto traits, so the source is kept as its text).
    Deserialization(String),
    /// The value could not be converted.
    Conversion,
}

/// Serializes values into bytes.
pub trait Serializer<T> {
    /// The bytes the serializer writes for a value.
    closed spec fn spec_serialize(&self, value: T) -> Seq<u8> {
        arbitrary()
    }

    /// Serializes a value.
    fn serialize(&self, value: T) -> (r: Vec<u8>)
        ensures
            r@ == self.spec_serialize(value),
    ;
}

/// Deserializes bytes into values.
pub trait Deserializer<T> {
    /// What the deserializer reads from bytes.
    closed spec fn spec_deserialize(&self, data: Seq<u8>) -> Result<T, Error> {
        arbitrary()
    }

    /// Deserializes a value.
    fn deserialize(&self, data: Vec<u8>) -> (r: Result<T, Error>)
        ensures
            r == self.spec_deserialize(data@),
    ;
}

/// A serializer that can also read back what it writes.
pub trait Serde<T>: Serializer<T> + Deserializer<T> {}

impl<K, T> Serde<T> for K where K: Serializer<T> + Deserializer<T> {}

} // verus!
