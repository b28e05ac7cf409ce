//! Turning items into bytes and back. A store is told which encoding to use
//! by a type that implements `Serde` for its item type.

use crate::error::{is_codec_error, StoreError};
use vstd::prelude::*;

verus! {

/// An encoding of values of `T` as byte strings.
///
/// `encoding` and `decoding` are its mathematical model; `serialize` and
/// `deserialize` compute them. Decoding undoes encoding, no encoding is
/// empty, and what decodes can be encoded again.
pub trait Serde<T> {
    /// The bytes that stand for `item`, or `None` where it has no encoding.
    spec fn encoding(item: T) -> Option<Seq<u8>>;

    /// The value that `bytes` stand for, or `None` where they stand for none.
    spec fn decoding(bytes: Seq<u8>) -> Option<T>;

    /// Reading back what was written gives the value that was written.
    proof fn lemma_round_trip(item: T)
        ensures
            Self::encoding(item) matches Some(bytes) ==> Self::decoding(bytes) == Some(item),
    ;

    /// No encoding is empty: the substrate takes no empty value.
    proof fn lemma_encoding_not_empty(item: T)
        ensures
            Self::encoding(item) matches Some(bytes) ==> bytes.len() > 0,
    ;

    /// What was read can be written again.
    proof fn lemma_decoded_encodes(bytes: Seq<u8>)
        ensures
            Self::decoding(bytes) matches Some(item) ==> Self::encoding(item) is Some,
    ;

    /// The name of the item type, for error reports.
    spec fn kind_name() -> Seq<char>;

    /// The name of the item type, for error reports.
    fn kind() -> (name: String)
        ensures
            name@ == Self::kind_name(),
    ;

    /// Encodes `item`.
    fn serialize(item: &T) -> (r: Result<Vec<u8>, StoreError>)
        ensures
            match Self::encoding(*item) {
                Some(bytes) => r matches Ok(v) && v@ == bytes,
                None => is_codec_error(r, Self::kind_name()),
            },
    ;

    /// Decodes `data`.
    fn deserialize(data: &[u8]) -> (r: Result<T, StoreError>)
        ensures
            match Self::decoding(data@) {
                Some(item) => r == Ok::<T, StoreError>(item),
                None => is_codec_error(r, Self::kind_name()),
            },
    ;
}

/// The Borsh encoding: integers as their bytes, least significant first.
pub struct Borsh;

/// The JSON encoding: integers as their decimal digits.
pub struct Json;

} // verus!
