//! Reading what a storage lookup returned.

use crate::error::{is_codec_error, is_not_found, StoreError};
use crate::traits::{Borsh, Serde};
use vstd::prelude::*;

verus! {

/// Decodes the bytes of a lookup, where it found any: `Ok(None)` for a
/// lookup that found nothing.
pub fn may_deserialize<T>(value: &Option<Vec<u8>>) -> (r: Result<
    Option<T>,
    StoreError,
>) where Borsh: Serde<T>
    ensures
        match *value {
            Some(bytes) => match <Borsh as Serde<T>>::decoding(bytes@) {
                Some(item) => r == Ok::<Option<T>, StoreError>(Some(item)),
                None => is_codec_error(r, <Borsh as Serde<T>>::kind_name()),
            },
            None => r == Ok::<Option<T>, StoreError>(None),
        },
{
    match value {
        Some(bytes) => match <Borsh as Serde<T>>::deserialize(bytes.as_slice()) {
            Ok(item) => Ok(Some(item)),
            Err(e) => Err(e),
        },
        None => Ok(None),
    }
}

/// Decodes the bytes of a lookup that has to find some: `NotFound` for a
/// lookup that found nothing.
pub fn must_deserialize<T>(value: &Option<Vec<u8>>) -> (r: Result<T, StoreError>) where
    Borsh: Serde<T>
    ensures
        match *value {
            Some(bytes) => match <Borsh as Serde<T>>::decoding(bytes@) {
                Some(item) => r == Ok::<T, StoreError>(item),
                None => is_codec_error(r, <Borsh as Serde<T>>::kind_name()),
            },
            None => is_not_found(r, <Borsh as Serde<T>>::kind_name()),
        },
{
    match value {
        Some(bytes) => <Borsh as Serde<T>>::deserialize(bytes.as_slice()),
        None => Err(StoreError::NotFound { kind: <Borsh as Serde<T>>::kind() }),
    }
}

} // verus!
