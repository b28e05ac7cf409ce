//! The Borsh encoding of integers: their bytes, least significant first,
//! as the `borsh` crate writes and reads them.

use crate::error::StoreError;
use crate::traits::{Borsh, Serde};
use borsh::BorshDeserialize;
use vstd::prelude::*;

verus! {

/// The four bytes of `x`, least significant first.
pub open spec fn le_bytes(x: u32) -> Seq<u8> {
    seq![
        (x % 0x100) as u8,
        ((x / 0x100) % 0x100) as u8,
        ((x / 0x1_0000) % 0x100) as u8,
        (x / 0x100_0000) as u8,
    ]
}

/// The number whose little-endian bytes are the first four bytes of `bytes`.
pub open spec fn le_value(bytes: Seq<u8>) -> u32
    recommends
        bytes.len() == 4,
{
    (bytes[0] as int + bytes[1] as int * 0x100 + bytes[2] as int * 0x1_0000 + bytes[3] as int
        * 0x100_0000) as u32
}

/// The unsigned number with the same 32 bits as `x` in two's complement.
pub open spec fn to_unsigned(x: i32) -> u32 {
    if x >= 0 {
        x as u32
    } else {
        (x + 0x1_0000_0000) as u32
    }
}

/// The signed number with the same 32 bits as `x` in two's complement.
pub open spec fn to_signed(x: u32) -> i32 {
    if x < 0x8000_0000 {
        x as i32
    } else {
        (x - 0x1_0000_0000) as i32
    }
}

/// `borsh::to_vec` on a `u32`: its four bytes, least significant first. It
/// writes into a vector, which cannot fail.
#[verifier::external_body]
fn borsh_u32_to_vec(item: &u32) -> (r: Result<Vec<u8>, String>)
    ensures
        match r {
            Ok(v) => v@ == le_bytes(*item),
            Err(_) => false,
        },
{
    match borsh::to_vec(item) {
        Ok(v) => Ok(v),
        Err(e) => Err(e.to_string()),
    }
}

/// `BorshDeserialize::try_from_slice` for `u32`: the number read from
/// exactly four bytes, least significant first; an error for any other
/// length.
#[verifier::external_body]
fn borsh_u32_from_slice(data: &[u8]) -> (r: Result<u32, String>)
    ensures
        match r {
            Ok(x) => data@.len() == 4 && x == le_value(data@),
            Err(_) => data@.len() != 4,
        },
{
    match u32::try_from_slice(data) {
        Ok(x) => Ok(x),
        Err(e) => Err(e.to_string()),
    }
}

/// `borsh::to_vec` on an `i32`: the four bytes of its two's complement,
/// least significant first. It writes into a vector, which cannot fail.
#[verifier::external_body]
fn borsh_i32_to_vec(item: &i32) -> (r: Result<Vec<u8>, String>)
    ensures
        match r {
            Ok(v) => v@ == le_bytes(to_unsigned(*item)),
            Err(_) => false,
        },
{
    match borsh::to_vec(item) {
        Ok(v) => Ok(v),
        Err(e) => Err(e.to_string()),
    }
}

/// `BorshDeserialize::try_from_slice` for `i32`: the two's complement number
/// read from exactly four bytes, least significant first; an error for any
/// other length.
#[verifier::external_body]
fn borsh_i32_from_slice(data: &[u8]) -> (r: Result<i32, String>)
    ensures
        match r {
            Ok(x) => data@.len() == 4 && x == to_signed(le_value(data@)),
            Err(_) => data@.len() != 4,
        },
{
    match i32::try_from_slice(data) {
        Ok(x) => Ok(x),
        Err(e) => Err(e.to_string()),
    }
}

/// Decoding undoes encoding, least significant byte first.
pub proof fn lemma_le_round_trip(x: u32)
    ensures
        le_bytes(x).len() == 4,
        le_value(le_bytes(x)) == x,
{
}

impl Serde<u32> for Borsh {
    open spec fn encoding(item: u32) -> Option<Seq<u8>> {
        Some(le_bytes(item))
    }

    open spec fn decoding(bytes: Seq<u8>) -> Option<u32> {
        if bytes.len() == 4 {
            Some(le_value(bytes))
        } else {
            None
        }
    }

    proof fn lemma_round_trip(item: u32) {
        lemma_le_round_trip(item);
    }

    proof fn lemma_encoding_not_empty(item: u32) {
        lemma_le_round_trip(item);
    }

    proof fn lemma_decoded_encodes(bytes: Seq<u8>) {
    }

    open spec fn kind_name() -> Seq<char> {
        "u32"@
    }

    fn kind() -> (name: String) {
        "u32".to_owned()
    }

    fn serialize(item: &u32) -> (r: Result<Vec<u8>, StoreError>) {
        match borsh_u32_to_vec(item) {
            Ok(v) => Ok(v),
            Err(cause) => Err(StoreError::Codec { target: <Self as Serde<u32>>::kind(), cause }),
        }
    }

    fn deserialize(data: &[u8]) -> (r: Result<u32, StoreError>) {
        match borsh_u32_from_slice(data) {
            Ok(x) => Ok(x),
            Err(cause) => Err(StoreError::Codec { target: <Self as Serde<u32>>::kind(), cause }),
        }
    }
}

impl Serde<i32> for Borsh {
    open spec fn encoding(item: i32) -> Option<Seq<u8>> {
        Some(le_bytes(to_unsigned(item)))
    }

    open spec fn decoding(bytes: Seq<u8>) -> Option<i32> {
        if bytes.len() == 4 {
            Some(to_signed(le_value(bytes)))
        } else {
            None
        }
    }

    proof fn lemma_round_trip(item: i32) {
        lemma_le_round_trip(to_unsigned(item));
    }

    proof fn lemma_encoding_not_empty(item: i32) {
        lemma_le_round_trip(to_unsigned(item));
    }

    proof fn lemma_decoded_encodes(bytes: Seq<u8>) {
    }

    open spec fn kind_name() -> Seq<char> {
        "i32"@
    }

    fn kind() -> (name: String) {
        "i32".to_owned()
    }

    fn serialize(item: &i32) -> (r: Result<Vec<u8>, StoreError>) {
        match borsh_i32_to_vec(item) {
            Ok(v) => Ok(v),
            Err(cause) => Err(StoreError::Codec { target: <Self as Serde<i32>>::kind(), cause }),
        }
    }

    fn deserialize(data: &[u8]) -> (r: Result<i32, StoreError>) {
        match borsh_i32_from_slice(data) {
            Ok(x) => Ok(x),
            Err(cause) => Err(StoreError::Codec { target: <Self as Serde<i32>>::kind(), cause }),
        }
    }
}

/// The eight bytes of `x`, least significant first: those of its lower
/// half, then those of its upper half.
pub open spec fn le_bytes64(x: u64) -> Seq<u8> {
    le_bytes((x % 0x1_0000_0000) as u32) + le_bytes((x / 0x1_0000_0000) as u32)
}

/// The number whose little-endian bytes are the first eight bytes of
/// `bytes`.
pub open spec fn le_value64(bytes: Seq<u8>) -> u64
    recommends
        bytes.len() == 8,
{
    (le_value(bytes.subrange(0, 4)) + le_value(bytes.subrange(4, 8)) * 0x1_0000_0000) as u64
}

/// Decoding undoes encoding, least significant byte first.
pub proof fn lemma_le_round_trip64(x: u64)
    ensures
        le_bytes64(x).len() == 8,
        le_value64(le_bytes64(x)) == x,
{
    let lo = (x % 0x1_0000_0000) as u32;
    let hi = (x / 0x1_0000_0000) as u32;
    lemma_le_round_trip(lo);
    lemma_le_round_trip(hi);
    assert(le_bytes64(x).subrange(0, 4) =~= le_bytes(lo));
    assert(le_bytes64(x).subrange(4, 8) =~= le_bytes(hi));
}

/// `borsh::to_vec` on a `u64`: its eight bytes, least significant first. It
/// writes into a vector, which cannot fail.
#[verifier::external_body]
fn borsh_u64_to_vec(item: &u64) -> (r: Result<Vec<u8>, String>)
    ensures
        match r {
            Ok(v) => v@ == le_bytes64(*item),
            Err(_) => false,
        },
{
    match borsh::to_vec(item) {
        Ok(v) => Ok(v),
        Err(e) => Err(e.to_string()),
    }
}

/// `BorshDeserialize::try_from_slice` for `u64`: the number read from
/// exactly eight bytes, least significant first; an error for any other
/// length.
#[verifier::external_body]
fn borsh_u64_from_slice(data: &[u8]) -> (r: Result<u64, String>)
    ensures
        match r {
            Ok(x) => data@.len() == 8 && x == le_value64(data@),
            Err(_) => data@.len() != 8,
        },
{
    match u64::try_from_slice(data) {
        Ok(x) => Ok(x),
        Err(e) => Err(e.to_string()),
    }
}

impl Serde<u64> for Borsh {
    open spec fn encoding(item: u64) -> Option<Seq<u8>> {
        Some(le_bytes64(item))
    }

    open spec fn decoding(bytes: Seq<u8>) -> Option<u64> {
        if bytes.len() == 8 {
            Some(le_value64(bytes))
        } else {
            None
        }
    }

    proof fn lemma_round_trip(item: u64) {
        lemma_le_round_trip64(item);
    }

    proof fn lemma_encoding_not_empty(item: u64) {
        lemma_le_round_trip64(item);
    }

    proof fn lemma_decoded_encodes(bytes: Seq<u8>) {
    }

    open spec fn kind_name() -> Seq<char> {
        "u64"@
    }

    fn kind() -> (name: String) {
        "u64".to_owned()
    }

    fn serialize(item: &u64) -> (r: Result<Vec<u8>, StoreError>) {
        match borsh_u64_to_vec(item) {
            Ok(v) => Ok(v),
            Err(cause) => Err(StoreError::Codec { target: <Self as Serde<u64>>::kind(), cause }),
        }
    }

    fn deserialize(data: &[u8]) -> (r: Result<u64, StoreError>) {
        match borsh_u64_from_slice(data) {
            Ok(x) => Ok(x),
            Err(cause) => Err(StoreError::Codec { target: <Self as Serde<u64>>::kind(), cause }),
        }
    }
}

} // verus!
