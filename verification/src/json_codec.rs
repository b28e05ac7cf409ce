//! The JSON encoding of integers: their decimal digits, as `cosmwasm_std`
//! writes and reads them.

use crate::error::StoreError;
use crate::traits::{Json, Serde};
use vstd::prelude::*;

verus! {

/// The decimal digits of `n` as ASCII bytes, without leading zeros.
pub open spec fn digits(n: nat) -> Seq<u8>
    decreases n,
{
    if n < 10 {
        seq![(48 + n) as u8]
    } else {
        digits(n / 10).push((48 + n % 10) as u8)
    }
}

/// The JSON text of an unsigned number: its decimal digits.
pub open spec fn json_u32(x: u32) -> Seq<u8> {
    digits(x as nat)
}

/// The JSON text of a signed number: its decimal digits, behind a minus
/// sign where it is negative.
pub open spec fn json_i32(x: i32) -> Seq<u8> {
    if x < 0 {
        seq![45u8] + digits((-x) as nat)
    } else {
        digits(x as nat)
    }
}

/// What `cosmwasm_std::from_json` makes of a text as a `u32`: the number,
/// or `None` where it reports an error.
pub uninterp spec fn json_read_u32(text: Seq<u8>) -> Option<u32>;

/// What `cosmwasm_std::from_json` makes of a text as an `i32`: the number,
/// or `None` where it reports an error.
pub uninterp spec fn json_read_i32(text: Seq<u8>) -> Option<i32>;

/// `cosmwasm_std::to_json_vec` on a `u32`: its decimal digits. Writing a
/// number into a vector cannot fail.
#[verifier::external_body]
fn json_u32_to_vec(item: &u32) -> (r: Result<Vec<u8>, String>)
    ensures
        match r {
            Ok(v) => v@ == json_u32(*item),
            Err(_) => false,
        },
{
    match cosmwasm_std::to_json_vec(item) {
        Ok(v) => Ok(v),
        Err(e) => Err(e.to_string()),
    }
}

/// `cosmwasm_std::from_json` for `u32`. The text that is the decimal digits
/// of a number reads as that number; what any other text reads as goes by
/// the name `json_read_u32`.
#[verifier::external_body]
fn json_u32_from_slice(data: &[u8]) -> (r: Result<u32, String>)
    ensures
        match r {
            Ok(x) => json_read_u32(data@) == Some(x),
            Err(_) => json_read_u32(data@) is None,
        },
        forall|x: u32|
            data@ == json_u32(x) ==> match r {
                Ok(y) => y == x,
                Err(_) => false,
            },
{
    match cosmwasm_std::from_json::<u32>(data) {
        Ok(x) => Ok(x),
        Err(e) => Err(e.to_string()),
    }
}

/// `cosmwasm_std::to_json_vec` on an `i32`: its decimal digits, behind a
/// minus sign where it is negative. Writing a number into a vector cannot
/// fail.
#[verifier::external_body]
fn json_i32_to_vec(item: &i32) -> (r: Result<Vec<u8>, String>)
    ensures
        match r {
            Ok(v) => v@ == json_i32(*item),
            Err(_) => false,
        },
{
    match cosmwasm_std::to_json_vec(item) {
        Ok(v) => Ok(v),
        Err(e) => Err(e.to_string()),
    }
}

/// `cosmwasm_std::from_json` for `i32`. The text that `json_i32` gives for
/// a number reads as that number; what any other text reads as goes by the
/// name `json_read_i32`.
#[verifier::external_body]
fn json_i32_from_slice(data: &[u8]) -> (r: Result<i32, String>)
    ensures
        match r {
            Ok(x) => json_read_i32(data@) == Some(x),
            Err(_) => json_read_i32(data@) is None,
        },
        forall|x: i32|
            data@ == json_i32(x) ==> match r {
                Ok(y) => y == x,
                Err(_) => false,
            },
{
    match cosmwasm_std::from_json::<i32>(data) {
        Ok(x) => Ok(x),
        Err(e) => Err(e.to_string()),
    }
}

/// The digits of a number are at least one, each of them a digit, the last
/// one that of the units; those before it are the digits of the tens.
pub proof fn lemma_digits_shape(n: nat)
    ensures
        digits(n).len() >= 1,
        n >= 10 ==> digits(n).len() >= 2,
        digits(n).last() == (48 + n % 10) as u8,
        n >= 10 ==> digits(n).drop_last() == digits(n / 10),
        forall|i: int| 0 <= i < digits(n).len() ==> 48 <= #[trigger] digits(n)[i] <= 57,
    decreases n,
{
    if n >= 10 {
        lemma_digits_shape(n / 10);
        assert(digits(n).drop_last() =~= digits(n / 10));
    }
}

/// Different numbers have different digits.
pub proof fn lemma_digits_injective(a: nat, b: nat)
    ensures
        digits(a) == digits(b) ==> a == b,
    decreases a,
{
    lemma_digits_shape(a);
    lemma_digits_shape(b);
    if digits(a) == digits(b) {
        if a >= 10 && b >= 10 {
            lemma_digits_injective(a / 10, b / 10);
        }
    }
}

/// Different numbers have different JSON texts.
pub proof fn lemma_json_i32_injective(a: i32, b: i32)
    ensures
        json_i32(a) == json_i32(b) ==> a == b,
{
    if json_i32(a) == json_i32(b) {
        let da = if a < 0 { (-a) as nat } else { a as nat };
        let db = if b < 0 { (-b) as nat } else { b as nat };
        lemma_digits_shape(da);
        lemma_digits_shape(db);
        lemma_digits_injective(da, db);
        if a < 0 {
            assert(json_i32(a)[0] == 45u8);
            if b >= 0 {
                assert(json_i32(b)[0] == digits(db)[0]);
            } else {
                assert((seq![45u8] + digits(da)).subrange(1, 1 + digits(da).len() as int)
                    =~= digits(da));
                assert((seq![45u8] + digits(db)).subrange(1, 1 + digits(db).len() as int)
                    =~= digits(db));
            }
        } else {
            assert(json_i32(a)[0] == digits(da)[0]);
            if b < 0 {
                assert(json_i32(b)[0] == 45u8);
            }
        }
    }
}

impl Serde<u32> for Json {
    open spec fn encoding(item: u32) -> Option<Seq<u8>> {
        Some(json_u32(item))
    }

    /// The number whose digits the text is, where it is the digits of one;
    /// else what the parser makes of it.
    open spec fn decoding(bytes: Seq<u8>) -> Option<u32> {
        if exists|x: u32| json_u32(x) == bytes {
            Some(choose|x: u32| json_u32(x) == bytes)
        } else {
            json_read_u32(bytes)
        }
    }

    proof fn lemma_round_trip(item: u32) {
        let back = choose|x: u32| json_u32(x) == json_u32(item);
        lemma_digits_injective(back as nat, item as nat);
    }

    proof fn lemma_encoding_not_empty(item: u32) {
        lemma_digits_shape(item as nat);
    }

    proof fn lemma_decoded_encodes(bytes: Seq<u8>) {
    }

    open spec fn kind_name() -> Seq<char> {
        "u32"@
    }

    fn kind() -> (name: String) {
        "u32".to_owned()
    }

    fn serialize(item: &u32) -> (r: Result<Vec<u8>, StoreError>) {
        match json_u32_to_vec(item) {
            Ok(v) => Ok(v),
            Err(cause) => Err(StoreError::Codec { target: <Self as Serde<u32>>::kind(), cause }),
        }
    }

    fn deserialize(data: &[u8]) -> (r: Result<u32, StoreError>) {
        match json_u32_from_slice(data) {
            Ok(x) => Ok(x),
            Err(cause) => Err(StoreError::Codec { target: <Self as Serde<u32>>::kind(), cause }),
        }
    }
}

impl Serde<i32> for Json {
    open spec fn encoding(item: i32) -> Option<Seq<u8>> {
        Some(json_i32(item))
    }

    /// The number whose text the bytes are, where they are the text of one;
    /// else what the parser makes of them.
    open spec fn decoding(bytes: Seq<u8>) -> Option<i32> {
        if exists|x: i32| json_i32(x) == bytes {
            Some(choose|x: i32| json_i32(x) == bytes)
        } else {
            json_read_i32(bytes)
        }
    }

    proof fn lemma_round_trip(item: i32) {
        let back = choose|x: i32| json_i32(x) == json_i32(item);
        lemma_json_i32_injective(back, item);
    }

    proof fn lemma_encoding_not_empty(item: i32) {
        if item < 0 {
            lemma_digits_shape((-item) as nat);
        } else {
            lemma_digits_shape(item as nat);
        }
    }

    proof fn lemma_decoded_encodes(bytes: Seq<u8>) {
    }

    open spec fn kind_name() -> Seq<char> {
        "i32"@
    }

    fn kind() -> (name: String) {
        "i32".to_owned()
    }

    fn serialize(item: &i32) -> (r: Result<Vec<u8>, StoreError>) {
        match json_i32_to_vec(item) {
            Ok(v) => Ok(v),
            Err(cause) => Err(StoreError::Codec { target: <Self as Serde<i32>>::kind(), cause }),
        }
    }

    fn deserialize(data: &[u8]) -> (r: Result<i32, StoreError>) {
        match json_i32_from_slice(data) {
            Ok(x) => Ok(x),
            Err(cause) => Err(StoreError::Codec { target: <Self as Serde<i32>>::kind(), cause }),
        }
    }
}

} // verus!
