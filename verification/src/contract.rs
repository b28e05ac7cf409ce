//! Types that are shared by all kinds of contracts.

use vstd::prelude::*;

verus! {

/// A contract as a caller names it: an address that has not been validated,
/// and the hash of the contract's code.
#[derive(Debug, Clone, PartialEq, Eq, Hash, Default)]
pub struct RawContract {
    pub address: String,
    pub code_hash: String,
}

impl RawContract {
    /// A contract named by `address` and `code_hash`, each turned into a
    /// string.
    pub fn new<A: Into<String>, C: Into<String>>(address: A, code_hash: C) -> (contract: Self)
        ensures
            call_ensures(A::into, (address,), contract.address),
            call_ensures(C::into, (code_hash,), contract.code_hash),
    {
        RawContract { address: address.into(), code_hash: code_hash.into() }
    }
}

/// A contract whose address has been validated, or is taken on trust.
#[derive(Debug, Clone, PartialEq, Eq, Hash, Default)]
pub struct Contract {
    pub address: String,
    pub code_hash: String,
}

impl RawContract {
    /// The contract with the address that validating this one's address
    /// gave, or the error that it gave.
    pub fn validate<E>(self, checked: Result<String, E>) -> (r: Result<Contract, E>)
        ensures
            match checked {
                Ok(address) => r == Ok::<Contract, E>(
                    Contract { address, code_hash: self.code_hash },
                ),
                Err(e) => r == Err::<Contract, E>(e),
            },
    {
        match checked {
            Ok(address) => Ok(Contract { address, code_hash: self.code_hash }),
            Err(e) => Err(e),
        }
    }
}

impl Contract {
    /// Whether the contract can be used: always.
    pub fn is_valid(&self) -> (valid: bool)
        ensures
            valid,
    {
        true
    }

    /// A contract named by `address` and `code_hash`, each turned into a
    /// string, the address taken on trust.
    pub fn new<A: Into<String>, C: Into<String>>(address: A, code_hash: C) -> (contract: Self)
        ensures
            call_ensures(A::into, (address,), contract.address),
            call_ensures(C::into, (code_hash,), contract.code_hash),
    {
        Contract { address: address.into(), code_hash: code_hash.into() }
    }
}

/// Whether a request was carried out.
#[derive(Debug, Clone, Copy, PartialEq, Eq)]
pub enum ResponseStatus {
    Success,
    Failure,
}

} // verus!
