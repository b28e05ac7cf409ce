//! The messages of the contract that checks viewing keys and permits.

use crate::contract::{RawContract, ResponseStatus};
use vstd::prelude::*;

verus! {

/// Which kinds of authentication the contract currently accepts.
#[derive(Debug, Clone, Copy, PartialEq, Eq)]
pub enum ContractStatus {
    Default,
    DisablePermit,
    DisableVK,
    DisableAll,
}

/// What the contract answers to a request.
#[derive(Debug, Clone, PartialEq, Eq)]
pub enum ExecuteAnswer {
    SetAdminAuth { status: ResponseStatus },
    SetRunState { status: ResponseStatus },
    SetViewingKey { status: ResponseStatus },
    CreateViewingKey { key: String },
    BlockPermitKey { status: ResponseStatus },
}

/// What the contract answers to a query. Addresses are plain strings here.
#[derive(Debug, Clone, PartialEq, Eq)]
pub enum QueryAnswer {
    Config { admin: RawContract, state: ContractStatus },
    ValidateViewingKey { is_valid: bool },
    ValidatePermit { user: String, is_revoked: bool },
}

/// Why an answer could not be taken as an authentication.
#[derive(Debug, Clone, Copy, PartialEq, Eq)]
pub enum AuthError {
    /// A permit of arbitrary content was asked about and the answer was not
    /// one about a permit.
    UnexpectedResponse,
    /// A permit was asked about and the answer was not one about a permit.
    WrongResponse,
    /// A viewing key was asked about and the answer was not one about a
    /// viewing key.
    Unauthorized,
}

impl AuthError {
    /// The text of the error.
    pub open spec fn text(self) -> Seq<char> {
        match self {
            AuthError::UnexpectedResponse => "Unexpected response from query auth."@,
            AuthError::WrongResponse => "Wrong query response"@,
            AuthError::Unauthorized => "Unauthorized"@,
        }
    }

    /// The text of the error.
    pub fn message(self) -> (text: String)
        ensures
            text@ == self.text(),
    {
        let text: &str = match self {
            AuthError::UnexpectedResponse => "Unexpected response from query auth.",
            AuthError::WrongResponse => "Wrong query response",
            AuthError::Unauthorized => "Unauthorized",
        };
        text.to_owned()
    }
}

/// Who sent a permit, whether it has been revoked, and what it carries.
#[derive(Debug, Clone, PartialEq, Eq)]
pub struct PermitAuthentication<T> {
    pub sender: String,
    pub revoked: bool,
    pub data: T,
}

/// Takes the answer about a permit as an authentication that
/// carries `data`. `wrong` is the error for an answer of another kind.
fn permit_authentication<T>(answer: QueryAnswer, data: T, wrong: AuthError) -> (r: Result<
    PermitAuthentication<T>,
    AuthError,
>)
    ensures
        match answer {
            QueryAnswer::ValidatePermit { user, is_revoked } => r == Ok::<
                PermitAuthentication<T>,
                AuthError,
            >(PermitAuthentication { sender: user, revoked: is_revoked, data }),
            _ => r == Err::<PermitAuthentication<T>, AuthError>(wrong),
        },
{
    match answer {
        QueryAnswer::ValidatePermit { user, is_revoked } => Ok(
            PermitAuthentication { sender: user, revoked: is_revoked, data },
        ),
        _ => Err(wrong),
    }
}

/// Takes the answer about a permit as an authentication that
/// carries the permit's data as it came.
pub fn authenticate_arbitrary_permit(answer: QueryAnswer, data: Vec<u8>) -> (r: Result<
    PermitAuthentication<Vec<u8>>,
    AuthError,
>)
    ensures
        match answer {
            QueryAnswer::ValidatePermit { user, is_revoked } => r == Ok::<
                PermitAuthentication<Vec<u8>>,
                AuthError,
            >(PermitAuthentication { sender: user, revoked: is_revoked, data }),
            _ => r == Err::<PermitAuthentication<Vec<u8>>, AuthError>(
                AuthError::UnexpectedResponse,
            ),
        },
{
    permit_authentication(answer, data, AuthError::UnexpectedResponse)
}

/// Takes the answer about a permit as an authentication that
/// carries the permit's data, read as a value of `T`.
pub fn authenticate_permit<T>(answer: QueryAnswer, data: T) -> (r: Result<
    PermitAuthentication<T>,
    AuthError,
>)
    ensures
        match answer {
            QueryAnswer::ValidatePermit { user, is_revoked } => r == Ok::<
                PermitAuthentication<T>,
                AuthError,
            >(PermitAuthentication { sender: user, revoked: is_revoked, data }),
            _ => r == Err::<PermitAuthentication<T>, AuthError>(AuthError::WrongResponse),
        },
{
    permit_authentication(answer, data, AuthError::WrongResponse)
}

/// Whether the viewing key is valid, as the answer about it says.
pub fn authenticate_vk(answer: QueryAnswer) -> (r: Result<bool, AuthError>)
    ensures
        match answer {
            QueryAnswer::ValidateViewingKey { is_valid } => r == Ok::<bool, AuthError>(is_valid),
            _ => r == Err::<bool, AuthError>(AuthError::Unauthorized),
        },
{
    match answer {
        QueryAnswer::ValidateViewingKey { is_valid } => Ok(is_valid),
        _ => Err(AuthError::Unauthorized),
    }
}

} // verus!
