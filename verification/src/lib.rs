//! Persistent sequences over a byte-keyed storage substrate: an append-only
//! list and a double-ended queue, each element stored under its own key,
//! with positional access, cursors that read from either side, and pages.
//!
//! The substrate offers exact-key `get`, `set` and `remove` and nothing
//! else. A collection lives under a namespace: the length under the
//! namespace followed by `len`, the offset of a queue under the namespace
//! followed by `off`, both as four bytes, most significant first, and the
//! item at position `p` under the namespace followed by the four bytes of
//! the offset plus `p`, modulo 2^32.
//!
//! Every function states what it returns and what it makes of the storage.
//! The statements are made over a model: the entries of the substrate as a
//! map ([`storage`]), the items that the entries stand for ([`slots`],
//! [`contents`]), what a handle remembers ([`handle`]) and where a cursor
//! stands ([`cursor`]). What holds of several operations together is proved
//! in [`laws`].
//!
//! Around the stores stand a map with composite keys ([`map`], [`keys`]),
//! the encodings of items ([`traits`], [`borsh_codec`], [`json_codec`]),
//! and what the contracts of the toolkit decide on plain values: padding
//! ([`messages`]), the verdicts on permissions and permits
//! ([`admin_auth`], [`query_auth`]), contracts ([`contract`]), powers of
//! ten ([`tens`]) and pairs of amounts ([`rebase`]).

pub mod admin_auth;
pub mod append_store;
pub mod borsh_codec;
pub mod contents;
pub mod contract;
pub mod cursor;
pub mod deque_store;
pub mod error;
pub mod handle;
pub mod helpers;
pub mod ibc;
pub mod json_codec;
pub mod keys;
pub mod laws;
pub mod map;
pub mod messages;
pub mod query_auth;
pub mod rebase;
pub mod slots;
pub mod storage;
pub mod tens;
pub mod traits;

pub use admin_auth::{
    admin_is_valid, validate_admin, AdminAuthStatus, AdminPermissions, PermissionsResponse,
    RegistryAction, Unauthorized, ValidateAdminPermissionResponse,
};
pub use append_store::{AppendStore, AppendStoreIter};
pub use contract::{Contract, RawContract, ResponseStatus};
pub use deque_store::{DequeStore, DequeStoreIter};
pub use error::StoreError;
pub use helpers::{may_deserialize, must_deserialize};
pub use ibc::{Ibc, IbcKeeper, IbcSudo};
pub use keys::{encode_length, namespaces_with_key, nested_namespaces_with_key};
pub use map::BorshMap;
pub use messages::{
    message_block_size, pad_execute_result, pad_query_result, padded_copy, space_pad, Answer,
};
pub use query_auth::{
    authenticate_arbitrary_permit, authenticate_permit, authenticate_vk, AuthError,
    ContractStatus, ExecuteAnswer, PermitAuthentication, QueryAnswer,
};
pub use rebase::SimpleRebase;
pub use storage::{empty_storage, Storage};
pub use tens::{exp10, U256};
pub use traits::{Borsh, Json, Serde};
