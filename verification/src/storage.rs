//! The storage substrate: exact-key get, set and remove over byte strings.

use cosmwasm_std::MemoryStorage;
use cosmwasm_std::Storage as HostStorage;
use vstd::prelude::*;

verus! {

/// A byte-keyed store. Its mathematical model is a map from keys to values.
///
/// Only exact-key access is offered; nothing here depends on key order.
pub trait Storage {
    /// The entries currently held.
    spec fn entries(&self) -> Map<Seq<u8>, Seq<u8>>;

    /// Reads the value under `key`, if there is one.
    fn get(&self, key: &[u8]) -> (value: Option<Vec<u8>>)
        ensures
            match value {
                Some(v) => self.entries().contains_key(key@) && self.entries()[key@] == v@,
                None => !self.entries().contains_key(key@),
            },
    ;

    /// Writes `value` under `key`, replacing what was there.
    fn set(&mut self, key: &[u8], value: &[u8])
        requires
            value@.len() > 0,
        ensures
            final(self).entries() == old(self).entries().insert(key@, value@),
    ;

    /// Deletes the entry under `key`, if there is one.
    fn remove(&mut self, key: &[u8])
        ensures
            final(self).entries() == old(self).entries().remove(key@),
    ;
}

/// `cosmwasm_std::MemoryStorage`, the in-memory store that stands in for
/// the storage of a chain. Nothing is known of a value of it but what
/// `memory_entries` names.
#[verifier::external_type_specification]
#[verifier::external_body]
pub struct ExMemoryStorage(MemoryStorage);

/// The entries that a `cosmwasm_std::MemoryStorage` holds.
pub uninterp spec fn memory_entries(store: MemoryStorage) -> Map<Seq<u8>, Seq<u8>>;

/// The entries of a store that holds none.
pub open spec fn no_entries() -> Map<Seq<u8>, Seq<u8>> {
    Map::empty()
}

/// `MemoryStorage::new`: a store that holds no entry.
#[verifier::external_body]
fn memory_new() -> (store: MemoryStorage)
    ensures
        memory_entries(store) == no_entries(),
{
    MemoryStorage::new()
}

/// `MemoryStorage::get`: a copy of the value kept under exactly this key,
/// or nothing when the key is absent.
#[verifier::external_body]
fn memory_get(store: &MemoryStorage, key: &[u8]) -> (value: Option<Vec<u8>>)
    ensures
        match value {
            Some(v) => memory_entries(*store).contains_key(key@) && memory_entries(*store)[key@]
                == v@,
            None => !memory_entries(*store).contains_key(key@),
        },
{
    HostStorage::get(store, key)
}

/// `MemoryStorage::set`: inserts a copy of the pair, replacing an earlier
/// value of the key. The outside method panics on an empty value, which the
/// precondition leaves out.
#[verifier::external_body]
fn memory_set(store: &mut MemoryStorage, key: &[u8], value: &[u8])
    requires
        value@.len() > 0,
    ensures
        memory_entries(*final(store)) == memory_entries(*old(store)).insert(key@, value@),
{
    HostStorage::set(store, key, value)
}

/// `MemoryStorage::remove`: deletes the key's entry and leaves the others.
#[verifier::external_body]
fn memory_remove(store: &mut MemoryStorage, key: &[u8])
    ensures
        memory_entries(*final(store)) == memory_entries(*old(store)).remove(key@),
{
    HostStorage::remove(store, key)
}

impl Storage for MemoryStorage {
    open spec fn entries(&self) -> Map<Seq<u8>, Seq<u8>> {
        memory_entries(*self)
    }

    fn get(&self, key: &[u8]) -> (value: Option<Vec<u8>>) {
        memory_get(self, key)
    }

    fn set(&mut self, key: &[u8], value: &[u8]) {
        memory_set(self, key, value)
    }

    fn remove(&mut self, key: &[u8]) {
        memory_remove(self, key)
    }
}

/// An in-memory store without entries: the substrate of a collection that
/// nothing has been written to.
pub fn empty_storage() -> (store: MemoryStorage)
    ensures
        store.entries() == no_entries(),
{
    memory_new()
}

} // verus!
