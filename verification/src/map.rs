//! A map from composite keys to items, each item in a storage entry of its
//! own under a key built from the map's namespace and the parts of the
//! item's key.

use crate::error::{is_codec_error, is_not_found, StoreError};
use crate::helpers::{may_deserialize, must_deserialize};
use crate::keys::{all_short, nested_namespaces_with_key, prefixed, views};
use crate::slots::storable;
use crate::storage::Storage;
use crate::traits::{Borsh, Serde};
use core::marker::PhantomData;
use vstd::prelude::*;
use vstd::slice::slice_subrange;
use vstd::string::StringSliceAdditionalSpecFns;

verus! {

/// A handle on the map kept under one namespace.
#[derive(Debug)]
pub struct BorshMap<'a, T> {
    namespace: &'a [u8],
    data_type: PhantomData<T>,
}

/// The storage key of the item with the key `parts` in the map under
/// `namespace`: the namespace and every part but the last behind their
/// lengths, then the last part as it is.
pub open spec fn path(namespace: Seq<u8>, parts: Seq<Seq<u8>>) -> Seq<u8>
    recommends
        parts.len() > 0,
{
    prefixed(seq![namespace]) + prefixed(parts.drop_last()) + parts.last()
}

/// True of the keys that a map under `namespace` can address: they have a
/// part, and the namespace and every part but the last are short enough for
/// a two-byte length.
pub open spec fn addressable(namespace: Seq<u8>, parts: Seq<Seq<u8>>) -> bool {
    &&& parts.len() > 0
    &&& namespace.len() <= 0xFFFF
    &&& all_short(parts.drop_last())
}

/// The item that the bytes under `key` stand for in `entries`: `None` when
/// there is no entry or its bytes stand for no item.
pub open spec fn item_in<T, Ser: Serde<T>>(
    entries: Map<Seq<u8>, Seq<u8>>,
    key: Seq<u8>,
) -> Option<T> {
    if entries.contains_key(key) {
        Ser::decoding(entries[key])
    } else {
        None
    }
}

/// How an update ends whose action gave `outcome`, and what it makes of the
/// entry under `key`: what the action returned is written and returned,
/// unless it has no encoding; an error of the action is handed on.
pub open spec fn update_outcome<T, Ser: Serde<T>, E>(
    before: Map<Seq<u8>, Seq<u8>>,
    after: Map<Seq<u8>, Seq<u8>>,
    key: Seq<u8>,
    outcome: Result<T, E>,
    r: Result<T, E>,
) -> bool {
    match outcome {
        Ok(output) => match storable::<T, Ser>(output) {
            Some(bytes) => r == Ok::<T, E>(output) && after == before.insert(key, bytes),
            None => r is Err && after == before,
        },
        Err(e) => r == Err::<T, E>(e) && after == before,
    }
}

impl<'a, T> View for BorshMap<'a, T> {
    type V = Seq<u8>;

    /// The bytes of the namespace.
    closed spec fn view(&self) -> Seq<u8> {
        self.namespace@
    }
}

impl<'a, T> BorshMap<'a, T> where Borsh: Serde<T> {
    /// The storage key of the item whose key has the parts `k`.
    pub open spec fn key_of(&self, k: &[&[u8]]) -> Seq<u8> {
        path(self@, views(k))
    }

    /// A handle on the map under `namespace`.
    pub fn new(namespace: &'a str) -> (map: Self)
        ensures
            map@ == namespace.spec_bytes(),
    {
        BorshMap { namespace: namespace.as_bytes(), data_type: PhantomData }
    }

    /// The namespace of the map.
    pub fn namespace(&self) -> (bytes: &'a [u8])
        ensures
            bytes@ == self@,
    {
        self.namespace
    }

    /// The storage key of the item whose key has the parts `k`.
    pub fn key(&self, k: &[&[u8]]) -> (key: Vec<u8>)
        requires
            addressable(self@, views(k)),
        ensures
            key@ == self.key_of(k),
    {
        let last: usize = k.len() - 1;
        let top: [&[u8]; 1] = [self.namespace];
        let top_names: &[&[u8]] = top.as_slice();
        let sub = slice_subrange(k, 0, last);
        proof {
            assert(views(top_names) =~= seq![self@]);
            assert(views(sub) =~= views(k).drop_last());
            assert(k[last as int]@ == views(k).last());
        }
        nested_namespaces_with_key(top_names, sub, k[last])
    }

    /// Writes `data` under the key `k`. Nothing is written for an item
    /// without an encoding.
    pub fn save<S: Storage>(&self, store: &mut S, k: &[&[u8]], data: &T) -> (r: Result<
        (),
        StoreError,
    >)
        requires
            addressable(self@, views(k)),
        ensures
            match storable::<T, Borsh>(*data) {
                Some(bytes) => {
                    &&& r is Ok
                    &&& final(store).entries() == old(store).entries().insert(
                        self.key_of(k),
                        bytes,
                    )
                    &&& item_in::<T, Borsh>(final(store).entries(), self.key_of(k)) == Some(*data)
                },
                None => {
                    &&& is_codec_error(r, <Borsh as Serde<T>>::kind_name())
                    &&& final(store).entries() == old(store).entries()
                },
            },
    {
        let key = self.key(k);
        match <Borsh as Serde<T>>::serialize(data) {
            Ok(bytes) => {
                proof {
                    <Borsh as Serde<T>>::lemma_encoding_not_empty(*data);
                    <Borsh as Serde<T>>::lemma_round_trip(*data);
                }
                store.set(key.as_slice(), bytes.as_slice());
                Ok(())
            },
            Err(e) => Err(e),
        }
    }

    /// Deletes what is kept under the key `k`.
    pub fn remove<S: Storage>(&self, store: &mut S, k: &[&[u8]])
        requires
            addressable(self@, views(k)),
        ensures
            final(store).entries() == old(store).entries().remove(self.key_of(k)),
    {
        let key = self.key(k);
        store.remove(key.as_slice());
    }

    /// The item kept under the key `k`: `NotFound` when nothing is kept
    /// there, `Codec` when what is kept there stands for no item.
    pub fn load<S: Storage>(&self, store: &S, k: &[&[u8]]) -> (r: Result<T, StoreError>)
        requires
            addressable(self@, views(k)),
        ensures
            if store.entries().contains_key(self.key_of(k)) {
                match item_in::<T, Borsh>(store.entries(), self.key_of(k)) {
                    Some(item) => r == Ok::<T, StoreError>(item),
                    None => is_codec_error(r, <Borsh as Serde<T>>::kind_name()),
                }
            } else {
                is_not_found(r, <Borsh as Serde<T>>::kind_name())
            },
    {
        let key = self.key(k);
        let value = store.get(key.as_slice());
        must_deserialize::<T>(&value)
    }

    /// The item kept under the key `k`, if anything is kept there: `Codec`
    /// when what is kept there stands for no item.
    pub fn may_load<S: Storage>(&self, store: &S, k: &[&[u8]]) -> (r: Result<
        Option<T>,
        StoreError,
    >)
        requires
            addressable(self@, views(k)),
        ensures
            if store.entries().contains_key(self.key_of(k)) {
                match item_in::<T, Borsh>(store.entries(), self.key_of(k)) {
                    Some(item) => r == Ok::<Option<T>, StoreError>(Some(item)),
                    None => is_codec_error(r, <Borsh as Serde<T>>::kind_name()),
                }
            } else {
                r == Ok::<Option<T>, StoreError>(None)
            },
    {
        let key = self.key(k);
        let value = store.get(key.as_slice());
        may_deserialize::<T>(&value)
    }

    /// Whether anything is kept under the key `k`, readable or not.
    pub fn has<S: Storage>(&self, store: &S, k: &[&[u8]]) -> (found: bool)
        requires
            addressable(self@, views(k)),
        ensures
            found == store.entries().contains_key(self.key_of(k)),
    {
        let key = self.key(k);
        store.get(key.as_slice()).is_some()
    }

    /// True when the lookup that an update begins with fails: when what is
    /// kept under the key `k` stands for no item.
    pub open spec fn update_blocked(&self, entries: Map<Seq<u8>, Seq<u8>>, k: &[&[u8]]) -> bool {
        &&& entries.contains_key(self.key_of(k))
        &&& item_in::<T, Borsh>(entries, self.key_of(k)) is None
    }

    /// Loads the item kept under the key `k`, hands it to `action`, and
    /// writes what the action returns under the same key. The action gets
    /// `None` where nothing is kept there. Nothing is written where the
    /// lookup or the action fails.
    pub fn update<S: Storage, A, E>(&self, store: &mut S, k: &[&[u8]], action: A) -> (r: Result<
        T,
        E,
    >) where A: FnOnce(Option<T>) -> Result<T, E>, E: From<StoreError>
        requires
            addressable(self@, views(k)),
            !self.update_blocked(old(store).entries(), k) ==> call_requires(
                action,
                (item_in::<T, Borsh>(old(store).entries(), self.key_of(k)),),
            ),
        ensures
            if self.update_blocked(old(store).entries(), k) {
                r is Err && final(store).entries() == old(store).entries()
            } else {
                exists|outcome: Result<T, E>|
                    {
                        &&& call_ensures(
                            action,
                            (item_in::<T, Borsh>(old(store).entries(), self.key_of(k)),),
                            outcome,
                        )
                        &&& #[trigger] update_outcome::<T, Borsh, E>(
                            old(store).entries(),
                            final(store).entries(),
                            self.key_of(k),
                            outcome,
                            r,
                        )
                    }
            },
    {
        let input = match self.may_load(store, k) {
            Ok(input) => input,
            Err(e) => {
                return Err(E::from(e));
            },
        };
        let outcome = action(input);
        let r = match outcome {
            Ok(output) => match self.save(store, k, &output) {
                Ok(()) => Ok(output),
                Err(e) => Err(E::from(e)),
            },
            Err(e) => Err(e),
        };
        assert(update_outcome::<T, Borsh, E>(
            old(store).entries(),
            store.entries(),
            self.key_of(k),
            outcome,
            r,
        ));
        r
    }
}

impl<'a, T> Clone for BorshMap<'a, T> where Borsh: Serde<T> {
    /// A handle on the same map.
    fn clone(&self) -> (map: Self)
        ensures
            map@ == self@,
    {
        BorshMap { namespace: self.namespace, data_type: PhantomData }
    }
}

} // verus!
