//! What both stores are made of: two persisted counters and one entry per
//! element, all under the keys of one namespace.
//!
//! A slot is addressed by a physical index. A logical position `pos` of a
//! collection with offset `off` lives in the slot `off + pos`, computed
//! modulo 2^32, so that a collection can grow at its head without moving
//! what it holds.

use crate::error::{is_codec_error, is_counter_error, is_not_found, StoreError};
use crate::keys::{
    be_bytes, be_value, concat, lemma_be_injective, lemma_be_round_trip, u32_from_be, u32_to_be,
};
use crate::storage::Storage;
use crate::traits::Serde;
use vstd::prelude::*;

verus! {

/// The suffix of the key that keeps the length: the letters `len`.
pub open spec fn len_suffix() -> Seq<u8> {
    seq![0x6cu8, 0x65u8, 0x6eu8]
}

/// The suffix of the key that keeps the offset: the letters `off`.
pub open spec fn off_suffix() -> Seq<u8> {
    seq![0x6fu8, 0x66u8, 0x66u8]
}

/// The key of the slot with physical index `index`.
pub open spec fn slot_key(prefix: Seq<u8>, index: u32) -> Seq<u8> {
    prefix + be_bytes(index)
}

/// The physical index of logical position `pos` under offset `off`.
pub open spec fn physical(off: u32, pos: u32) -> u32 {
    if off + pos <= u32::MAX {
        (off + pos) as u32
    } else {
        (off + pos - 0x1_0000_0000) as u32
    }
}

/// What a counter reads as: zero when its key is absent, the number kept in
/// its four bytes, or `None` when the entry does not have four bytes.
pub open spec fn counter_value(entries: Map<Seq<u8>, Seq<u8>>, key: Seq<u8>) -> Option<u32> {
    if !entries.contains_key(key) {
        Some(0u32)
    } else if entries[key].len() == 4 {
        Some(be_value(entries[key]))
    } else {
        None
    }
}

/// The item that a slot holds: `None` when the slot is absent or its bytes
/// stand for no item.
pub open spec fn slot_item<T, Ser: Serde<T>>(
    entries: Map<Seq<u8>, Seq<u8>>,
    prefix: Seq<u8>,
    index: u32,
) -> Option<T> {
    if entries.contains_key(slot_key(prefix, index)) {
        Ser::decoding(entries[slot_key(prefix, index)])
    } else {
        None
    }
}

/// The item at logical position `pos`.
pub open spec fn item_at<T, Ser: Serde<T>>(
    entries: Map<Seq<u8>, Seq<u8>>,
    prefix: Seq<u8>,
    off: u32,
    pos: u32,
) -> Option<T> {
    slot_item::<T, Ser>(entries, prefix, physical(off, pos))
}

/// The logical content of a collection with the given counters: position by
/// position, the item its slot holds.
pub open spec fn items<T, Ser: Serde<T>>(
    entries: Map<Seq<u8>, Seq<u8>>,
    prefix: Seq<u8>,
    off: u32,
    len: u32,
) -> Seq<Option<T>> {
    Seq::new(len as nat, |pos: int| item_at::<T, Ser>(entries, prefix, off, pos as u32))
}

/// The bytes under which `item` is kept: its encoding, where it has one.
pub open spec fn storable<T, Ser: Serde<T>>(item: T) -> Option<Seq<u8>> {
    Ser::encoding(item)
}

/// The bytes that a slot's item has when it is written anew: `None` when
/// the slot cannot be read.
pub open spec fn moved<T, Ser: Serde<T>>(
    entries: Map<Seq<u8>, Seq<u8>>,
    prefix: Seq<u8>,
    index: u32,
) -> Option<Seq<u8>> {
    match slot_item::<T, Ser>(entries, prefix, index) {
        Some(item) => storable::<T, Ser>(item),
        None => None,
    }
}

/// How reading a slot ends: the item, `NotFound` for an absent slot, `Codec`
/// for bytes that stand for no item.
pub open spec fn read_outcome<T, Ser: Serde<T>>(
    entries: Map<Seq<u8>, Seq<u8>>,
    prefix: Seq<u8>,
    index: u32,
    r: Result<T, StoreError>,
) -> bool {
    if !entries.contains_key(slot_key(prefix, index)) {
        is_not_found(r, Ser::kind_name())
    } else {
        match Ser::decoding(entries[slot_key(prefix, index)]) {
            Some(item) => r == Ok::<T, StoreError>(item),
            None => is_codec_error(r, Ser::kind_name()),
        }
    }
}

/// Appending to a common prefix keeps different suffixes apart.
pub proof fn lemma_suffix_cancel(prefix: Seq<u8>, a: Seq<u8>, b: Seq<u8>)
    ensures
        prefix + a == prefix + b ==> a == b,
{
    if prefix + a == prefix + b {
        assert((prefix + a).len() == prefix.len() + a.len());
        assert((prefix + b).len() == prefix.len() + b.len());
        assert forall|i: int| 0 <= i < a.len() implies a[i] == b[i] by {
            assert((prefix + a)[prefix.len() + i] == a[i]);
            assert((prefix + b)[prefix.len() + i] == b[i]);
        }
        assert(a =~= b);
    }
}

/// Different slots have different keys, and no slot shares its key with a
/// counter.
pub proof fn lemma_keys_distinct(prefix: Seq<u8>, a: u32, b: u32)
    ensures
        slot_key(prefix, a) == slot_key(prefix, b) ==> a == b,
        slot_key(prefix, a) != prefix + len_suffix(),
        slot_key(prefix, a) != prefix + off_suffix(),
        prefix + len_suffix() != prefix + off_suffix(),
{
    lemma_suffix_cancel(prefix, be_bytes(a), be_bytes(b));
    lemma_be_injective(a, b);
    lemma_suffix_cancel(prefix, be_bytes(a), len_suffix());
    lemma_suffix_cancel(prefix, be_bytes(a), off_suffix());
    lemma_suffix_cancel(prefix, len_suffix(), off_suffix());
    lemma_be_round_trip(a);
    assert(len_suffix().len() == 3);
    assert(off_suffix().len() == 3);
    assert(len_suffix()[0] != off_suffix()[0]);
}

/// Different positions of one collection live in different slots.
pub proof fn lemma_physical_injective(off: u32, a: u32, b: u32)
    ensures
        physical(off, a) == physical(off, b) ==> a == b,
{
}

/// The key of the length counter of a namespace.
pub fn len_key(prefix: &[u8]) -> (key: Vec<u8>)
    ensures
        key@ == prefix@ + len_suffix(),
{
    let suffix: [u8; 3] = [0x6cu8, 0x65u8, 0x6eu8];
    assert(suffix@ =~= len_suffix());
    concat(prefix, suffix.as_slice())
}

/// The key of the offset counter of a namespace.
pub fn off_key(prefix: &[u8]) -> (key: Vec<u8>)
    ensures
        key@ == prefix@ + off_suffix(),
{
    let suffix: [u8; 3] = [0x6fu8, 0x66u8, 0x66u8];
    assert(suffix@ =~= off_suffix());
    concat(prefix, suffix.as_slice())
}

/// The physical index of `pos` under `off`: their sum modulo 2^32.
pub fn slot_index(off: u32, pos: u32) -> (index: u32)
    ensures
        index == physical(off, pos),
{
    if pos <= u32::MAX - off {
        off + pos
    } else {
        pos - (u32::MAX - off) - 1
    }
}

/// Reads a counter: zero when nothing is kept under `key`.
pub fn read_counter<S: Storage>(storage: &S, key: &[u8]) -> (r: Result<u32, StoreError>)
    ensures
        match counter_value(storage.entries(), key@) {
            Some(n) => r == Ok::<u32, StoreError>(n),
            None => is_counter_error(r),
        },
{
    match storage.get(key) {
        Some(bytes) => {
            if bytes.len() == 4 {
                Ok(u32_from_be(bytes.as_slice()))
            } else {
                Err(
                    StoreError::Codec {
                        target: "u32".to_owned(),
                        cause: "could not convert slice to array".to_owned(),
                    },
                )
            }
        },
        None => Ok(0),
    }
}

/// Writes a counter as four bytes, most significant first.
pub fn write_counter<S: Storage>(storage: &mut S, key: &[u8], n: u32)
    ensures
        final(storage).entries() == old(storage).entries().insert(key@, be_bytes(n)),
        counter_value(final(storage).entries(), key@) == Some(n),
{
    let bytes = u32_to_be(n);
    proof {
        lemma_be_round_trip(n);
    }
    storage.set(key, bytes.as_slice());
}

/// Reads the item of the slot with physical index `index`.
pub fn load_slot<T, Ser: Serde<T>, S: Storage>(storage: &S, prefix: &[u8], index: u32) -> (r:
    Result<T, StoreError>)
    ensures
        read_outcome::<T, Ser>(storage.entries(), prefix@, index, r),
{
    let tail = u32_to_be(index);
    let key = concat(prefix, tail.as_slice());
    match storage.get(key.as_slice()) {
        Some(data) => Ser::deserialize(data.as_slice()),
        None => Err(StoreError::NotFound { kind: Ser::kind() }),
    }
}

/// Encodes `item` for a slot. The bytes are not empty.
pub fn encode_item<T, Ser: Serde<T>>(item: &T) -> (r: Result<Vec<u8>, StoreError>)
    ensures
        match storable::<T, Ser>(*item) {
            Some(bytes) => r matches Ok(v) && v@ == bytes && v@.len() > 0,
            None => is_codec_error(r, Ser::kind_name()),
        },
{
    proof {
        Ser::lemma_encoding_not_empty(*item);
    }
    Ser::serialize(item)
}

/// Writes `bytes` into the slot with physical index `index`.
pub fn write_slot<S: Storage>(storage: &mut S, prefix: &[u8], index: u32, bytes: &[u8])
    requires
        bytes@.len() > 0,
    ensures
        final(storage).entries() == old(storage).entries().insert(
            slot_key(prefix@, index),
            bytes@,
        ),
{
    let tail = u32_to_be(index);
    let key = concat(prefix, tail.as_slice());
    storage.set(key.as_slice(), bytes);
}

/// Writes `item` into the slot with physical index `index`. Nothing is
/// written for an item without an encoding.
pub fn save_slot<T, Ser: Serde<T>, S: Storage>(
    storage: &mut S,
    prefix: &[u8],
    index: u32,
    item: &T,
) -> (r: Result<(), StoreError>)
    ensures
        match storable::<T, Ser>(*item) {
            Some(bytes) => {
                &&& r is Ok
                &&& final(storage).entries() == old(storage).entries().insert(
                    slot_key(prefix@, index),
                    bytes,
                )
            },
            None => {
                &&& is_codec_error(r, Ser::kind_name())
                &&& final(storage).entries() == old(storage).entries()
            },
        },
{
    match encode_item::<T, Ser>(item) {
        Ok(bytes) => {
            write_slot(storage, prefix, index, bytes.as_slice());
            Ok(())
        },
        Err(e) => Err(e),
    }
}

/// True when `key` is the key of a slot of one of the positions from `from`
/// up to, but not including, `to`.
pub open spec fn in_slots(key: Seq<u8>, prefix: Seq<u8>, off: u32, from: u32, to: u32) -> bool {
    exists|p: u32| from <= p < to && key == #[trigger] slot_key(prefix, physical(off, p))
}

/// True when the two maps agree on every key but those of the slots of the
/// positions from `from` up to, but not including, `to`.
pub open spec fn same_outside(
    before: Map<Seq<u8>, Seq<u8>>,
    after: Map<Seq<u8>, Seq<u8>>,
    prefix: Seq<u8>,
    off: u32,
    from: u32,
    to: u32,
) -> bool {
    forall|key: Seq<u8>|
        #![trigger after.contains_key(key)]
        #![trigger after[key]]
        !in_slots(key, prefix, off, from, to) ==> (after.contains_key(key)
            <==> before.contains_key(key)) && after[key] == before[key]
}

/// True when every position from `from` up to, but not including, `to` holds
/// an item that can be read and written anew.
pub open spec fn movable<T, Ser: Serde<T>>(
    entries: Map<Seq<u8>, Seq<u8>>,
    prefix: Seq<u8>,
    off: u32,
    from: u32,
    to: u32,
) -> bool {
    forall|p: u32|
        from <= p < to ==> moved::<T, Ser>(entries, prefix, #[trigger] physical(off, p)) is Some
}

/// True when position `p` holds in `after` the item that the position
/// behind it held in `before`, written anew.
pub open spec fn pulled_down<T, Ser: Serde<T>>(
    before: Map<Seq<u8>, Seq<u8>>,
    after: Map<Seq<u8>, Seq<u8>>,
    prefix: Seq<u8>,
    off: u32,
    p: u32,
) -> bool {
    after.contains_key(slot_key(prefix, physical(off, p))) && moved::<T, Ser>(
        before,
        prefix,
        physical(off, (p + 1) as u32),
    ) == Some(after[slot_key(prefix, physical(off, p))])
}

/// True when the position behind `p` holds in `after` the item that
/// position `p` held in `before`, written anew.
pub open spec fn pulled_up<T, Ser: Serde<T>>(
    before: Map<Seq<u8>, Seq<u8>>,
    after: Map<Seq<u8>, Seq<u8>>,
    prefix: Seq<u8>,
    off: u32,
    p: u32,
) -> bool {
    after.contains_key(slot_key(prefix, physical(off, (p + 1) as u32))) && moved::<T, Ser>(
        before,
        prefix,
        physical(off, p),
    ) == Some(after[slot_key(prefix, physical(off, (p + 1) as u32))])
}

/// The error that an item which cannot be moved gives: `NotFound` where its
/// slot is absent, `Codec` where its bytes stand for no item or the item
/// cannot be written anew.
pub open spec fn move_error<T, Ser: Serde<T>, R>(
    entries: Map<Seq<u8>, Seq<u8>>,
    prefix: Seq<u8>,
    index: u32,
    r: Result<R, StoreError>,
) -> bool {
    if entries.contains_key(slot_key(prefix, index)) {
        is_codec_error(r, Ser::kind_name())
    } else {
        is_not_found(r, Ser::kind_name())
    }
}

/// True when closing the gap at `pos` from the tail has stopped at position
/// `k`: the positions before `k` have moved, the item at `k` is the first
/// that cannot, and `r` is its error.
pub open spec fn stuck_from_tail<T, Ser: Serde<T>, R>(
    before: Map<Seq<u8>, Seq<u8>>,
    after: Map<Seq<u8>, Seq<u8>>,
    prefix: Seq<u8>,
    off: u32,
    pos: u32,
    k: u32,
    r: Result<R, StoreError>,
) -> bool {
    &&& movable::<T, Ser>(before, prefix, off, (pos + 1) as u32, k)
    &&& moved::<T, Ser>(before, prefix, physical(off, k)) is None
    &&& forall|p: u32|
        pos <= p < k - 1 ==> #[trigger] pulled_down::<T, Ser>(before, after, prefix, off, p)
    &&& same_outside(before, after, prefix, off, pos, (k - 1) as u32)
    &&& move_error::<T, Ser, R>(before, prefix, physical(off, k), r)
}

/// True when closing the gap at `pos` from the head has stopped at position
/// `k`: the positions behind `k` have moved, the item at `k` is the first
/// that cannot, and `r` is its error.
pub open spec fn stuck_from_head<T, Ser: Serde<T>, R>(
    before: Map<Seq<u8>, Seq<u8>>,
    after: Map<Seq<u8>, Seq<u8>>,
    prefix: Seq<u8>,
    off: u32,
    pos: u32,
    k: u32,
    r: Result<R, StoreError>,
) -> bool {
    &&& movable::<T, Ser>(before, prefix, off, (k + 1) as u32, pos)
    &&& moved::<T, Ser>(before, prefix, physical(off, k)) is None
    &&& forall|p: u32| k < p < pos ==> #[trigger] pulled_up::<T, Ser>(before, after, prefix, off, p)
    &&& same_outside(before, after, prefix, off, (k + 2) as u32, (pos + 1) as u32)
    &&& move_error::<T, Ser, R>(before, prefix, physical(off, k), r)
}

/// How closing the gap at `pos` from the tail ends. Where every item behind
/// `pos` can move, every position from `pos` up to the last but one holds
/// the item of the position behind it, and nothing else has changed. Else
/// it has stopped at the first item that cannot move.
pub open spec fn pulls_from_tail<T, Ser: Serde<T>>(
    before: Map<Seq<u8>, Seq<u8>>,
    after: Map<Seq<u8>, Seq<u8>>,
    prefix: Seq<u8>,
    off: u32,
    pos: u32,
    len: u32,
    r: Result<(), StoreError>,
) -> bool {
    if movable::<T, Ser>(before, prefix, off, (pos + 1) as u32, len) {
        &&& r is Ok
        &&& same_outside(before, after, prefix, off, pos, (len - 1) as u32)
        &&& forall|p: u32|
            pos <= p < len - 1 ==> #[trigger] pulled_down::<T, Ser>(before, after, prefix, off, p)
    } else {
        exists|k: u32|
            pos < k < len && #[trigger] stuck_from_tail::<T, Ser, ()>(
                before,
                after,
                prefix,
                off,
                pos,
                k,
                r,
            )
    }
}

/// How closing the gap at `pos` from the head ends. Where every item before
/// `pos` can move, every position up to `pos` but the first holds the item
/// of the position before it, and nothing else has changed. Else it has
/// stopped at the first item that cannot move.
pub open spec fn pulls_from_head<T, Ser: Serde<T>>(
    before: Map<Seq<u8>, Seq<u8>>,
    after: Map<Seq<u8>, Seq<u8>>,
    prefix: Seq<u8>,
    off: u32,
    pos: u32,
    r: Result<(), StoreError>,
) -> bool {
    if movable::<T, Ser>(before, prefix, off, 0, pos) {
        &&& r is Ok
        &&& same_outside(before, after, prefix, off, 1, (pos + 1) as u32)
        &&& forall|p: u32| p < pos ==> #[trigger] pulled_up::<T, Ser>(before, after, prefix, off, p)
    } else {
        exists|k: u32|
            k < pos && #[trigger] stuck_from_head::<T, Ser, ()>(
                before,
                after,
                prefix,
                off,
                pos,
                k,
                r,
            )
    }
}

/// The slot of a position outside a range is none of the range's slots.
pub proof fn lemma_not_in_slots(prefix: Seq<u8>, off: u32, from: u32, to: u32, q: u32)
    requires
        q < from || q >= to,
    ensures
        !in_slots(slot_key(prefix, physical(off, q)), prefix, off, from, to),
        !in_slots(prefix + len_suffix(), prefix, off, from, to),
        !in_slots(prefix + off_suffix(), prefix, off, from, to),
{
    assert forall|p: u32| from <= p < to implies slot_key(prefix, physical(off, q)) != slot_key(
        prefix,
        physical(off, p),
    ) && prefix + len_suffix() != slot_key(prefix, physical(off, p)) && prefix + off_suffix()
        != slot_key(prefix, physical(off, p)) by {
        lemma_keys_distinct(prefix, physical(off, q), physical(off, p));
        lemma_keys_distinct(prefix, physical(off, p), physical(off, q));
        lemma_physical_injective(off, q, p);
    }
}

/// One step of closing a gap from the tail: writing into position `i` what
/// position `i + 1` held extends what has been pulled down by one position.
pub proof fn lemma_pull_down_step<T, Ser: Serde<T>>(
    before: Map<Seq<u8>, Seq<u8>>,
    current: Map<Seq<u8>, Seq<u8>>,
    after: Map<Seq<u8>, Seq<u8>>,
    prefix: Seq<u8>,
    off: u32,
    pos: u32,
    i: u32,
    bytes: Seq<u8>,
)
    requires
        pos <= i < u32::MAX,
        same_outside(before, current, prefix, off, pos, i),
        forall|p: u32|
            pos <= p < i ==> #[trigger] pulled_down::<T, Ser>(before, current, prefix, off, p),
        moved::<T, Ser>(before, prefix, physical(off, (i + 1) as u32)) == Some(bytes),
        after == current.insert(slot_key(prefix, physical(off, i)), bytes),
    ensures
        same_outside(before, after, prefix, off, pos, (i + 1) as u32),
        forall|p: u32|
            pos <= p < i + 1 ==> #[trigger] pulled_down::<T, Ser>(before, after, prefix, off, p),
{
    let target = slot_key(prefix, physical(off, i));
    assert forall|p: u32| pos <= p < i + 1 implies #[trigger] pulled_down::<T, Ser>(
        before,
        after,
        prefix,
        off,
        p,
    ) by {
        if p < i {
            assert(pulled_down::<T, Ser>(before, current, prefix, off, p));
            lemma_keys_distinct(prefix, physical(off, p), physical(off, i));
            lemma_physical_injective(off, p, i);
        }
    }
    assert forall|key: Seq<u8>|
        #![trigger after.contains_key(key)]
        #![trigger after[key]]
        !in_slots(key, prefix, off, pos, (i + 1) as u32) implies (after.contains_key(key)
        <==> before.contains_key(key)) && after[key] == before[key] by {
        assert(key != target);
        if in_slots(key, prefix, off, pos, i) {
            let w = choose|p: u32|
                pos <= p < i && key == #[trigger] slot_key(prefix, physical(off, p));
            assert(pos <= w < i + 1 && key == slot_key(prefix, physical(off, w)));
        }
        assert(current.contains_key(key) <==> before.contains_key(key));
        assert(current[key] == before[key]);
    }
}

/// A position outside the range that two maps may differ on holds the same
/// in both.
pub proof fn lemma_untouched<T, Ser: Serde<T>>(
    before: Map<Seq<u8>, Seq<u8>>,
    after: Map<Seq<u8>, Seq<u8>>,
    prefix: Seq<u8>,
    off: u32,
    from: u32,
    to: u32,
    q: u32,
)
    requires
        same_outside(before, after, prefix, off, from, to),
        q < from || q >= to,
    ensures
        after.contains_key(slot_key(prefix, physical(off, q))) <==> before.contains_key(
            slot_key(prefix, physical(off, q)),
        ),
        after[slot_key(prefix, physical(off, q))] == before[slot_key(prefix, physical(off, q))],
        slot_item::<T, Ser>(after, prefix, physical(off, q)) == slot_item::<T, Ser>(
            before,
            prefix,
            physical(off, q),
        ),
        moved::<T, Ser>(after, prefix, physical(off, q)) == moved::<T, Ser>(
            before,
            prefix,
            physical(off, q),
        ),
{
    lemma_not_in_slots(prefix, off, from, to, q);
    let key = slot_key(prefix, physical(off, q));
    assert(after.contains_key(key) <==> before.contains_key(key));
    assert(after[key] == before[key]);
}

/// Closes the gap at position `pos` from the tail: every position from
/// `pos` up to the last but one receives the item of the position behind
/// it, in ascending order. It stops at the first item that cannot be read or
/// written anew.
pub fn pull_from_tail<T, Ser: Serde<T>, S: Storage>(
    storage: &mut S,
    prefix: &[u8],
    off: u32,
    pos: u32,
    len: u32,
) -> (r: Result<(), StoreError>)
    requires
        pos < len,
    ensures
        pulls_from_tail::<T, Ser>(
            old(storage).entries(),
            final(storage).entries(),
            prefix@,
            off,
            pos,
            len,
            r,
        ),
{
    let ghost before = storage.entries();
    let mut i: u32 = pos;
    while i < len - 1
        invariant
            pos <= i <= len - 1,
            before == old(storage).entries(),
            same_outside(before, storage.entries(), prefix@, off, pos, i),
            forall|p: u32|
                pos <= p < i ==> #[trigger] pulled_down::<T, Ser>(
                    before,
                    storage.entries(),
                    prefix@,
                    off,
                    p,
                ),
            movable::<T, Ser>(before, prefix@, off, (pos + 1) as u32, (i + 1) as u32),
        decreases len - i,
    {
        let ghost current = storage.entries();
        let source: u32 = slot_index(off, i + 1);
        let target: u32 = slot_index(off, i);
        proof {
            lemma_untouched::<T, Ser>(before, current, prefix@, off, pos, i, (i + 1) as u32);
        }
        let element = load_slot::<T, Ser, S>(storage, prefix, source);
        match element {
            Err(e) => {
                let r = Err(e);
                assert(stuck_from_tail::<T, Ser, ()>(
                    before,
                    storage.entries(),
                    prefix@,
                    off,
                    pos,
                    (i + 1) as u32,
                    r,
                ));
                return r;
            },
            Ok(item) => {
                match save_slot::<T, Ser, S>(storage, prefix, target, &item) {
                    Err(e) => {
                        let r = Err(e);
                        assert(stuck_from_tail::<T, Ser, ()>(
                            before,
                            storage.entries(),
                            prefix@,
                            off,
                            pos,
                            (i + 1) as u32,
                            r,
                        ));
                        return r;
                    },
                    Ok(()) => {
                        proof {
                            lemma_pull_down_step::<T, Ser>(
                                before,
                                current,
                                storage.entries(),
                                prefix@,
                                off,
                                pos,
                                i,
                                storable::<T, Ser>(item).unwrap(),
                            );
                        }
                    },
                }
            },
        }
        assert forall|p: u32| pos + 1 <= p < i + 2 implies moved::<T, Ser>(
            before,
            prefix@,
            #[trigger] physical(off, p),
        ) is Some by {
            if p != i + 1 {
                assert(pos + 1 <= p < i + 1);
            }
        }
        i += 1;
    }
    Ok(())
}

/// One step of closing a gap from the head: writing into position `j + 1`
/// what position `j` held extends what has been pulled up by one position.
pub proof fn lemma_pull_up_step<T, Ser: Serde<T>>(
    before: Map<Seq<u8>, Seq<u8>>,
    current: Map<Seq<u8>, Seq<u8>>,
    after: Map<Seq<u8>, Seq<u8>>,
    prefix: Seq<u8>,
    off: u32,
    pos: u32,
    j: u32,
    bytes: Seq<u8>,
)
    requires
        j < pos < u32::MAX,
        same_outside(before, current, prefix, off, (j + 2) as u32, (pos + 1) as u32),
        forall|p: u32|
            j < p < pos ==> #[trigger] pulled_up::<T, Ser>(before, current, prefix, off, p),
        moved::<T, Ser>(before, prefix, physical(off, j)) == Some(bytes),
        after == current.insert(slot_key(prefix, physical(off, (j + 1) as u32)), bytes),
    ensures
        same_outside(before, after, prefix, off, (j + 1) as u32, (pos + 1) as u32),
        forall|p: u32|
            j <= p < pos ==> #[trigger] pulled_up::<T, Ser>(before, after, prefix, off, p),
{
    let target = slot_key(prefix, physical(off, (j + 1) as u32));
    assert forall|p: u32| j <= p < pos implies #[trigger] pulled_up::<T, Ser>(
        before,
        after,
        prefix,
        off,
        p,
    ) by {
        if p > j {
            assert(pulled_up::<T, Ser>(before, current, prefix, off, p));
            lemma_keys_distinct(
                prefix,
                physical(off, (p + 1) as u32),
                physical(off, (j + 1) as u32),
            );
            lemma_physical_injective(off, (p + 1) as u32, (j + 1) as u32);
        }
    }
    assert forall|key: Seq<u8>|
        #![trigger after.contains_key(key)]
        #![trigger after[key]]
        !in_slots(key, prefix, off, (j + 1) as u32, (pos + 1) as u32) implies (after.contains_key(
        key,
    ) <==> before.contains_key(key)) && after[key] == before[key] by {
        assert(key != target);
        if in_slots(key, prefix, off, (j + 2) as u32, (pos + 1) as u32) {
            let w = choose|p: u32|
                j + 2 <= p < pos + 1 && key == #[trigger] slot_key(prefix, physical(off, p));
            assert(j + 1 <= w < pos + 1 && key == slot_key(prefix, physical(off, w)));
        }
        assert(current.contains_key(key) <==> before.contains_key(key));
        assert(current[key] == before[key]);
    }
}

/// Closes the gap at position `pos` from the head: every position before
/// `pos` is written into the position behind it, in descending order. It
/// stops at the first item that cannot be read or written anew.
pub fn pull_from_head<T, Ser: Serde<T>, S: Storage>(
    storage: &mut S,
    prefix: &[u8],
    off: u32,
    pos: u32,
) -> (r: Result<(), StoreError>)
    requires
        pos < u32::MAX,
    ensures
        pulls_from_head::<T, Ser>(
            old(storage).entries(),
            final(storage).entries(),
            prefix@,
            off,
            pos,
            r,
        ),
{
    let ghost before = storage.entries();
    let mut i: u32 = pos;
    while i > 0
        invariant
            i <= pos < u32::MAX,
            before == old(storage).entries(),
            same_outside(
                before,
                storage.entries(),
                prefix@,
                off,
                (i + 1) as u32,
                (pos + 1) as u32,
            ),
            forall|p: u32|
                i <= p < pos ==> #[trigger] pulled_up::<T, Ser>(
                    before,
                    storage.entries(),
                    prefix@,
                    off,
                    p,
                ),
            movable::<T, Ser>(before, prefix@, off, i, pos),
        decreases i,
    {
        let ghost current = storage.entries();
        let j: u32 = i - 1;
        let source: u32 = slot_index(off, j);
        let target: u32 = slot_index(off, i);
        proof {
            lemma_untouched::<T, Ser>(
                before,
                current,
                prefix@,
                off,
                (i + 1) as u32,
                (pos + 1) as u32,
                j,
            );
        }
        let element = load_slot::<T, Ser, S>(storage, prefix, source);
        match element {
            Err(e) => {
                let r = Err(e);
                assert(stuck_from_head::<T, Ser, ()>(
                    before,
                    storage.entries(),
                    prefix@,
                    off,
                    pos,
                    j,
                    r,
                ));
                return r;
            },
            Ok(item) => {
                match save_slot::<T, Ser, S>(storage, prefix, target, &item) {
                    Err(e) => {
                        let r = Err(e);
                        assert(stuck_from_head::<T, Ser, ()>(
                            before,
                            storage.entries(),
                            prefix@,
                            off,
                            pos,
                            j,
                            r,
                        ));
                        return r;
                    },
                    Ok(()) => {
                        proof {
                            lemma_pull_up_step::<T, Ser>(
                                before,
                                current,
                                storage.entries(),
                                prefix@,
                                off,
                                pos,
                                j,
                                storable::<T, Ser>(item).unwrap(),
                            );
                        }
                    },
                }
            },
        }
        assert forall|p: u32| j <= p < pos implies moved::<T, Ser>(
            before,
            prefix@,
            #[trigger] physical(off, p),
        ) is Some by {
            if p != j {
                assert(i <= p < pos);
            }
        }
        i = j;
    }
    Ok(())
}

} // verus!
