//! How writes to the substrate change the logical content of a collection.
//!
//! Each lemma takes the entries before a write, describes the entries after
//! it, and states what the sequence of items has become.

use crate::keys::be_bytes;
use crate::slots::{
    items, lemma_keys_distinct, lemma_physical_injective, lemma_untouched, len_suffix, moved,
    off_suffix, physical, pulled_down, pulled_up, same_outside, slot_item, slot_key, storable,
};
use crate::traits::Serde;
use vstd::prelude::*;

verus! {

/// The offset one step before `off`, modulo 2^32.
pub open spec fn offset_before(off: u32) -> u32 {
    if off == 0 {
        u32::MAX
    } else {
        (off - 1) as u32
    }
}

/// The offset one step behind `off`, modulo 2^32.
pub open spec fn offset_behind(off: u32) -> u32 {
    physical(off, 1)
}

/// The entries after `bytes` have been appended to a queue with the
/// counters `off` and `len`: the slot behind the last holds them, and the
/// length is one more.
pub open spec fn with_back(
    entries: Map<Seq<u8>, Seq<u8>>,
    prefix: Seq<u8>,
    off: u32,
    len: u32,
    bytes: Seq<u8>,
) -> Map<Seq<u8>, Seq<u8>> {
    entries.insert(slot_key(prefix, physical(off, len)), bytes).insert(
        prefix + len_suffix(),
        be_bytes((len + 1) as u32),
    )
}

/// The entries after `bytes` have been put in front of a queue with the
/// counters `off` and `len`: the offset has stepped back, the slot it names
/// holds them, and the length is one more.
pub open spec fn with_front(
    entries: Map<Seq<u8>, Seq<u8>>,
    prefix: Seq<u8>,
    off: u32,
    len: u32,
    bytes: Seq<u8>,
) -> Map<Seq<u8>, Seq<u8>> {
    entries.insert(prefix + off_suffix(), be_bytes(offset_before(off))).insert(
        slot_key(prefix, offset_before(off)),
        bytes,
    ).insert(prefix + len_suffix(), be_bytes((len + 1) as u32))
}

/// Bytes that were written for an item read back as that item.
pub proof fn lemma_stored_reads_back<T, Ser: Serde<T>>(item: T, bytes: Seq<u8>)
    requires
        storable::<T, Ser>(item) == Some(bytes),
    ensures
        Ser::decoding(bytes) == Some(item),
{
    Ser::lemma_round_trip(item);
}

/// A slot that was written anew holds the item it held before.
pub proof fn lemma_moved_reads_back<T, Ser: Serde<T>>(
    entries: Map<Seq<u8>, Seq<u8>>,
    prefix: Seq<u8>,
    index: u32,
    bytes: Seq<u8>,
)
    requires
        moved::<T, Ser>(entries, prefix, index) == Some(bytes),
    ensures
        Ser::decoding(bytes) == slot_item::<T, Ser>(entries, prefix, index),
        slot_item::<T, Ser>(entries, prefix, index) is Some,
{
    let item = slot_item::<T, Ser>(entries, prefix, index).unwrap();
    lemma_stored_reads_back::<T, Ser>(item, bytes);
}

/// Writing a counter changes no item.
pub proof fn lemma_items_after_counter<T, Ser: Serde<T>>(
    entries: Map<Seq<u8>, Seq<u8>>,
    prefix: Seq<u8>,
    off: u32,
    len: u32,
    value: Seq<u8>,
)
    ensures
        items::<T, Ser>(entries.insert(prefix + len_suffix(), value), prefix, off, len)
            == items::<T, Ser>(entries, prefix, off, len),
        items::<T, Ser>(entries.insert(prefix + off_suffix(), value), prefix, off, len)
            == items::<T, Ser>(entries, prefix, off, len),
{
    let with_len = entries.insert(prefix + len_suffix(), value);
    let with_off = entries.insert(prefix + off_suffix(), value);
    assert forall|pos: int| 0 <= pos < len implies items::<T, Ser>(with_len, prefix, off, len)[pos]
        == items::<T, Ser>(entries, prefix, off, len)[pos] && items::<T, Ser>(
        with_off,
        prefix,
        off,
        len,
    )[pos] == items::<T, Ser>(entries, prefix, off, len)[pos] by {
        lemma_keys_distinct(prefix, physical(off, pos as u32), 0);
    }
    assert(items::<T, Ser>(with_len, prefix, off, len) =~= items::<T, Ser>(
        entries,
        prefix,
        off,
        len,
    ));
    assert(items::<T, Ser>(with_off, prefix, off, len) =~= items::<T, Ser>(
        entries,
        prefix,
        off,
        len,
    ));
}

/// Writing an item into the slot of a position replaces the item there and
/// no other.
pub proof fn lemma_items_after_write<T, Ser: Serde<T>>(
    entries: Map<Seq<u8>, Seq<u8>>,
    prefix: Seq<u8>,
    off: u32,
    len: u32,
    pos: u32,
    item: T,
    bytes: Seq<u8>,
)
    requires
        pos < len,
        storable::<T, Ser>(item) == Some(bytes),
    ensures
        items::<T, Ser>(
            entries.insert(slot_key(prefix, physical(off, pos)), bytes),
            prefix,
            off,
            len,
        ) == items::<T, Ser>(entries, prefix, off, len).update(pos as int, Some(item)),
{
    let after = entries.insert(slot_key(prefix, physical(off, pos)), bytes);
    lemma_stored_reads_back::<T, Ser>(item, bytes);
    assert forall|q: int| 0 <= q < len implies items::<T, Ser>(after, prefix, off, len)[q]
        == items::<T, Ser>(entries, prefix, off, len).update(pos as int, Some(item))[q] by {
        if q != pos {
            lemma_keys_distinct(prefix, physical(off, q as u32), physical(off, pos));
            lemma_physical_injective(off, q as u32, pos);
        }
    }
    assert(items::<T, Ser>(after, prefix, off, len) =~= items::<T, Ser>(
        entries,
        prefix,
        off,
        len,
    ).update(pos as int, Some(item)));
}

/// Writing an item into the slot behind the last one appends it.
pub proof fn lemma_items_after_push_back<T, Ser: Serde<T>>(
    entries: Map<Seq<u8>, Seq<u8>>,
    prefix: Seq<u8>,
    off: u32,
    len: u32,
    item: T,
    bytes: Seq<u8>,
)
    requires
        len < u32::MAX,
        storable::<T, Ser>(item) == Some(bytes),
    ensures
        items::<T, Ser>(
            entries.insert(slot_key(prefix, physical(off, len)), bytes),
            prefix,
            off,
            (len + 1) as u32,
        ) == items::<T, Ser>(entries, prefix, off, len).push(Some(item)),
{
    let after = entries.insert(slot_key(prefix, physical(off, len)), bytes);
    lemma_stored_reads_back::<T, Ser>(item, bytes);
    assert forall|q: int| 0 <= q < len + 1 implies items::<T, Ser>(
        after,
        prefix,
        off,
        (len + 1) as u32,
    )[q] == items::<T, Ser>(entries, prefix, off, len).push(Some(item))[q] by {
        if q != len {
            lemma_keys_distinct(prefix, physical(off, q as u32), physical(off, len));
            lemma_physical_injective(off, q as u32, len);
        }
    }
    assert(items::<T, Ser>(after, prefix, off, (len + 1) as u32) =~= items::<T, Ser>(
        entries,
        prefix,
        off,
        len,
    ).push(Some(item)));
}

/// Writing an item into the slot before the first one, and taking that slot
/// as the new first, puts the item in front.
pub proof fn lemma_items_after_push_front<T, Ser: Serde<T>>(
    entries: Map<Seq<u8>, Seq<u8>>,
    prefix: Seq<u8>,
    off: u32,
    len: u32,
    item: T,
    bytes: Seq<u8>,
)
    requires
        len < u32::MAX,
        storable::<T, Ser>(item) == Some(bytes),
    ensures
        items::<T, Ser>(
            entries.insert(slot_key(prefix, offset_before(off)), bytes),
            prefix,
            offset_before(off),
            (len + 1) as u32,
        ) == seq![Some(item)] + items::<T, Ser>(entries, prefix, off, len),
{
    let front = offset_before(off);
    let after = entries.insert(slot_key(prefix, front), bytes);
    lemma_stored_reads_back::<T, Ser>(item, bytes);
    assert(physical(front, 0) == front);
    assert forall|q: int| 0 <= q < len + 1 implies items::<T, Ser>(
        after,
        prefix,
        front,
        (len + 1) as u32,
    )[q] == (seq![Some(item)] + items::<T, Ser>(entries, prefix, off, len))[q] by {
        if q != 0 {
            assert(physical(front, q as u32) == physical(off, (q - 1) as u32));
            lemma_keys_distinct(prefix, physical(front, q as u32), front);
            lemma_physical_injective(front, q as u32, 0);
        }
    }
    assert(items::<T, Ser>(after, prefix, front, (len + 1) as u32) =~= seq![Some(item)]
        + items::<T, Ser>(entries, prefix, off, len));
}

/// Counting one element less leaves all but the last.
pub proof fn lemma_items_drop_last<T, Ser: Serde<T>>(
    entries: Map<Seq<u8>, Seq<u8>>,
    prefix: Seq<u8>,
    off: u32,
    len: u32,
)
    requires
        len > 0,
    ensures
        items::<T, Ser>(entries, prefix, off, (len - 1) as u32) == items::<T, Ser>(
            entries,
            prefix,
            off,
            len,
        ).drop_last(),
{
    assert(items::<T, Ser>(entries, prefix, off, (len - 1) as u32) =~= items::<T, Ser>(
        entries,
        prefix,
        off,
        len,
    ).drop_last());
}

/// Counting one element less from the slot behind the first leaves all but
/// the first.
pub proof fn lemma_items_drop_first<T, Ser: Serde<T>>(
    entries: Map<Seq<u8>, Seq<u8>>,
    prefix: Seq<u8>,
    off: u32,
    len: u32,
)
    requires
        len > 0,
    ensures
        items::<T, Ser>(entries, prefix, offset_behind(off), (len - 1) as u32) == items::<T, Ser>(
            entries,
            prefix,
            off,
            len,
        ).drop_first(),
{
    let behind = offset_behind(off);
    assert forall|q: int| 0 <= q < len - 1 implies items::<T, Ser>(
        entries,
        prefix,
        behind,
        (len - 1) as u32,
    )[q] == items::<T, Ser>(entries, prefix, off, len).drop_first()[q] by {
        assert(physical(behind, q as u32) == physical(off, (q + 1) as u32));
    }
    assert(items::<T, Ser>(entries, prefix, behind, (len - 1) as u32) =~= items::<T, Ser>(
        entries,
        prefix,
        off,
        len,
    ).drop_first());
}

/// Closing the gap at `pos` from the tail removes the item at `pos` and
/// keeps the others in their order.
pub proof fn lemma_items_after_pull_down<T, Ser: Serde<T>>(
    before: Map<Seq<u8>, Seq<u8>>,
    after: Map<Seq<u8>, Seq<u8>>,
    prefix: Seq<u8>,
    off: u32,
    pos: u32,
    len: u32,
)
    requires
        pos < len,
        same_outside(before, after, prefix, off, pos, (len - 1) as u32),
        forall|p: u32|
            pos <= p < len - 1 ==> #[trigger] pulled_down::<T, Ser>(before, after, prefix, off, p),
    ensures
        items::<T, Ser>(after, prefix, off, (len - 1) as u32) == items::<T, Ser>(
            before,
            prefix,
            off,
            len,
        ).remove(pos as int),
{
    let old_items = items::<T, Ser>(before, prefix, off, len);
    let new_items = items::<T, Ser>(after, prefix, off, (len - 1) as u32);
    assert forall|q: int| 0 <= q < len - 1 implies new_items[q] == old_items.remove(
        pos as int,
    )[q] by {
        if q < pos {
            lemma_untouched::<T, Ser>(
                before,
                after,
                prefix,
                off,
                pos,
                (len - 1) as u32,
                q as u32,
            );
        } else {
            assert(pulled_down::<T, Ser>(before, after, prefix, off, q as u32));
            lemma_moved_reads_back::<T, Ser>(
                before,
                prefix,
                physical(off, (q + 1) as u32),
                after[slot_key(prefix, physical(off, q as u32))],
            );
        }
    }
    assert(new_items =~= old_items.remove(pos as int));
}

/// Closing the gap at `pos` from the head, and taking the slot behind the
/// first as the new first, removes the item at `pos` and keeps the others
/// in their order.
pub proof fn lemma_items_after_pull_up<T, Ser: Serde<T>>(
    before: Map<Seq<u8>, Seq<u8>>,
    after: Map<Seq<u8>, Seq<u8>>,
    prefix: Seq<u8>,
    off: u32,
    pos: u32,
    len: u32,
)
    requires
        pos < len,
        same_outside(before, after, prefix, off, 1, (pos + 1) as u32),
        forall|p: u32| p < pos ==> #[trigger] pulled_up::<T, Ser>(before, after, prefix, off, p),
    ensures
        items::<T, Ser>(after, prefix, offset_behind(off), (len - 1) as u32) == items::<T, Ser>(
            before,
            prefix,
            off,
            len,
        ).remove(pos as int),
{
    let behind = offset_behind(off);
    let old_items = items::<T, Ser>(before, prefix, off, len);
    let new_items = items::<T, Ser>(after, prefix, behind, (len - 1) as u32);
    assert forall|q: int| 0 <= q < len - 1 implies new_items[q] == old_items.remove(
        pos as int,
    )[q] by {
        assert(physical(behind, q as u32) == physical(off, (q + 1) as u32));
        if q < pos {
            assert(pulled_up::<T, Ser>(before, after, prefix, off, q as u32));
            lemma_moved_reads_back::<T, Ser>(
                before,
                prefix,
                physical(off, q as u32),
                after[slot_key(prefix, physical(off, (q + 1) as u32))],
            );
        } else {
            lemma_untouched::<T, Ser>(
                before,
                after,
                prefix,
                off,
                1,
                (pos + 1) as u32,
                (q + 1) as u32,
            );
        }
    }
    assert(new_items =~= old_items.remove(pos as int));
}

/// Appending an item to a queue appends it to the queue's items.
pub proof fn lemma_items_with_back<T, Ser: Serde<T>>(
    entries: Map<Seq<u8>, Seq<u8>>,
    prefix: Seq<u8>,
    off: u32,
    len: u32,
    item: T,
    bytes: Seq<u8>,
)
    requires
        len < u32::MAX,
        storable::<T, Ser>(item) == Some(bytes),
    ensures
        items::<T, Ser>(with_back(entries, prefix, off, len, bytes), prefix, off, (len + 1) as u32)
            == items::<T, Ser>(entries, prefix, off, len).push(Some(item)),
{
    lemma_items_after_push_back::<T, Ser>(entries, prefix, off, len, item, bytes);
    lemma_items_after_counter::<T, Ser>(
        entries.insert(slot_key(prefix, physical(off, len)), bytes),
        prefix,
        off,
        (len + 1) as u32,
        be_bytes((len + 1) as u32),
    );
}

/// Putting an item in front of a queue puts it in front of the queue's
/// items.
pub proof fn lemma_items_with_front<T, Ser: Serde<T>>(
    entries: Map<Seq<u8>, Seq<u8>>,
    prefix: Seq<u8>,
    off: u32,
    len: u32,
    item: T,
    bytes: Seq<u8>,
)
    requires
        len < u32::MAX,
        storable::<T, Ser>(item) == Some(bytes),
    ensures
        items::<T, Ser>(
            with_front(entries, prefix, off, len, bytes),
            prefix,
            offset_before(off),
            (len + 1) as u32,
        ) == seq![Some(item)] + items::<T, Ser>(entries, prefix, off, len),
{
    let front = offset_before(off);
    let stepped = entries.insert(prefix + off_suffix(), be_bytes(front));
    let written = stepped.insert(slot_key(prefix, front), bytes);
    lemma_items_after_counter::<T, Ser>(entries, prefix, off, len, be_bytes(front));
    lemma_items_after_push_front::<T, Ser>(stepped, prefix, off, len, item, bytes);
    lemma_items_after_counter::<T, Ser>(
        written,
        prefix,
        front,
        (len + 1) as u32,
        be_bytes((len + 1) as u32),
    );
}

} // verus!
