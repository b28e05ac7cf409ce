//! Laws of the stores, stated over their model: what each operation makes
//! of the handle and the entries is read as what it makes of the sequence
//! of items that they stand for.

use crate::contents::{
    lemma_items_after_counter, lemma_items_after_pull_down, lemma_items_after_pull_up,
    lemma_items_after_write, lemma_items_drop_first, lemma_items_drop_last,
    lemma_items_with_back, lemma_items_with_front, offset_behind,
};
use crate::cursor::{all_present, page_end, page_of, page_start};
use crate::error::StoreError;
use crate::handle::{closes_from_tail, yields, Handle};
use crate::keys::{be_bytes, lemma_be_round_trip};
use crate::slots::{
    counter_value, moved, physical, pulled_down, pulled_up, same_outside, slot_key, storable,
};
use crate::traits::Serde;
use vstd::prelude::*;

verus! {

/// A push at one end of a queue.
pub enum Push<T> {
    Back(T),
    Front(T),
}

impl<T> Push<T> {
    /// The item that is pushed.
    pub open spec fn item(self) -> T {
        match self {
            Push::Back(item) => item,
            Push::Front(item) => item,
        }
    }
}

/// The items of a queue that held `start` after the pushes `ops`, first to
/// last: the order that the pushes imply.
pub open spec fn pushed<T>(start: Seq<Option<T>>, ops: Seq<Push<T>>) -> Seq<Option<T>>
    decreases ops.len(),
{
    if ops.len() == 0 {
        start
    } else {
        match ops.last() {
            Push::Back(item) => pushed(start, ops.drop_last()).push(Some(item)),
            Push::Front(item) => seq![Some(item)] + pushed(start, ops.drop_last()),
        }
    }
}

/// True when the push `op` on a queue with the handle `handle` and the
/// entries `entries` succeeds and leaves the handle `after` and the entries
/// `written`.
pub open spec fn pushes_one<T, Ser: Serde<T>>(
    handle: Handle,
    entries: Map<Seq<u8>, Seq<u8>>,
    op: Push<T>,
    after: Handle,
    written: Map<Seq<u8>, Seq<u8>>,
) -> bool {
    match op {
        Push::Back(item) => handle.pushes_back::<T, Ser>(entries, item, after, written, Ok(())),
        Push::Front(item) => handle.pushes_front::<T, Ser>(entries, item, after, written, Ok(())),
    }
}

/// True when the pushes `ops`, made one after the other on a queue with the
/// handle `handle` and the entries `entries`, all succeed and leave the
/// handle `after` and the entries `written`.
pub open spec fn pushes_all<T, Ser: Serde<T>>(
    handle: Handle,
    entries: Map<Seq<u8>, Seq<u8>>,
    ops: Seq<Push<T>>,
    after: Handle,
    written: Map<Seq<u8>, Seq<u8>>,
) -> bool
    decreases ops.len(),
{
    if ops.len() == 0 {
        after == handle && written == entries
    } else {
        exists|earlier: Handle, kept: Map<Seq<u8>, Seq<u8>>|
            {
                &&& pushes_all::<T, Ser>(handle, entries, ops.drop_last(), earlier, kept)
                &&& #[trigger] pushes_one::<T, Ser>(earlier, kept, ops.last(), after, written)
            }
    }
}

/// After any sequence of pushes at either end, the queue holds the items in
/// the order that the pushes imply, wherever its offset began and however
/// often it has stepped back past zero.
pub proof fn lemma_pushes_keep_order<T, Ser: Serde<T>>(
    handle: Handle,
    entries: Map<Seq<u8>, Seq<u8>>,
    ops: Seq<Push<T>>,
    after: Handle,
    written: Map<Seq<u8>, Seq<u8>>,
)
    requires
        pushes_all::<T, Ser>(handle, entries, ops, after, written),
    ensures
        after.items::<T, Ser>(written) == pushed(handle.items::<T, Ser>(entries), ops),
    decreases ops.len(),
{
    if ops.len() > 0 {
        let (earlier, kept) = choose|earlier: Handle, kept: Map<Seq<u8>, Seq<u8>>|
            {
                &&& pushes_all::<T, Ser>(handle, entries, ops.drop_last(), earlier, kept)
                &&& #[trigger] pushes_one::<T, Ser>(earlier, kept, ops.last(), after, written)
            };
        lemma_pushes_keep_order::<T, Ser>(handle, entries, ops.drop_last(), earlier, kept);
        match ops.last() {
            Push::Back(item) => {
                lemma_pushes_back_the_item::<T, Ser>(earlier, kept, item, after, written, Ok(()));
            },
            Push::Front(item) => {
                lemma_pushes_front_the_item::<T, Ser>(
                    earlier,
                    kept,
                    item,
                    after,
                    written,
                    Ok(()),
                );
            },
        }
    }
}

/// Reading a position within bounds returns the item that the collection
/// holds there, or the error of its slot where the slot cannot be read; a
/// position at or beyond the length is out of bounds. The handle sees the
/// same items afterwards.
pub proof fn lemma_gets_the_item<T, Ser: Serde<T>>(
    handle: Handle,
    entries: Map<Seq<u8>, Seq<u8>>,
    pos: u32,
    after: Handle,
    r: Result<T, StoreError>,
)
    requires
        handle.gets::<T, Ser>(entries, pos, after, r),
    ensures
        after.prefix == handle.prefix,
        after.items::<T, Ser>(entries) == handle.items::<T, Ser>(entries),
        after.len_in(entries) == handle.len_in(entries),
        after.off_in(entries) == handle.off_in(entries),
        pos < handle.items::<T, Ser>(entries).len() ==> yields(
            handle.items::<T, Ser>(entries)[pos as int],
            r,
        ),
        handle.len_in(entries) matches Some(len) && pos >= len ==> r == Err::<T, StoreError>(
            StoreError::Bounds,
        ),
        handle.len_in(entries) matches Some(len) && pos < len ==> after.off == handle.off_in(
            entries,
        ),
{
}

/// Replacing the item at a position replaces it in the items and leaves
/// the others.
pub proof fn lemma_sets_the_item<T, Ser: Serde<T>>(
    handle: Handle,
    entries: Map<Seq<u8>, Seq<u8>>,
    pos: u32,
    item: T,
    after: Handle,
    written: Map<Seq<u8>, Seq<u8>>,
    r: Result<(), StoreError>,
)
    requires
        handle.sets::<T, Ser>(entries, pos, item, after, written, r),
        r is Ok,
    ensures
        pos < handle.items::<T, Ser>(entries).len(),
        after.items::<T, Ser>(written) == handle.items::<T, Ser>(entries).update(
            pos as int,
            Some(item),
        ),
{
    let off = handle.off_in(entries).unwrap();
    let len = handle.len_in(entries).unwrap();
    lemma_items_after_write::<T, Ser>(
        entries,
        handle.prefix,
        off,
        len,
        pos,
        item,
        storable::<T, Ser>(item).unwrap(),
    );
}

/// Appending an item appends it to the items.
pub proof fn lemma_pushes_back_the_item<T, Ser: Serde<T>>(
    handle: Handle,
    entries: Map<Seq<u8>, Seq<u8>>,
    item: T,
    after: Handle,
    written: Map<Seq<u8>, Seq<u8>>,
    r: Result<(), StoreError>,
)
    requires
        handle.pushes_back::<T, Ser>(entries, item, after, written, r),
        r is Ok,
    ensures
        after.items::<T, Ser>(written) == handle.items::<T, Ser>(entries).push(Some(item)),
{
    lemma_items_with_back::<T, Ser>(
        entries,
        handle.prefix,
        handle.off_in(entries).unwrap(),
        handle.len_in(entries).unwrap(),
        item,
        storable::<T, Ser>(item).unwrap(),
    );
}

/// Putting an item in front puts it in front of the items.
pub proof fn lemma_pushes_front_the_item<T, Ser: Serde<T>>(
    handle: Handle,
    entries: Map<Seq<u8>, Seq<u8>>,
    item: T,
    after: Handle,
    written: Map<Seq<u8>, Seq<u8>>,
    r: Result<(), StoreError>,
)
    requires
        handle.pushes_front::<T, Ser>(entries, item, after, written, r),
        r is Ok,
    ensures
        after.items::<T, Ser>(written) == seq![Some(item)] + handle.items::<T, Ser>(entries),
{
    lemma_items_with_front::<T, Ser>(
        entries,
        handle.prefix,
        handle.off_in(entries).unwrap(),
        handle.len_in(entries).unwrap(),
        item,
        storable::<T, Ser>(item).unwrap(),
    );
}

/// Taking the last item off a collection that has one leaves the items
/// before it, and returns it, or the error of its slot where the slot
/// cannot be read.
pub proof fn lemma_pops_back_the_item<T, Ser: Serde<T>>(
    handle: Handle,
    entries: Map<Seq<u8>, Seq<u8>>,
    after: Handle,
    written: Map<Seq<u8>, Seq<u8>>,
    r: Result<T, StoreError>,
)
    requires
        handle.pops_back::<T, Ser>(entries, after, written, r),
        handle.items::<T, Ser>(entries).len() > 0,
    ensures
        after.items::<T, Ser>(written) == handle.items::<T, Ser>(entries).drop_last(),
        yields(handle.items::<T, Ser>(entries).last(), r),
{
    let off = handle.off_in(entries).unwrap();
    let len = handle.len_in(entries).unwrap();
    lemma_items_drop_last::<T, Ser>(entries, handle.prefix, off, len);
    lemma_items_after_counter::<T, Ser>(
        entries,
        handle.prefix,
        off,
        (len - 1) as u32,
        be_bytes((len - 1) as u32),
    );
}

/// Taking the first item off a collection that has one leaves the items
/// behind it, and returns it, or the error of its slot where the slot
/// cannot be read.
pub proof fn lemma_pops_front_the_item<T, Ser: Serde<T>>(
    handle: Handle,
    entries: Map<Seq<u8>, Seq<u8>>,
    after: Handle,
    written: Map<Seq<u8>, Seq<u8>>,
    r: Result<T, StoreError>,
)
    requires
        handle.pops_front::<T, Ser>(entries, after, written, r),
        handle.items::<T, Ser>(entries).len() > 0,
    ensures
        after.items::<T, Ser>(written) == handle.items::<T, Ser>(entries).drop_first(),
        yields(handle.items::<T, Ser>(entries).first(), r),
{
    let off = handle.off_in(entries).unwrap();
    let len = handle.len_in(entries).unwrap();
    let behind = offset_behind(off);
    let counted = entries.insert(handle.len_key(), be_bytes((len - 1) as u32));
    assert(physical(off, 0) == off);
    lemma_items_drop_first::<T, Ser>(entries, handle.prefix, off, len);
    lemma_items_after_counter::<T, Ser>(
        entries,
        handle.prefix,
        behind,
        (len - 1) as u32,
        be_bytes((len - 1) as u32),
    );
    lemma_items_after_counter::<T, Ser>(
        counted,
        handle.prefix,
        behind,
        (len - 1) as u32,
        be_bytes(behind),
    );
    assert(handle.items::<T, Ser>(entries).first() == handle.items::<T, Ser>(entries)[0]);
}

/// A pop at the back right after a push at the back returns the pushed
/// item and leaves the collection with the length and the items it had.
pub proof fn lemma_push_back_then_pop_back<T, Ser: Serde<T>>(
    handle: Handle,
    entries: Map<Seq<u8>, Seq<u8>>,
    item: T,
    pushed: Handle,
    written: Map<Seq<u8>, Seq<u8>>,
    popped: Handle,
    left: Map<Seq<u8>, Seq<u8>>,
    r: Result<T, StoreError>,
)
    requires
        handle.pushes_back::<T, Ser>(entries, item, pushed, written, Ok(())),
        pushed.pops_back::<T, Ser>(written, popped, left, r),
    ensures
        r == Ok::<T, StoreError>(item),
        popped.len_in(left) == handle.len_in(entries),
        popped.items::<T, Ser>(left) == handle.items::<T, Ser>(entries),
{
    let before = handle.items::<T, Ser>(entries);
    lemma_pushes_back_the_item::<T, Ser>(handle, entries, item, pushed, written, Ok(()));
    lemma_pops_back_the_item::<T, Ser>(pushed, written, popped, left, r);
    assert(before.push(Some(item)).drop_last() =~= before);
}

/// A pop at the front right after a push at the front returns the pushed
/// item and leaves the queue with the counters and the items it had.
pub proof fn lemma_push_front_then_pop_front<T, Ser: Serde<T>>(
    handle: Handle,
    entries: Map<Seq<u8>, Seq<u8>>,
    item: T,
    pushed: Handle,
    written: Map<Seq<u8>, Seq<u8>>,
    popped: Handle,
    left: Map<Seq<u8>, Seq<u8>>,
    r: Result<T, StoreError>,
)
    requires
        handle.pushes_front::<T, Ser>(entries, item, pushed, written, Ok(())),
        pushed.pops_front::<T, Ser>(written, popped, left, r),
    ensures
        r == Ok::<T, StoreError>(item),
        popped.len_in(left) == handle.len_in(entries),
        popped.off_in(left) == handle.off_in(entries),
        popped.items::<T, Ser>(left) == handle.items::<T, Ser>(entries),
{
    let before = handle.items::<T, Ser>(entries);
    lemma_pushes_front_the_item::<T, Ser>(handle, entries, item, pushed, written, Ok(()));
    lemma_pops_front_the_item::<T, Ser>(pushed, written, popped, left, r);
    assert((seq![Some(item)] + before).drop_first() =~= before);
}

/// Removing the item at a position leaves the other items in their order,
/// one fewer of them, from whichever side the gap was closed; and it
/// returns the item, or the error of its slot where the slot cannot be
/// read. It succeeds only where the gap could be closed.
pub proof fn lemma_removes_the_item<T, Ser: Serde<T>>(
    handle: Handle,
    entries: Map<Seq<u8>, Seq<u8>>,
    pos: u32,
    one_sided: bool,
    after: Handle,
    written: Map<Seq<u8>, Seq<u8>>,
    r: Result<T, StoreError>,
)
    requires
        handle.removes::<T, Ser>(entries, pos, one_sided, after, written, r),
        pos < handle.items::<T, Ser>(entries).len(),
    ensures
        handle.can_close::<T, Ser>(
            entries,
            handle.off_in(entries).unwrap(),
            pos,
            handle.len_in(entries).unwrap(),
            one_sided || closes_from_tail(pos, handle.len_in(entries).unwrap()),
        ) ==> after.items::<T, Ser>(written) == handle.items::<T, Ser>(entries).remove(pos as int)
            && yields(handle.items::<T, Ser>(entries)[pos as int], r),
        r is Ok ==> handle.can_close::<T, Ser>(
            entries,
            handle.off_in(entries).unwrap(),
            pos,
            handle.len_in(entries).unwrap(),
            one_sided || closes_from_tail(pos, handle.len_in(entries).unwrap()),
        ),
{
    let off = handle.off_in(entries).unwrap();
    let len = handle.len_in(entries).unwrap();
    let from_tail = one_sided || closes_from_tail(pos, len);
    if handle.can_close::<T, Ser>(entries, off, pos, len, from_tail) {
        if from_tail {
            let shifted = choose|shifted: Map<Seq<u8>, Seq<u8>>|
                {
                    &&& #[trigger] same_outside(
                        entries,
                        shifted,
                        handle.prefix,
                        off,
                        pos,
                        (len - 1) as u32,
                    )
                    &&& forall|p: u32|
                        pos <= p < len - 1 ==> #[trigger] pulled_down::<T, Ser>(
                            entries,
                            shifted,
                            handle.prefix,
                            off,
                            p,
                        )
                    &&& written == shifted.insert(
                        handle.len_key(),
                        be_bytes((len - 1) as u32),
                    )
                };
            lemma_items_after_pull_down::<T, Ser>(entries, shifted, handle.prefix, off, pos, len);
            lemma_items_after_counter::<T, Ser>(
                shifted,
                handle.prefix,
                off,
                (len - 1) as u32,
                be_bytes((len - 1) as u32),
            );
        } else {
            let behind = offset_behind(off);
            let shifted = choose|shifted: Map<Seq<u8>, Seq<u8>>|
                {
                    &&& #[trigger] same_outside(
                        entries,
                        shifted,
                        handle.prefix,
                        off,
                        1,
                        (pos + 1) as u32,
                    )
                    &&& forall|p: u32|
                        p < pos ==> #[trigger] pulled_up::<T, Ser>(
                            entries,
                            shifted,
                            handle.prefix,
                            off,
                            p,
                        )
                    &&& written == shifted.insert(handle.off_key(), be_bytes(behind)).insert(
                        handle.len_key(),
                        be_bytes((len - 1) as u32),
                    )
                };
            lemma_items_after_pull_up::<T, Ser>(entries, shifted, handle.prefix, off, pos, len);
            lemma_items_after_counter::<T, Ser>(
                shifted,
                handle.prefix,
                behind,
                (len - 1) as u32,
                be_bytes(behind),
            );
            lemma_items_after_counter::<T, Ser>(
                shifted.insert(handle.off_key(), be_bytes(behind)),
                handle.prefix,
                behind,
                (len - 1) as u32,
                be_bytes((len - 1) as u32),
            );
        }
    }
}

/// In a collection whose items can all be read, every gap can be closed
/// from either side: what was read can be written again.
pub proof fn lemma_readable_can_close<T, Ser: Serde<T>>(
    handle: Handle,
    entries: Map<Seq<u8>, Seq<u8>>,
    pos: u32,
    from_tail: bool,
)
    requires
        handle.off_in(entries) is Some,
        handle.len_in(entries) matches Some(len) && pos < len,
        all_present(handle.items::<T, Ser>(entries)),
    ensures
        handle.can_close::<T, Ser>(
            entries,
            handle.off_in(entries).unwrap(),
            pos,
            handle.len_in(entries).unwrap(),
            from_tail,
        ),
{
    let off = handle.off_in(entries).unwrap();
    let len = handle.len_in(entries).unwrap();
    let all = handle.items::<T, Ser>(entries);
    assert forall|p: u32| p < len implies moved::<T, Ser>(
        entries,
        handle.prefix,
        #[trigger] physical(off, p),
    ) is Some by {
        assert(all[p as int] is Some);
        Ser::lemma_decoded_encodes(entries[slot_key(handle.prefix, physical(off, p))]);
    }
}

/// Removing from a collection whose items can all be read: a position at
/// or beyond the length is out of bounds and nothing changes; a position
/// within bounds returns its item and leaves the other items in their
/// order, from whichever side the gap was closed. The length, as the handle
/// remembers it and as the entries keep it, is one less, and what was the
/// last position is out of bounds.
pub proof fn lemma_removes_from_readable<T, Ser: Serde<T>>(
    handle: Handle,
    entries: Map<Seq<u8>, Seq<u8>>,
    pos: u32,
    one_sided: bool,
    after: Handle,
    written: Map<Seq<u8>, Seq<u8>>,
    r: Result<T, StoreError>,
)
    requires
        handle.removes::<T, Ser>(entries, pos, one_sided, after, written, r),
        handle.off_in(entries) is Some,
        handle.len_in(entries) is Some,
        all_present(handle.items::<T, Ser>(entries)),
    ensures
        pos >= handle.len_in(entries).unwrap() ==> {
            &&& r == Err::<T, StoreError>(StoreError::Bounds)
            &&& written == entries
            &&& after.items::<T, Ser>(written) == handle.items::<T, Ser>(entries)
        },
        pos < handle.len_in(entries).unwrap() ==> {
            &&& handle.items::<T, Ser>(entries)[pos as int] == Some(r.unwrap())
            &&& r is Ok
            &&& after.items::<T, Ser>(written) == handle.items::<T, Ser>(entries).remove(
                pos as int,
            )
            &&& after.len == Some((handle.len_in(entries).unwrap() - 1) as u32)
            &&& written[handle.len_key()] == be_bytes((handle.len_in(entries).unwrap() - 1) as u32)
            &&& counter_value(written, handle.len_key()) == Some(
                (handle.len_in(entries).unwrap() - 1) as u32,
            )
            &&& forall|later: Handle, read: Result<T, StoreError>|
                #[trigger] after.gets::<T, Ser>(
                    written,
                    (handle.len_in(entries).unwrap() - 1) as u32,
                    later,
                    read,
                ) ==> read == Err::<T, StoreError>(StoreError::Bounds)
        },
{
    let len = handle.len_in(entries).unwrap();
    if pos < len {
        lemma_readable_can_close::<T, Ser>(
            handle,
            entries,
            pos,
            one_sided || closes_from_tail(pos, len),
        );
        lemma_removes_the_item::<T, Ser>(handle, entries, pos, one_sided, after, written, r);
        lemma_be_round_trip((len - 1) as u32);
    }
}

/// The first `count` pages of `all`, one after the other.
pub open spec fn pages_joined<A>(all: Seq<A>, size: u32, count: nat) -> Seq<A>
    decreases count,
{
    if count == 0 {
        Seq::empty()
    } else {
        pages_joined(all, size, (count - 1) as nat) + page_of(all, (count - 1) as u32, size)
    }
}

/// The pages of a sequence, joined in order, give the sequence from its
/// first item up to the end of the last page taken: every item once, and
/// all of them as soon as the pages reach the end.
pub proof fn lemma_pages_cover<A>(all: Seq<A>, size: u32, count: nat)
    requires
        size > 0,
        count <= 0x1_0000_0000,
    ensures
        pages_joined(all, size, count) == all.subrange(
            0,
            if count * size < all.len() {
                count * size
            } else {
                all.len() as int
            },
        ),
        count * size >= all.len() ==> pages_joined(all, size, count) == all,
    decreases count,
{
    if count == 0 {
        assert(pages_joined(all, size, count) =~= all.subrange(0, 0));
    } else {
        let before = (count - 1) as nat;
        lemma_pages_cover(all, size, before);
        assert(before * size + size == count * size) by (nonlinear_arith)
            requires
                before + 1 == count,
        ;
        let lo = page_start(all.len(), before as u32, size);
        let hi = page_end(all.len(), before as u32, size);
        assert(pages_joined(all, size, count) =~= all.subrange(0, hi));
    }
    if count * size >= all.len() {
        assert(all.subrange(0, all.len() as int) =~= all);
    }
}

} // verus!
