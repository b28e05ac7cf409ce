//! An append store keeps a list of items in storage, each in an entry of its
//! own, with constant-cost appending and popping at the back.
//!
//! A reserved key keeps the length of the list. The handle remembers the
//! length once it has read or written it; it does not notice what another
//! handle of the same namespace writes afterwards.

use crate::cursor::{all_present, page_end, page_of, page_start, present, Cursor};
use crate::error::{is_counter_error, StoreError};
use crate::handle::{yields, Handle};
use crate::keys::{be_bytes, concat};
use crate::laws::{
    lemma_gets_the_item, lemma_pops_back_the_item, lemma_pushes_back_the_item,
    lemma_readable_can_close, lemma_removes_the_item, lemma_sets_the_item,
};
use crate::slots::{
    encode_item, len_key, load_slot, physical, pull_from_tail, read_counter, same_outside,
    save_slot, stuck_from_tail, write_counter, write_slot,
};
use crate::storage::Storage;
use crate::traits::{Borsh, Serde};
use core::marker::PhantomData;
use vstd::prelude::*;
use vstd::string::StringSliceAdditionalSpecFns;

verus! {

/// A handle on the list kept under one namespace.
pub struct AppendStore<'a, T> {
    /// The namespace the handle was made for.
    namespace: &'a [u8],
    /// The namespace with the suffixes that were added, if any were.
    prefix: Option<Vec<u8>>,
    /// The length, once it is known.
    length: Option<u32>,
    item_type: PhantomData<T>,
}

impl<'a, T> View for AppendStore<'a, T> {
    type V = Handle;

    /// What the handle knows. A list begins at slot zero: its offset is
    /// known and never changes.
    closed spec fn view(&self) -> Handle {
        Handle {
            prefix: match self.prefix {
                Some(prefix) => prefix@,
                None => self.namespace@,
            },
            len: self.length,
            off: Some(0u32),
        }
    }
}

impl<'a, T> AppendStore<'a, T> where Borsh: Serde<T> {
    /// The items of the list, front to back, as the handle sees them in
    /// `entries`. A position whose slot cannot be read shows as `None`.
    pub open spec fn items(&self, entries: Map<Seq<u8>, Seq<u8>>) -> Seq<Option<T>> {
        self@.items::<T, Borsh>(entries)
    }

    /// A list begins at slot zero: its handle knows the offset, which is
    /// zero, and position `pos` lives in the slot with the index `pos`.
    pub proof fn lemma_offset_is_zero(&self)
        ensures
            self@.off == Some(0u32),
            forall|entries: Map<Seq<u8>, Seq<u8>>| #[trigger] self@.off_in(entries) == Some(0u32),
            forall|pos: u32| #[trigger] physical(0, pos) == pos,
    {
    }

    /// A handle on the list under the namespace `prefix`.
    pub fn new(prefix: &'a str) -> (store: Self)
        ensures
            store@ == (Handle { prefix: prefix.spec_bytes(), len: None, off: Some(0u32) }),
    {
        AppendStore {
            namespace: prefix.as_bytes(),
            prefix: None,
            length: None,
            item_type: PhantomData,
        }
    }

    /// A handle on the list under this handle's namespace followed by
    /// `suffix`, for keeping one list per user and the like.
    pub fn add_suffix(&self, suffix: &str) -> (store: Self)
        ensures
            store@ == (Handle {
                prefix: self@.prefix + suffix.spec_bytes(),
                len: None,
                off: Some(0u32),
            }),
    {
        let prefix = concat(self.as_slice(), suffix.as_bytes());
        AppendStore {
            namespace: self.namespace,
            prefix: Some(prefix),
            length: None,
            item_type: PhantomData,
        }
    }

    /// The bytes that every key of this list begins with.
    pub fn as_slice(&self) -> (bytes: &[u8])
        ensures
            bytes@ == self@.prefix,
    {
        match &self.prefix {
            Some(prefix) => prefix.as_slice(),
            None => self.namespace,
        }
    }

    /// The length that the handle remembers, if it remembers one.
    pub fn cached_len(&self) -> (len: Option<u32>)
        ensures
            len == self@.len,
    {
        self.length
    }

    /// The length of the list: the remembered one, else the one read from
    /// storage, which is then remembered. A length that is not kept in
    /// storage is zero.
    pub fn get_len<S: Storage>(&mut self, storage: &S) -> (r: Result<u32, StoreError>)
        ensures
            old(self)@.reads_len(storage.entries(), final(self)@, r),
    {
        match self.length {
            Some(len) => Ok(len),
            None => {
                let key = len_key(self.as_slice());
                match read_counter(storage, key.as_slice()) {
                    Ok(len) => {
                        self.length = Some(len);
                        Ok(len)
                    },
                    Err(e) => Err(e),
                }
            },
        }
    }

    /// Whether the list has no elements.
    pub fn is_empty<S: Storage>(&mut self, storage: &S) -> (r: Result<bool, StoreError>)
        ensures
            old(self)@.reads_emptiness(storage.entries(), final(self)@, r),
    {
        match self.get_len(storage) {
            Ok(len) => Ok(len == 0),
            Err(e) => Err(e),
        }
    }

    /// The item at position `pos`. A position at or beyond the length is
    /// out of bounds.
    pub fn get_at<S: Storage>(&mut self, storage: &S, pos: u32) -> (r: Result<T, StoreError>)
        ensures
            old(self)@.gets::<T, Borsh>(storage.entries(), pos, final(self)@, r),
            final(self).items(storage.entries()) == old(self).items(storage.entries()),
            pos < old(self).items(storage.entries()).len() ==> yields(
                old(self).items(storage.entries())[pos as int],
                r,
            ),
    {
        let len = match self.get_len(storage) {
            Ok(len) => len,
            Err(e) => {
                return Err(e);
            },
        };
        if pos >= len {
            return Err(StoreError::Bounds);
        }
        let r = self.get_at_unchecked(storage, pos);
        proof {
            lemma_gets_the_item::<T, Borsh>(old(self)@, storage.entries(), pos, self@, r);
        }
        r
    }

    /// Reads the slot of position `pos`, whatever the length.
    fn get_at_unchecked<S: Storage>(&self, storage: &S, pos: u32) -> (r: Result<T, StoreError>)
        ensures
            self@.slot_result::<T, Borsh>(storage.entries(), pos, r),
    {
        load_slot::<T, Borsh, S>(storage, self.as_slice(), pos)
    }

    /// Remembers and writes the length.
    fn set_len<S: Storage>(&mut self, storage: &mut S, len: u32)
        ensures
            final(self)@ == old(self)@.with_len(len),
            final(storage).entries() == old(storage).entries().insert(
                old(self)@.len_key(),
                be_bytes(len),
            ),
    {
        let key = len_key(self.as_slice());
        write_counter(storage, key.as_slice(), len);
        self.length = Some(len);
    }

    /// Empties the list. The slots keep their bytes; they are out of reach
    /// until new items overwrite them.
    pub fn clear<S: Storage>(&mut self, storage: &mut S)
        ensures
            final(self)@ == old(self)@.with_len(0),
            final(storage).entries() == old(storage).entries().insert(
                old(self)@.len_key(),
                be_bytes(0),
            ),
            final(self).items(final(storage).entries()) == Seq::<Option<T>>::empty(),
    {
        self.set_len(storage, 0);
        assert(self.items(storage.entries()) =~= Seq::<Option<T>>::empty());
    }

    /// Writes the slot of position `pos`, whatever the length.
    fn set_at_unchecked<S: Storage>(&self, storage: &mut S, pos: u32, item: &T) -> (r: Result<
        (),
        StoreError,
    >)
        ensures
            self@.writes_slot::<T, Borsh>(
                old(storage).entries(),
                pos,
                *item,
                self@,
                final(storage).entries(),
                r,
            ),
    {
        save_slot::<T, Borsh, S>(storage, self.as_slice(), pos, item)
    }

    /// Replaces the item at position `pos`, which must be within bounds.
    pub fn set_at<S: Storage>(&mut self, storage: &mut S, pos: u32, item: &T) -> (r: Result<
        (),
        StoreError,
    >)
        ensures
            old(self)@.sets::<T, Borsh>(
                old(storage).entries(),
                pos,
                *item,
                final(self)@,
                final(storage).entries(),
                r,
            ),
            r is Ok ==> final(self).items(final(storage).entries()) == old(self).items(
                old(storage).entries(),
            ).update(pos as int, Some(*item)),
    {
        let len = match self.get_len(storage) {
            Ok(len) => len,
            Err(e) => {
                return Err(e);
            },
        };
        if pos >= len {
            return Err(StoreError::Bounds);
        }
        let r = self.set_at_unchecked(storage, pos, item);
        proof {
            if r is Ok {
                lemma_sets_the_item::<T, Borsh>(
                    old(self)@,
                    old(storage).entries(),
                    pos,
                    *item,
                    self@,
                    storage.entries(),
                    r,
                );
            }
        }
        r
    }

    /// Appends `item` to the list.
    pub fn push<S: Storage>(&mut self, storage: &mut S, item: &T) -> (r: Result<(), StoreError>)
        ensures
            old(self)@.pushes_back::<T, Borsh>(
                old(storage).entries(),
                *item,
                final(self)@,
                final(storage).entries(),
                r,
            ),
            r is Ok ==> final(self).items(final(storage).entries()) == old(self).items(
                old(storage).entries(),
            ).push(Some(*item)),
    {
        let len = match self.get_len(storage) {
            Ok(len) => len,
            Err(e) => {
                return Err(e);
            },
        };
        let bytes = match encode_item::<T, Borsh>(item) {
            Ok(bytes) => bytes,
            Err(e) => {
                return Err(e);
            },
        };
        if len == u32::MAX {
            return Err(StoreError::Full);
        }
        write_slot(storage, self.as_slice(), len, bytes.as_slice());
        self.set_len(storage, len + 1);
        proof {
            lemma_pushes_back_the_item::<T, Borsh>(
                old(self)@,
                old(storage).entries(),
                *item,
                self@,
                storage.entries(),
                Ok(()),
            );
        }
        Ok(())
    }

    /// Takes the last item off the list. The slot keeps its bytes.
    ///
    /// The length is reduced also when the slot cannot be read.
    pub fn pop<S: Storage>(&mut self, storage: &mut S) -> (r: Result<T, StoreError>)
        ensures
            old(self)@.pops_back::<T, Borsh>(
                old(storage).entries(),
                final(self)@,
                final(storage).entries(),
                r,
            ),
            old(self).items(old(storage).entries()).len() > 0 ==> final(self).items(
                final(storage).entries(),
            ) == old(self).items(old(storage).entries()).drop_last() && yields(
                old(self).items(old(storage).entries()).last(),
                r,
            ),
    {
        let len = match self.get_len(storage) {
            Ok(len) => len,
            Err(e) => {
                return Err(e);
            },
        };
        if len == 0 {
            return Err(StoreError::EmptyCollection);
        }
        let last: u32 = len - 1;
        let item = self.get_at_unchecked(storage, last);
        self.set_len(storage, last);
        proof {
            lemma_pops_back_the_item::<T, Borsh>(
                old(self)@,
                old(storage).entries(),
                self@,
                storage.entries(),
                item,
            );
        }
        item
    }

    /// Takes the item at position `pos` out of the list and moves every
    /// item behind it one position forward.
    ///
    /// Removing the last item costs one read; removing the first moves all
    /// the others. Where an item behind `pos` cannot be read or written
    /// anew, the removal stops there with that error: the items before it
    /// have moved and the length stays. Where only the item at `pos` cannot
    /// be read, the gap is closed and the length reduced all the same.
    pub fn remove<S: Storage>(&mut self, storage: &mut S, pos: u32) -> (r: Result<T, StoreError>)
        ensures
            old(self)@.removes::<T, Borsh>(
                old(storage).entries(),
                pos,
                true,
                final(self)@,
                final(storage).entries(),
                r,
            ),
            r is Ok ==> final(self).items(final(storage).entries()) == old(self).items(
                old(storage).entries(),
            ).remove(pos as int) && old(self).items(old(storage).entries())[pos as int] == Some(
                r.unwrap(),
            ),
            pos < old(self).items(old(storage).entries()).len() && all_present(
                old(self).items(old(storage).entries()),
            ) ==> r is Ok,
    {
        let len = match self.get_len(storage) {
            Ok(len) => len,
            Err(e) => {
                return Err(e);
            },
        };
        if pos >= len {
            return Err(StoreError::Bounds);
        }
        let item = self.get_at_unchecked(storage, pos);
        let shift = pull_from_tail::<T, Borsh, S>(storage, self.as_slice(), 0, pos, len);
        let ghost stopped = shift;
        match shift {
            Ok(()) => {},
            Err(e) => {
                let r = Err(e);
                proof {
                    let k = choose|k: u32|
                        pos < k < len && #[trigger] stuck_from_tail::<T, Borsh, ()>(
                            old(storage).entries(),
                            storage.entries(),
                            self@.prefix,
                            0,
                            pos,
                            k,
                            stopped,
                        );
                    assert(stuck_from_tail::<T, Borsh, T>(
                        old(storage).entries(),
                        storage.entries(),
                        self@.prefix,
                        0,
                        pos,
                        k,
                        r,
                    ));
                    if all_present(old(self).items(old(storage).entries())) {
                        lemma_readable_can_close::<T, Borsh>(
                            old(self)@,
                            old(storage).entries(),
                            pos,
                            true,
                        );
                    }
                }
                return r;
            },
        }
        let ghost shifted = storage.entries();
        self.set_len(storage, len - 1);
        proof {
            assert(same_outside(
                old(storage).entries(),
                shifted,
                self@.prefix,
                0,
                pos,
                (len - 1) as u32,
            ));
            if all_present(old(self).items(old(storage).entries())) {
                lemma_readable_can_close::<T, Borsh>(
                    old(self)@,
                    old(storage).entries(),
                    pos,
                    true,
                );
            }
            lemma_removes_the_item::<T, Borsh>(
                old(self)@,
                old(storage).entries(),
                pos,
                true,
                self@,
                storage.entries(),
                item,
            );
        }
        item
    }

    /// A copy of the handle that remembers what this one remembers.
    fn snapshot<'b>(&self) -> (store: AppendStore<'b, T>) where 'a: 'b
        ensures
            store@ == self@,
    {
        let prefix = match &self.prefix {
            Some(prefix) => Some(prefix.clone()),
            None => None,
        };
        AppendStore {
            namespace: self.namespace,
            prefix,
            length: self.length,
            item_type: PhantomData,
        }
    }

    /// A cursor over the whole list as it stands in `storage`. The cursor
    /// reads through a handle of its own.
    pub fn iter<'b, S: Storage>(&mut self, storage: &'b S) -> (r: Result<
        AppendStoreIter<'b, T, S>,
        StoreError,
    >) where 'a: 'b
        ensures
            final(self)@ == old(self)@.sure_of_len(storage.entries()),
            match r {
                Ok(cursor) => old(self)@.len_in(storage.entries()) matches Some(len) && cursor@
                    == (Cursor {
                    handle: old(self)@.with_len(len),
                    entries: storage.entries(),
                    start: 0,
                    end: len,
                }),
                Err(_) => old(self)@.len_in(storage.entries()) is None && is_counter_error(r),
            },
    {
        let len = match self.get_len(storage) {
            Ok(len) => len,
            Err(e) => {
                return Err(e);
            },
        };
        Ok(AppendStoreIter::new(self, storage, 0, len))
    }

    /// The items of page `start_page`, where every page but the last holds
    /// `size` items: the items from position `start_page * size` on, `size`
    /// of them or as many as there are. It fails with the error of the first
    /// of them that cannot be read.
    pub fn paging<S: Storage>(&mut self, storage: &S, start_page: u32, size: u32) -> (r: Result<
        Vec<T>,
        StoreError,
    >)
        ensures
            old(self)@.pages::<T, Borsh>(storage.entries(), start_page, size, final(self)@, r),
    {
        let mut cursor = match self.iter(storage) {
            Ok(cursor) => cursor,
            Err(e) => {
                return Err(e);
            },
        };
        let ghost all = old(self).items(storage.entries());
        let ghost lo = page_start(all.len(), start_page, size);
        let ghost hi = page_end(all.len(), start_page, size);
        let mut page: Vec<T> = Vec::new();
        if size == 0 {
            assert(present(page@) =~= all.subrange(lo, hi));
            return Ok(page);
        }
        assert(start_page * size <= 0xFFFF_FFFE_0000_0001) by (nonlinear_arith)
            requires
                start_page <= 0xFFFF_FFFF,
                size <= 0xFFFF_FFFF,
        ;
        let skip: u64 = (start_page as u64) * (size as u64);
        let step: u32 = if skip > u32::MAX as u64 {
            u32::MAX
        } else {
            skip as u32
        };
        let ghost before = cursor@;
        let first = cursor.nth(step as usize);
        let ghost seen = first;
        proof {
            if let Some(item) = seen {
                lemma_gets_the_item::<T, Borsh>(
                    before.handle,
                    before.entries,
                    lo as u32,
                    cursor@.handle,
                    item,
                );
            }
        }
        match first {
            None => {
                assert(present(page@) =~= all.subrange(lo, hi));
                return Ok(page);
            },
            Some(Err(e)) => {
                assert(page_of(all, start_page, size)[0] is None);
                assert(page_of(all, start_page, size).take(0) =~= Seq::<Option<T>>::empty());
                return Err(e);
            },
            Some(Ok(item)) => {
                page.push(item);
            },
        }
        let mut taken: u32 = 1;
        let mut more: bool = true;
        assert(present(page@) =~= all.subrange(lo, lo + 1));
        while more && taken < size
            invariant
                1 <= taken <= size,
                self@ == old(self)@.sure_of_len(storage.entries()),
                all == old(self).items(storage.entries()),
                lo == page_start(all.len(), start_page, size),
                hi == page_end(all.len(), start_page, size),
                cursor@.entries == storage.entries(),
                cursor@.handle.prefix == old(self)@.prefix,
                cursor@.handle.off_in(storage.entries()) == old(self)@.off_in(storage.entries()),
                cursor@.handle.items::<T, Borsh>(storage.entries()) == all,
                cursor@.handle.len_in(storage.entries()) == Some(all.len() as u32),
                old(self)@.len_in(storage.entries()) == Some(all.len() as u32),
                cursor@.end == all.len(),
                cursor@.start == lo + taken,
                lo + taken <= hi,
                page@.len() == taken,
                !more ==> lo + taken == hi,
                present(page@) == all.subrange(lo, lo + taken),
            decreases size - taken + if more { 1int } else { 0int },
        {
            let ghost before = cursor@;
            let next = cursor.next();
            let ghost seen = next;
            proof {
                if let Some(item) = seen {
                    lemma_gets_the_item::<T, Borsh>(
                        before.handle,
                        before.entries,
                        before.start,
                        cursor@.handle,
                        item,
                    );
                }
            }
            match next {
                None => {
                    more = false;
                },
                Some(Err(e)) => {
                    assert(page_of(all, start_page, size)[taken as int] is None);
                    assert(page_of(all, start_page, size).take(taken as int) =~= present(
                        page@,
                    ));
                    return Err(e);
                },
                Some(Ok(item)) => {
                    let ghost earlier = page@;
                    page.push(item);
                    assert(forall|i: int|
                        0 <= i < taken ==> present(page@)[i] == present(earlier)[i]);
                    assert(present(page@) =~= all.subrange(lo, lo + taken + 1));
                    taken += 1;
                },
            }
        }
        Ok(page)
    }
}

impl<'a, T> Clone for AppendStore<'a, T> where Borsh: Serde<T> {
    /// A handle on the same list that remembers nothing.
    fn clone(&self) -> (store: Self)
        ensures
            store@ == (Handle { len: None, ..self@ }),
    {
        let prefix = match &self.prefix {
            Some(prefix) => Some(prefix.clone()),
            None => None,
        };
        AppendStore { namespace: self.namespace, prefix, length: None, item_type: PhantomData }
    }
}

/// A cursor over the positions from `start` up to, but not including,
/// `end` of an append store, which can be read from either side.
pub struct AppendStoreIter<'a, T, S: Storage> {
    append_store: AppendStore<'a, T>,
    storage: &'a S,
    start: u32,
    end: u32,
}

impl<'a, T, S: Storage> View for AppendStoreIter<'a, T, S> {
    type V = Cursor;

    closed spec fn view(&self) -> Cursor {
        Cursor {
            handle: self.append_store@,
            entries: self.storage.entries(),
            start: self.start,
            end: self.end,
        }
    }
}

impl<'a, T, S: Storage> AppendStoreIter<'a, T, S> where Borsh: Serde<T> {
    /// The cursor of a list reads through the handle of a list, which knows
    /// the offset: zero.
    pub proof fn lemma_offset_is_zero(&self)
        ensures
            self@.handle.off == Some(0u32),
    {
        self.append_store.lemma_offset_is_zero();
    }

    /// A cursor over the positions from `start` up to, but not including,
    /// `end` of `append_store` in `storage`. It reads through a handle of
    /// its own, which remembers what `append_store` remembers now.
    pub fn new<'s>(
        append_store: &AppendStore<'s, T>,
        storage: &'a S,
        start: u32,
        end: u32,
    ) -> (cursor: Self) where 's: 'a
        ensures
            cursor@ == (Cursor {
                handle: append_store@,
                entries: storage.entries(),
                start,
                end,
            }),
    {
        AppendStoreIter { append_store: append_store.snapshot(), storage, start, end }
    }

    /// Reads the position at the front and steps over it. `None` when no
    /// position is left.
    pub fn next(&mut self) -> (r: Option<Result<T, StoreError>>)
        ensures
            old(self)@.steps::<T, Borsh>(final(self)@, r),
    {
        if self.start >= self.end {
            return None;
        }
        let item = self.append_store.get_at(self.storage, self.start);
        self.start += 1;
        Some(item)
    }

    /// How many positions are left, as a lower and an upper bound.
    pub fn size_hint(&self) -> (r: (usize, Option<usize>))
        ensures
            r.0 == self@.remaining(),
            r.1 == Some(r.0),
    {
        let len: usize = if self.end >= self.start {
            (self.end - self.start) as usize
        } else {
            0
        };
        (len, Some(len))
    }

    /// Steps over `n` positions at the front without reading them, then
    /// reads the next. The step stops at the largest position there is.
    pub fn nth(&mut self, n: usize) -> (r: Option<Result<T, StoreError>>)
        ensures
            old(self)@.skipped(n).steps::<T, Borsh>(final(self)@, r),
    {
        let step: u32 = if n > u32::MAX as usize {
            u32::MAX
        } else {
            n as u32
        };
        self.start = if step > u32::MAX - self.start {
            u32::MAX
        } else {
            self.start + step
        };
        self.next()
    }

    /// Reads the position at the back and steps over it. `None` when no
    /// position is left.
    pub fn next_back(&mut self) -> (r: Option<Result<T, StoreError>>)
        ensures
            old(self)@.steps_back::<T, Borsh>(final(self)@, r),
    {
        if self.start >= self.end {
            return None;
        }
        self.end -= 1;
        let item = self.append_store.get_at(self.storage, self.end);
        Some(item)
    }

    /// Steps over `n` positions at the back without reading them, then
    /// reads the one before. The step stops at position zero.
    pub fn nth_back(&mut self, n: usize) -> (r: Option<Result<T, StoreError>>)
        ensures
            old(self)@.skipped_back(n).steps_back::<T, Borsh>(final(self)@, r),
    {
        let step: u32 = if n > u32::MAX as usize {
            u32::MAX
        } else {
            n as u32
        };
        self.end = if step > self.end {
            0
        } else {
            self.end - step
        };
        self.next_back()
    }
}

} // verus!
