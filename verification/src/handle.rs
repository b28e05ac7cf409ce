//! What a handle on a collection knows, and what each operation makes of
//! the handle and of the substrate.
//!
//! A handle remembers the counters of its collection once it has read or
//! written them, and goes by what it remembers from then on. Each operation
//! of a store is described here by a relation between the handle and the
//! entries before it, the handle and the entries after it, and its result.
//! The relations follow the operations step by step, so that they also say
//! which counter a failed operation has come to remember, and what it has
//! written before it failed.

use crate::contents::{offset_before, offset_behind, with_back, with_front};
use crate::error::{is_codec_error, is_counter_error, StoreError};
use crate::keys::be_bytes;
use crate::slots::{
    counter_value, items, len_suffix, movable, off_suffix, physical, pulled_down, pulled_up,
    read_outcome, same_outside, slot_key, storable, stuck_from_head, stuck_from_tail,
};
use crate::traits::Serde;
use vstd::prelude::*;

verus! {

/// The model of a handle: the bytes that every key of its collection begins
/// with, and the counters it remembers.
pub struct Handle {
    pub prefix: Seq<u8>,
    pub len: Option<u32>,
    pub off: Option<u32>,
}

/// True when `r` is the item `held`, or the error of a slot that could not
/// be read where none is held.
pub open spec fn yields<T>(held: Option<T>, r: Result<T, StoreError>) -> bool {
    match held {
        Some(item) => r == Ok::<T, StoreError>(item),
        None => r matches Err(e) && e.is_data_error(),
    }
}

/// True when the gap at `pos` of a queue of `len` items is closed from the
/// tail: when `pos` is strictly nearer to the tail than to the head.
pub open spec fn closes_from_tail(pos: u32, len: u32) -> bool {
    len - pos < pos
}

impl Handle {
    /// The key of the length counter.
    pub open spec fn len_key(self) -> Seq<u8> {
        self.prefix + len_suffix()
    }

    /// The key of the offset counter.
    pub open spec fn off_key(self) -> Seq<u8> {
        self.prefix + off_suffix()
    }

    /// The length that the handle takes the collection to have: the
    /// remembered one, else the one that `entries` keep. `None` when it has
    /// to be read and cannot be.
    pub open spec fn len_in(self, entries: Map<Seq<u8>, Seq<u8>>) -> Option<u32> {
        match self.len {
            Some(len) => Some(len),
            None => counter_value(entries, self.len_key()),
        }
    }

    /// The offset that the handle takes the collection to have, found as
    /// the length is.
    pub open spec fn off_in(self, entries: Map<Seq<u8>, Seq<u8>>) -> Option<u32> {
        match self.off {
            Some(off) => Some(off),
            None => counter_value(entries, self.off_key()),
        }
    }

    /// The handle once it has looked up the length.
    pub open spec fn sure_of_len(self, entries: Map<Seq<u8>, Seq<u8>>) -> Handle {
        Handle { len: self.len_in(entries), ..self }
    }

    /// The handle once it has looked up the offset.
    pub open spec fn sure_of_off(self, entries: Map<Seq<u8>, Seq<u8>>) -> Handle {
        Handle { off: self.off_in(entries), ..self }
    }

    /// The handle once it remembers the length `len`.
    pub open spec fn with_len(self, len: u32) -> Handle {
        Handle { len: Some(len), ..self }
    }

    /// The handle once it remembers the offset `off`.
    pub open spec fn with_off(self, off: u32) -> Handle {
        Handle { off: Some(off), ..self }
    }

    /// The items of the collection, front to back, as the handle sees them
    /// in `entries`. A position whose slot cannot be read shows as `None`.
    /// Where a counter cannot be read there are no items to see.
    pub open spec fn items<T, Ser: Serde<T>>(self, entries: Map<Seq<u8>, Seq<u8>>) -> Seq<
        Option<T>,
    > {
        match (self.off_in(entries), self.len_in(entries)) {
            (Some(off), Some(len)) => items::<T, Ser>(entries, self.prefix, off, len),
            _ => Seq::empty(),
        }
    }

    /// How looking up the length ends.
    pub open spec fn reads_len(
        self,
        entries: Map<Seq<u8>, Seq<u8>>,
        after: Handle,
        r: Result<u32, StoreError>,
    ) -> bool {
        &&& after == self.sure_of_len(entries)
        &&& match self.len_in(entries) {
            Some(len) => r == Ok::<u32, StoreError>(len),
            None => is_counter_error(r),
        }
    }

    /// How looking up the offset ends.
    pub open spec fn reads_off(
        self,
        entries: Map<Seq<u8>, Seq<u8>>,
        after: Handle,
        r: Result<u32, StoreError>,
    ) -> bool {
        &&& after == self.sure_of_off(entries)
        &&& match self.off_in(entries) {
            Some(off) => r == Ok::<u32, StoreError>(off),
            None => is_counter_error(r),
        }
    }

    /// How asking whether the collection is empty ends.
    pub open spec fn reads_emptiness(
        self,
        entries: Map<Seq<u8>, Seq<u8>>,
        after: Handle,
        r: Result<bool, StoreError>,
    ) -> bool {
        &&& after == self.sure_of_len(entries)
        &&& match self.len_in(entries) {
            Some(len) => r == Ok::<bool, StoreError>(len == 0),
            None => is_counter_error(r),
        }
    }

    /// What reading the slot of position `pos` returns, whatever the
    /// length: the item of the slot, `NotFound` for an absent slot, or
    /// `Codec` for an offset or a slot that cannot be read.
    pub open spec fn slot_result<T, Ser: Serde<T>>(
        self,
        entries: Map<Seq<u8>, Seq<u8>>,
        pos: u32,
        r: Result<T, StoreError>,
    ) -> bool {
        match self.off_in(entries) {
            Some(off) => read_outcome::<T, Ser>(entries, self.prefix, physical(off, pos), r),
            None => is_counter_error(r),
        }
    }

    /// How reading the slot of position `pos` ends, whatever the length.
    pub open spec fn reads_slot<T, Ser: Serde<T>>(
        self,
        entries: Map<Seq<u8>, Seq<u8>>,
        pos: u32,
        after: Handle,
        r: Result<T, StoreError>,
    ) -> bool {
        &&& after == self.sure_of_off(entries)
        &&& self.slot_result::<T, Ser>(entries, pos, r)
    }

    /// How reading position `pos` ends: `Bounds` for a position at or beyond
    /// the length, else as reading its slot ends. The offset is looked up
    /// only for a position within bounds.
    pub open spec fn gets<T, Ser: Serde<T>>(
        self,
        entries: Map<Seq<u8>, Seq<u8>>,
        pos: u32,
        after: Handle,
        r: Result<T, StoreError>,
    ) -> bool {
        match self.len_in(entries) {
            Some(len) => if pos >= len {
                &&& after == self.with_len(len)
                &&& r == Err::<T, StoreError>(StoreError::Bounds)
            } else {
                self.with_len(len).reads_slot::<T, Ser>(entries, pos, after, r)
            },
            None => after == self && is_counter_error(r),
        }
    }

    /// True of the error of a write that came to nothing: that of the offset
    /// where the offset cannot be read, else that of the item, which has no
    /// encoding.
    pub open spec fn is_write_error<T, Ser: Serde<T>, R>(
        self,
        entries: Map<Seq<u8>, Seq<u8>>,
        r: Result<R, StoreError>,
    ) -> bool {
        if self.off_in(entries) is None {
            is_counter_error(r)
        } else {
            is_codec_error(r, Ser::kind_name())
        }
    }

    /// How writing `item` into the slot of position `pos` ends, whatever the
    /// length. Nothing is written where the offset cannot be read or the
    /// item has no encoding.
    pub open spec fn writes_slot<T, Ser: Serde<T>>(
        self,
        entries: Map<Seq<u8>, Seq<u8>>,
        pos: u32,
        item: T,
        after: Handle,
        written: Map<Seq<u8>, Seq<u8>>,
        r: Result<(), StoreError>,
    ) -> bool {
        &&& after == self.sure_of_off(entries)
        &&& match (self.off_in(entries), storable::<T, Ser>(item)) {
            (Some(off), Some(bytes)) => {
                &&& r is Ok
                &&& written == entries.insert(slot_key(self.prefix, physical(off, pos)), bytes)
            },
            _ => written == entries && self.is_write_error::<T, Ser, ()>(entries, r),
        }
    }

    /// How replacing the item at position `pos` ends: `Bounds` for a
    /// position at or beyond the length, else as writing its slot ends.
    pub open spec fn sets<T, Ser: Serde<T>>(
        self,
        entries: Map<Seq<u8>, Seq<u8>>,
        pos: u32,
        item: T,
        after: Handle,
        written: Map<Seq<u8>, Seq<u8>>,
        r: Result<(), StoreError>,
    ) -> bool {
        match self.len_in(entries) {
            Some(len) => if pos >= len {
                &&& after == self.with_len(len)
                &&& written == entries
                &&& r == Err::<(), StoreError>(StoreError::Bounds)
            } else {
                self.with_len(len).writes_slot::<T, Ser>(entries, pos, item, after, written, r)
            },
            None => after == self && written == entries && is_counter_error(r),
        }
    }

    /// How appending `item` ends: with a `Codec` error where a counter
    /// cannot be read or the item has no encoding, with `Full` for a
    /// collection of the largest length, else the item goes into the slot
    /// behind the last and the length grows by one. Nothing is written
    /// where it fails.
    pub open spec fn pushes_back<T, Ser: Serde<T>>(
        self,
        entries: Map<Seq<u8>, Seq<u8>>,
        item: T,
        after: Handle,
        written: Map<Seq<u8>, Seq<u8>>,
        r: Result<(), StoreError>,
    ) -> bool {
        match self.len_in(entries) {
            Some(len) => match (self.off_in(entries), storable::<T, Ser>(item)) {
                (Some(off), Some(bytes)) => if len == u32::MAX {
                    &&& after == self.with_off(off).with_len(len)
                    &&& written == entries
                    &&& r == Err::<(), StoreError>(StoreError::Full)
                } else {
                    &&& r is Ok
                    &&& after == self.with_off(off).with_len((len + 1) as u32)
                    &&& written == with_back(entries, self.prefix, off, len, bytes)
                },
                _ => {
                    &&& after == self.with_len(len).sure_of_off(entries)
                    &&& written == entries
                    &&& self.is_write_error::<T, Ser, ()>(entries, r)
                },
            },
            None => after == self && written == entries && is_counter_error(r),
        }
    }

    /// How putting `item` in front ends: with a `Codec` error where a
    /// counter cannot be read or the item has no encoding, with `Full` for a
    /// queue of the largest length, else the offset steps back by one,
    /// modulo 2^32, the item goes into the slot it then names, and the
    /// length grows by one. Nothing is written where it fails.
    pub open spec fn pushes_front<T, Ser: Serde<T>>(
        self,
        entries: Map<Seq<u8>, Seq<u8>>,
        item: T,
        after: Handle,
        written: Map<Seq<u8>, Seq<u8>>,
        r: Result<(), StoreError>,
    ) -> bool {
        match (self.off_in(entries), self.len_in(entries)) {
            (Some(off), Some(len)) => match storable::<T, Ser>(item) {
                Some(bytes) => if len == u32::MAX {
                    &&& after == self.with_off(off).with_len(len)
                    &&& written == entries
                    &&& r == Err::<(), StoreError>(StoreError::Full)
                } else {
                    &&& r is Ok
                    &&& after == self.with_off(offset_before(off)).with_len((len + 1) as u32)
                    &&& written == with_front(entries, self.prefix, off, len, bytes)
                },
                None => {
                    &&& after == self.with_off(off).with_len(len)
                    &&& written == entries
                    &&& is_codec_error(r, Ser::kind_name())
                },
            },
            (Some(off), None) => {
                &&& after == self.with_off(off)
                &&& written == entries
                &&& is_counter_error(r)
            },
            (None, _) => after == self && written == entries && is_counter_error(r),
        }
    }

    /// How taking the last item off ends: `EmptyCollection` where there is
    /// none, else as reading the last slot ends, and the length is one
    /// less, also where the slot could not be read.
    pub open spec fn pops_back<T, Ser: Serde<T>>(
        self,
        entries: Map<Seq<u8>, Seq<u8>>,
        after: Handle,
        written: Map<Seq<u8>, Seq<u8>>,
        r: Result<T, StoreError>,
    ) -> bool {
        match self.len_in(entries) {
            Some(len) => if len == 0 {
                &&& after == self.with_len(0)
                &&& written == entries
                &&& r == Err::<T, StoreError>(StoreError::EmptyCollection)
            } else {
                &&& self.slot_result::<T, Ser>(entries, (len - 1) as u32, r)
                &&& after == self.sure_of_off(entries).with_len((len - 1) as u32)
                &&& written == entries.insert(self.len_key(), be_bytes((len - 1) as u32))
            },
            None => after == self && written == entries && is_counter_error(r),
        }
    }

    /// How taking the first item off ends: `EmptyCollection` where there is
    /// none, `Codec` with nothing written where the offset cannot be read,
    /// else as reading the first slot ends, the offset steps on by one,
    /// modulo 2^32, and the length is one less, also where the slot could
    /// not be read.
    pub open spec fn pops_front<T, Ser: Serde<T>>(
        self,
        entries: Map<Seq<u8>, Seq<u8>>,
        after: Handle,
        written: Map<Seq<u8>, Seq<u8>>,
        r: Result<T, StoreError>,
    ) -> bool {
        match self.len_in(entries) {
            Some(len) => if len == 0 {
                &&& after == self.with_len(0)
                &&& written == entries
                &&& r == Err::<T, StoreError>(StoreError::EmptyCollection)
            } else {
                match self.off_in(entries) {
                    Some(off) => {
                        &&& read_outcome::<T, Ser>(entries, self.prefix, off, r)
                        &&& after == self.with_off(offset_behind(off)).with_len((len - 1) as u32)
                        &&& written == entries.insert(
                            self.len_key(),
                            be_bytes((len - 1) as u32),
                        ).insert(self.off_key(), be_bytes(offset_behind(off)))
                    },
                    None => {
                        &&& after == self.with_len(len)
                        &&& written == entries
                        &&& is_counter_error(r)
                    },
                }
            },
            None => after == self && written == entries && is_counter_error(r),
        }
    }

    /// What closing the gap at `pos` from the tail makes of the entries:
    /// every position from `pos` up to the last but one holds the item of
    /// the position behind it, the length is one less, and nothing else has
    /// changed.
    pub open spec fn closed_from_tail<T, Ser: Serde<T>>(
        self,
        entries: Map<Seq<u8>, Seq<u8>>,
        written: Map<Seq<u8>, Seq<u8>>,
        off: u32,
        pos: u32,
        len: u32,
    ) -> bool {
        exists|shifted: Map<Seq<u8>, Seq<u8>>|
            {
                &&& #[trigger] same_outside(
                    entries,
                    shifted,
                    self.prefix,
                    off,
                    pos,
                    (len - 1) as u32,
                )
                &&& forall|p: u32|
                    pos <= p < len - 1 ==> #[trigger] pulled_down::<T, Ser>(
                        entries,
                        shifted,
                        self.prefix,
                        off,
                        p,
                    )
                &&& written == shifted.insert(self.len_key(), be_bytes((len - 1) as u32))
            }
    }

    /// What closing the gap at `pos` from the head makes of the entries:
    /// every position up to `pos` but the first holds the item of the
    /// position before it, the offset has stepped on by one, the length is
    /// one less, and nothing else has changed.
    pub open spec fn closed_from_head<T, Ser: Serde<T>>(
        self,
        entries: Map<Seq<u8>, Seq<u8>>,
        written: Map<Seq<u8>, Seq<u8>>,
        off: u32,
        pos: u32,
        len: u32,
    ) -> bool {
        exists|shifted: Map<Seq<u8>, Seq<u8>>|
            {
                &&& #[trigger] same_outside(
                    entries,
                    shifted,
                    self.prefix,
                    off,
                    1,
                    (pos + 1) as u32,
                )
                &&& forall|p: u32|
                    p < pos ==> #[trigger] pulled_up::<T, Ser>(
                        entries,
                        shifted,
                        self.prefix,
                        off,
                        p,
                    )
                &&& written == shifted.insert(
                    self.off_key(),
                    be_bytes(offset_behind(off)),
                ).insert(self.len_key(), be_bytes((len - 1) as u32))
            }
    }

    /// True when the gap at `pos` can be closed from the side it is closed
    /// from: when every item that has to move for it can be read and
    /// written anew.
    pub open spec fn can_close<T, Ser: Serde<T>>(
        self,
        entries: Map<Seq<u8>, Seq<u8>>,
        off: u32,
        pos: u32,
        len: u32,
        from_tail: bool,
    ) -> bool {
        if from_tail {
            movable::<T, Ser>(entries, self.prefix, off, (pos + 1) as u32, len)
        } else {
            movable::<T, Ser>(entries, self.prefix, off, 0, pos)
        }
    }

    /// How removing the item at position `pos` of a collection with the
    /// counters `off` and `len` ends, for a position within bounds.
    ///
    /// Where every item that has to move can, the gap is closed, the length
    /// is one less, and the result is that of reading the slot of `pos`:
    /// the counters change also where that slot could not be read. Where
    /// one cannot move, the removal has stopped at the first such item, with
    /// its error, and the counters stay.
    pub open spec fn closes_gap<T, Ser: Serde<T>>(
        self,
        entries: Map<Seq<u8>, Seq<u8>>,
        off: u32,
        pos: u32,
        len: u32,
        from_tail: bool,
        after: Handle,
        written: Map<Seq<u8>, Seq<u8>>,
        r: Result<T, StoreError>,
    ) -> bool {
        if self.can_close::<T, Ser>(entries, off, pos, len, from_tail) {
            &&& read_outcome::<T, Ser>(entries, self.prefix, physical(off, pos), r)
            &&& if from_tail {
                &&& after == self.with_off(off).with_len((len - 1) as u32)
                &&& self.closed_from_tail::<T, Ser>(entries, written, off, pos, len)
            } else {
                &&& after == self.with_off(offset_behind(off)).with_len((len - 1) as u32)
                &&& self.closed_from_head::<T, Ser>(entries, written, off, pos, len)
            }
        } else {
            &&& after == self.with_off(off).with_len(len)
            &&& if from_tail {
                exists|k: u32|
                    pos < k < len && #[trigger] stuck_from_tail::<T, Ser, T>(
                        entries,
                        written,
                        self.prefix,
                        off,
                        pos,
                        k,
                        r,
                    )
            } else {
                exists|k: u32|
                    k < pos && #[trigger] stuck_from_head::<T, Ser, T>(
                        entries,
                        written,
                        self.prefix,
                        off,
                        pos,
                        k,
                        r,
                    )
            }
        }
    }

    /// How removing the item at position `pos` ends: `Codec` with nothing
    /// written where a counter cannot be read, `Bounds` for a position at
    /// or beyond the length, else as closing the gap ends. A collection
    /// that is `one_sided` closes every gap from the tail; another closes it
    /// from the tail where `pos` is strictly nearer to the tail, and from
    /// the head otherwise.
    pub open spec fn removes<T, Ser: Serde<T>>(
        self,
        entries: Map<Seq<u8>, Seq<u8>>,
        pos: u32,
        one_sided: bool,
        after: Handle,
        written: Map<Seq<u8>, Seq<u8>>,
        r: Result<T, StoreError>,
    ) -> bool {
        match (self.off_in(entries), self.len_in(entries)) {
            (Some(off), Some(len)) => if pos >= len {
                &&& after == self.with_off(off).with_len(len)
                &&& written == entries
                &&& r == Err::<T, StoreError>(StoreError::Bounds)
            } else {
                self.closes_gap::<T, Ser>(
                    entries,
                    off,
                    pos,
                    len,
                    one_sided || closes_from_tail(pos, len),
                    after,
                    written,
                    r,
                )
            },
            (Some(off), None) => {
                &&& after == self.with_off(off)
                &&& written == entries
                &&& is_counter_error(r)
            },
            (None, _) => after == self && written == entries && is_counter_error(r),
        }
    }
}

} // verus!
