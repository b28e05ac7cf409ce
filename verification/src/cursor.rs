//! Cursors over a range of positions, and pages of items.
//!
//! A cursor reads the positions from `start` up to, but not including,
//! `end` of a collection, from either side. It steps over positions without
//! reading them, which is what makes a page far into a collection as cheap
//! as the first one.

use crate::error::{is_counter_error, StoreError};
use crate::handle::Handle;
use crate::slots::{move_error, physical};
use crate::traits::Serde;
use vstd::prelude::*;

verus! {

/// The model of a cursor: the handle it reads through, the entries it
/// reads, and the range of positions that is left.
pub struct Cursor {
    pub handle: Handle,
    pub entries: Map<Seq<u8>, Seq<u8>>,
    pub start: u32,
    pub end: u32,
}

/// The position `n` steps behind `start`, or the largest position where
/// that is nearer.
pub open spec fn saturating_step(start: u32, n: usize) -> u32 {
    if start + n > u32::MAX {
        u32::MAX
    } else {
        (start + n) as u32
    }
}

/// The position `n` steps before `end`, or zero where that is nearer.
pub open spec fn saturating_back(end: u32, n: usize) -> u32 {
    if n > end {
        0
    } else {
        (end - n) as u32
    }
}

impl Cursor {
    /// How many positions are left.
    pub open spec fn remaining(self) -> nat {
        if self.end >= self.start {
            (self.end - self.start) as nat
        } else {
            0
        }
    }

    /// The cursor after its front has stepped over `n` positions.
    pub open spec fn skipped(self, n: usize) -> Cursor {
        Cursor { start: saturating_step(self.start, n), ..self }
    }

    /// The cursor after its back has stepped over `n` positions.
    pub open spec fn skipped_back(self, n: usize) -> Cursor {
        Cursor { end: saturating_back(self.end, n), ..self }
    }

    /// How reading at the front ends: with nothing where no position is
    /// left, else with what reading the first position gives, and the
    /// front has stepped over it.
    pub open spec fn steps<T, Ser: Serde<T>>(
        self,
        after: Cursor,
        r: Option<Result<T, StoreError>>,
    ) -> bool {
        if self.start >= self.end {
            after == self && r is None
        } else {
            &&& after == Cursor {
                handle: after.handle,
                start: (self.start + 1) as u32,
                ..self
            }
            &&& r matches Some(item) && self.handle.gets::<T, Ser>(
                self.entries,
                self.start,
                after.handle,
                item,
            )
        }
    }

    /// How reading at the back ends: with nothing where no position is
    /// left, else with what reading the last position gives, and the back
    /// has stepped over it.
    pub open spec fn steps_back<T, Ser: Serde<T>>(
        self,
        after: Cursor,
        r: Option<Result<T, StoreError>>,
    ) -> bool {
        if self.start >= self.end {
            after == self && r is None
        } else {
            &&& after == Cursor { handle: after.handle, end: (self.end - 1) as u32, ..self }
            &&& r matches Some(item) && self.handle.gets::<T, Ser>(
                self.entries,
                (self.end - 1) as u32,
                after.handle,
                item,
            )
        }
    }
}

/// Each item of `page` as the content of a slot that can be read.
pub open spec fn present<T>(page: Seq<T>) -> Seq<Option<T>> {
    Seq::new(page.len(), |i: int| Some(page[i]))
}

/// Where page `start_page` begins in a collection of `len` items, in pages
/// of `size`.
pub open spec fn page_start(len: nat, start_page: u32, size: u32) -> int {
    if start_page * size < len {
        start_page * size
    } else {
        len as int
    }
}

/// Where page `start_page` ends in a collection of `len` items, in pages of
/// `size`.
pub open spec fn page_end(len: nat, start_page: u32, size: u32) -> int {
    if page_start(len, start_page, size) + size < len {
        page_start(len, start_page, size) + size
    } else {
        len as int
    }
}

/// Page `start_page` of `all`, in pages of `size`: what is left of `all`
/// after `start_page * size` items, and of that the first `size` items.
pub open spec fn page_of<A>(all: Seq<A>, start_page: u32, size: u32) -> Seq<A> {
    all.subrange(page_start(all.len(), start_page, size), page_end(all.len(), start_page, size))
}

/// True when every item of the sequence can be read.
pub open spec fn all_present<T>(items: Seq<Option<T>>) -> bool {
    forall|i: int| 0 <= i < items.len() ==> (#[trigger] items[i]) is Some
}

impl Handle {
    /// How fetching page `start_page` ends, in pages of `size`: with the
    /// items of the page where each of them can be read, else with the
    /// error of the first that cannot. The length is looked up, and so is
    /// the offset where the page has a position to read.
    pub open spec fn pages<T, Ser: Serde<T>>(
        self,
        entries: Map<Seq<u8>, Seq<u8>>,
        start_page: u32,
        size: u32,
        after: Handle,
        r: Result<Vec<T>, StoreError>,
    ) -> bool {
        &&& after == match self.len_in(entries) {
            Some(len) => if page_start(len as nat, start_page, size) < page_end(
                len as nat,
                start_page,
                size,
            ) {
                self.sure_of_len(entries).sure_of_off(entries)
            } else {
                self.sure_of_len(entries)
            },
            None => self,
        }
        &&& match (self.len_in(entries), self.off_in(entries)) {
            (Some(len), Some(off)) => {
                let page = page_of(self.items::<T, Ser>(entries), start_page, size);
                if all_present(page) {
                    r matches Ok(found) && present(found@) == page
                } else {
                    exists|k: int|
                        {
                            &&& 0 <= k < page.len()
                            &&& all_present(page.take(k))
                            &&& (#[trigger] page[k]) is None
                            &&& move_error::<T, Ser, Vec<T>>(
                                entries,
                                self.prefix,
                                physical(
                                    off,
                                    (page_start(len as nat, start_page, size) + k) as u32,
                                ),
                                r,
                            )
                        }
                }
            },
            (Some(len), None) => if page_start(len as nat, start_page, size) < page_end(
                len as nat,
                start_page,
                size,
            ) {
                is_counter_error(r)
            } else {
                r matches Ok(found) && found@.len() == 0
            },
            (None, _) => is_counter_error(r),
        }
    }
}

} // verus!
