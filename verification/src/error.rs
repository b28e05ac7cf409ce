//! The failures that the stores report.

use vstd::prelude::*;

verus! {

/// Why an operation on a store did not succeed.
#[derive(Debug, Clone, PartialEq, Eq)]
pub enum StoreError {
    /// A position at or beyond the current length was addressed.
    Bounds,
    /// A pop was attempted on a collection without elements.
    EmptyCollection,
    /// A push was attempted on a collection that already holds the largest
    /// number of elements a 32-bit length can count.
    Full,
    /// No entry is kept under the key of a slot that should hold an item.
    NotFound { kind: String },
    /// Bytes could not be turned into a value of the named type, or a value
    /// of that type could not be turned into bytes.
    Codec { target: String, cause: String },
}

impl StoreError {
    /// True of the errors that report a missing or unreadable entry, as
    /// opposed to a misuse of the collection.
    pub open spec fn is_data_error(self) -> bool {
        self is NotFound || self is Codec
    }
}

/// True of a result that reports that no entry is kept where an item of the
/// type named `kind` should be.
pub open spec fn is_not_found<R>(r: Result<R, StoreError>, kind: Seq<char>) -> bool {
    r matches Err(StoreError::NotFound { kind: named }) && named@ == kind
}

/// True of a result that reports bytes which could not be read as a value
/// of the type named `target`, or a value of that type which could not be
/// written.
pub open spec fn is_codec_error<R>(r: Result<R, StoreError>, target: Seq<char>) -> bool {
    r matches Err(StoreError::Codec { target: named, .. }) && named@ == target
}

/// True of a result that reports a counter which could not be read: the
/// counters are numbers of 32 bits.
pub open spec fn is_counter_error<R>(r: Result<R, StoreError>) -> bool {
    is_codec_error(r, "u32"@)
}

} // verus!
