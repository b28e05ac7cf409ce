//! Two amounts that grow and shrink together: an elastic amount and the
//! base that stands for shares of it.
//!
//! Converting one into the other multiplies and divides at full width,
//! which takes arithmetic on 512 bits. This library holds a 256-bit number
//! as two words and does no arithmetic on it, so it keeps the pair and
//! leaves the conversion to code that computes in a big-integer type.

use crate::tens::U256;
use vstd::prelude::*;

verus! {

/// An elastic amount and its base.
#[derive(Debug, Clone, Copy, PartialEq, Eq, Default)]
pub struct SimpleRebase {
    pub elastic: U256,
    pub base: U256,
}

impl SimpleRebase {
    /// The pair of `elastic` and `base`.
    pub fn new(elastic: U256, base: U256) -> (rebase: Self)
        ensures
            rebase.elastic == elastic,
            rebase.base == base,
    {
        Self { elastic, base }
    }
}

} // verus!
