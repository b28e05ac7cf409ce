//! The part of a simulated chain that takes messages between chains.

use vstd::prelude::*;

verus! {

/// Marks a part of a simulated chain that takes messages between chains.
pub trait Ibc {

}

/// What the chain itself may ask of that part.
#[derive(Debug, Clone, PartialEq, Eq)]
pub enum IbcSudo {
    CheckBalance { channel_id: String, address: String },
}

/// The part that a simulated chain has by default: it takes no message.
#[derive(Debug, Default)]
pub struct IbcKeeper {}

impl IbcKeeper {
    /// A keeper.
    pub fn new() -> (keeper: Self)
        ensures
            keeper == (IbcKeeper {  }),
    {
        IbcKeeper {  }
    }
}

impl Ibc for IbcKeeper {

}

} // verus!
