//! The shared value types of the registry: errors, observer events, and the
//! creature record itself.

use vstd::prelude::*;

verus! {

/// The failures the operation surface reports.  A failed operation has no
/// observable effect on stored state and emits no event.
#[derive(Clone, Copy, PartialEq, Eq, Structural, Debug)]
pub enum Error {
    CountOverflow,
    InvalidCreatureId,
    RequireDifferentParent,
    RequireOwner,
    NotForSale,
    PriceTooLow,
    InsufficientFunds,
}

/// What observers and indexers see of a successful operation.
#[derive(Clone, Copy, PartialEq, Eq, Debug)]
pub enum Event {
    Created { owner: u64, creature: u64 },
    Transferred { from: u64, to: u64, creature: u64 },
    Ask { owner: u64, creature: u64, optional_price: Option<u64> },
    Sold { from: u64, to: u64, creature: u64, price: u64 },
    FundsReserved { account: u64, amount: u64, height: u64 },
    FundsUnreserved { account: u64, amount: u64, height: u64 },
    FundsTransferred { from: u64, to: u64, amount: u64, height: u64 },
}

/// A creature: its immutable genetic payload.  Created only by the creation
/// and breeding operations, never mutated afterwards.
#[derive(PartialEq, Eq, Debug)]
pub struct Creature {
    pub genetics: Vec<u8>,
}

impl Creature {
    /// A genetic payload is always sixteen bytes.
    pub open spec fn wf(self) -> bool {
        self.genetics@.len() == 16
    }
}

} // verus!
