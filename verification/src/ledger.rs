//! The currency collaborator at its interface: per-account free and reserved
//! funds, with reserve, unreserve and transfer.  Consensus, fees and account
//! existence policy of the host environment stay outside; the `keep_alive`
//! flag of `transfer` is carried for interface fidelity and has no further
//! meaning here.

use vstd::prelude::*;

use crate::types::Error;

verus! {

broadcast use vstd::std_specs::hash::group_hash_axioms;

use std::collections::HashMap;

/// One account's funds: the freely usable part and the reserved part.
#[derive(Clone, Copy, PartialEq, Eq, Structural, Debug)]
pub struct Balance {
    pub free: u64,
    pub reserved: u64,
}

/// A minimal ledger over `u64` account identities.
pub struct Ledger {
    accounts: HashMap<u64, Balance>,
}

impl Ledger {
    /// The freely usable funds of `a`; unknown accounts hold nothing.
    pub closed spec fn free_of(self, a: u64) -> u64 {
        if self.accounts@.contains_key(a) {
            self.accounts@[a].free
        } else {
            0
        }
    }

    /// The reserved funds of `a`.
    pub closed spec fn reserved_of(self, a: u64) -> u64 {
        if self.accounts@.contains_key(a) {
            self.accounts@[a].reserved
        } else {
            0
        }
    }

    /// No account's total ever exceeds the balance type's range.
    pub closed spec fn wf(self) -> bool {
        forall|a: u64| #[trigger]
            self.accounts@.contains_key(a) ==> self.accounts@[a].free + self.accounts@[a].reserved
                <= u64::MAX
    }

    /// Whether moving `amount` from `from` to `to` can succeed: the sender
    /// must hold it freely, and the receiver's total must stay representable.
    pub open spec fn can_transfer(self, from: u64, to: u64, amount: u64) -> bool {
        if from == to {
            self.free_of(from) >= amount
        } else {
            self.free_of(from) >= amount && self.free_of(to) + self.reserved_of(to) + amount
                <= u64::MAX
        }
    }

    pub fn new() -> (r: Ledger)
        ensures
            r.wf(),
            forall|a: u64| #[trigger] r.free_of(a) == 0,
            forall|a: u64| #[trigger] r.reserved_of(a) == 0,
    {
        Ledger { accounts: HashMap::new() }
    }

    fn balance(&self, a: u64) -> (r: Balance)
        ensures
            r.free == self.free_of(a),
            r.reserved == self.reserved_of(a),
    {
        match self.accounts.get(&a) {
            Some(b) => *b,
            None => Balance { free: 0, reserved: 0 },
        }
    }

    /// The freely usable funds of `a`.
    pub fn free(&self, a: u64) -> (r: u64)
        ensures
            r == self.free_of(a),
    {
        self.balance(a).free
    }

    /// The reserved funds of `a`.
    pub fn reserved(&self, a: u64) -> (r: u64)
        ensures
            r == self.reserved_of(a),
    {
        self.balance(a).reserved
    }

    /// Endows `a` with `amount` of free funds (initialization of balances,
    /// which the host environment performs at genesis).
    pub fn endow(&mut self, a: u64, amount: u64)
        requires
            old(self).wf(),
            old(self).free_of(a) + old(self).reserved_of(a) + amount <= u64::MAX,
        ensures
            final(self).wf(),
            final(self).free_of(a) == old(self).free_of(a) + amount,
            final(self).reserved_of(a) == old(self).reserved_of(a),
            forall|b: u64| b != a ==> final(self).free_of(b) == old(self).free_of(b)
                && final(self).reserved_of(b) == old(self).reserved_of(b),
    {
        let bal = self.balance(a);
        self.accounts.insert(a, Balance { free: bal.free + amount, reserved: bal.reserved });
    }

    /// Moves `amount` of `a`'s funds from free to reserved; fails, changing
    /// nothing, exactly when the free funds do not cover it.
    pub fn reserve(&mut self, a: u64, amount: u64) -> (r: Result<(), Error>)
        requires
            old(self).wf(),
        ensures
            final(self).wf(),
            r is Ok <==> old(self).free_of(a) >= amount,
            r is Err ==> *final(self) == *old(self) && r == Err::<(), Error>(
                Error::InsufficientFunds,
            ),
            r is Ok ==> final(self).free_of(a) == old(self).free_of(a) - amount
                && final(self).reserved_of(a) == old(self).reserved_of(a) + amount,
            forall|b: u64| b != a ==> final(self).free_of(b) == old(self).free_of(b)
                && final(self).reserved_of(b) == old(self).reserved_of(b),
    {
        let bal = self.balance(a);
        if bal.free < amount {
            return Err(Error::InsufficientFunds);
        }
        self.accounts.insert(a, Balance { free: bal.free - amount, reserved: bal.reserved + amount });
        Ok(())
    }

    /// Moves back up to `amount` of `a`'s reserved funds to free; never fails,
    /// and over-unreserving is capped at what is actually reserved.
    pub fn unreserve(&mut self, a: u64, amount: u64)
        requires
            old(self).wf(),
        ensures
            final(self).wf(),
            final(self).free_of(a) == old(self).free_of(a) + (if amount <= old(self).reserved_of(a) {
                amount
            } else {
                old(self).reserved_of(a)
            }),
            final(self).reserved_of(a) == old(self).reserved_of(a) - (if amount
                <= old(self).reserved_of(a) {
                amount
            } else {
                old(self).reserved_of(a)
            }),
            forall|b: u64| b != a ==> final(self).free_of(b) == old(self).free_of(b)
                && final(self).reserved_of(b) == old(self).reserved_of(b),
    {
        let bal = self.balance(a);
        let m = if amount <= bal.reserved {
            amount
        } else {
            bal.reserved
        };
        self.accounts.insert(a, Balance { free: bal.free + m, reserved: bal.reserved - m });
    }

    /// Moves `amount` of free funds from `from` to `to`; fails, changing
    /// nothing, exactly when `can_transfer` does not hold.
    pub fn transfer(&mut self, from: u64, to: u64, amount: u64, keep_alive: bool) -> (r: Result<
        (),
        Error,
    >)
        requires
            old(self).wf(),
        ensures
            final(self).wf(),
            r is Ok <==> old(self).can_transfer(from, to, amount),
            r is Err ==> *final(self) == *old(self) && r == Err::<(), Error>(
                Error::InsufficientFunds,
            ),
            r is Ok && from == to ==> *final(self) == *old(self),
            r is Ok && from != to ==> {
                &&& final(self).free_of(from) == old(self).free_of(from) - amount
                &&& final(self).free_of(to) == old(self).free_of(to) + amount
                &&& final(self).reserved_of(from) == old(self).reserved_of(from)
                &&& final(self).reserved_of(to) == old(self).reserved_of(to)
            },
            forall|b: u64| b != from && b != to ==> final(self).free_of(b) == old(self).free_of(b)
                && final(self).reserved_of(b) == old(self).reserved_of(b),
    {
        let _ = keep_alive;
        let bal_from = self.balance(from);
        if bal_from.free < amount {
            return Err(Error::InsufficientFunds);
        }
        if from == to {
            return Ok(());
        }
        let bal_to = self.balance(to);
        if (bal_to.free as u128) + (bal_to.reserved as u128) + (amount as u128) > (u64::MAX
            as u128) {
            return Err(Error::InsufficientFunds);
        }
        self.accounts.insert(
            from,
            Balance { free: bal_from.free - amount, reserved: bal_from.reserved },
        );
        self.accounts.insert(to, Balance { free: bal_to.free + amount, reserved: bal_to.reserved });
        Ok(())
    }
}

} // verus!
