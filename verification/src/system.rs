//! The operation surface over the creature registry: creation, breeding,
//! ownership transfer, the ask/buy marketplace flow, and the staking wrappers
//! around the ledger.  The authenticated caller identity and all randomness
//! (the breeding selector) are supplied by the host environment as plain
//! arguments; every operation is all-or-nothing and emits its events only on
//! success.

use vstd::prelude::*;

use crate::genetics::combine_genetics;
use crate::genetics::combine_seq;
use crate::graph::RelationshipGraph;
use crate::graph::prepend_new;
use crate::ledger::Ledger;
use crate::link::remove_elem;
use crate::types::Creature;
use crate::types::Error;
use crate::types::Event;

verus! {

broadcast use vstd::std_specs::hash::group_hash_axioms;

use std::collections::HashMap;

/// The stake reserved on creation and breeding and moved along on transfer.
pub const STAKE: u64 = 1000;

/// The whole persisted state: the creature records and id counter, the five
/// relationship indices, the price map, the ledger, the event log and the
/// current block height.
pub struct CreatureSystem {
    creatures: HashMap<u64, Creature>,
    counter: u64,
    graph: RelationshipGraph,
    prices: HashMap<u64, u64>,
    ledger: Ledger,
    events: Vec<Event>,
    height: u64,
}

/// The creature records and the id counter are untouched.
pub open spec fn creatures_unchanged(pre: CreatureSystem, post: CreatureSystem) -> bool {
    &&& post.next_id() == pre.next_id()
    &&& forall|c: u64| #[trigger] post.has_creature(c) == pre.has_creature(c)
    &&& forall|c: u64| pre.has_creature(c) ==> #[trigger] post.genetics_of(c) == pre.genetics_of(c)
}

/// No ownership list and no owner changed.
pub open spec fn ownership_unchanged(pre: CreatureSystem, post: CreatureSystem) -> bool {
    &&& forall|a: u64| #[trigger] post.owned_of(a) == pre.owned_of(a)
    &&& forall|c: u64| #[trigger] post.owner_of(c) == pre.owner_of(c)
}

/// No lineage list changed.
pub open spec fn lineage_unchanged(pre: CreatureSystem, post: CreatureSystem) -> bool {
    &&& forall|c: u64| #[trigger] post.parents_of(c) == pre.parents_of(c)
    &&& forall|c: u64| #[trigger] post.mates_of(c) == pre.mates_of(c)
    &&& forall|c: u64| #[trigger] post.children_of(c) == pre.children_of(c)
    &&& forall|c: u64| #[trigger] post.siblings_of(c) == pre.siblings_of(c)
}

/// No asking price changed.
pub open spec fn prices_unchanged(pre: CreatureSystem, post: CreatureSystem) -> bool {
    forall|c: u64| #[trigger] post.price_of(c) == pre.price_of(c)
}

/// No balance changed.
pub open spec fn ledger_unchanged(pre: CreatureSystem, post: CreatureSystem) -> bool {
    forall|a: u64| #[trigger] post.free_of(a) == pre.free_of(a) && #[trigger] post.reserved_of(a)
        == pre.reserved_of(a)
}

impl CreatureSystem {
    /// The id the next created or bred creature will receive.
    pub closed spec fn next_id(self) -> u64 {
        self.counter
    }

    pub closed spec fn has_creature(self, c: u64) -> bool {
        self.creatures@.contains_key(c)
    }

    pub closed spec fn genetics_of(self, c: u64) -> Seq<u8> {
        self.creatures@[c].genetics@
    }

    pub closed spec fn owned_of(self, a: u64) -> Seq<u64> {
        self.graph.owned_of(a)
    }

    pub closed spec fn owner_of(self, c: u64) -> Option<u64> {
        self.graph.owner_of(c)
    }

    pub closed spec fn parents_of(self, c: u64) -> Seq<u64> {
        self.graph.parents_of(c)
    }

    pub closed spec fn mates_of(self, c: u64) -> Seq<u64> {
        self.graph.mates_of(c)
    }

    pub closed spec fn children_of(self, c: u64) -> Seq<u64> {
        self.graph.children_of(c)
    }

    pub closed spec fn siblings_of(self, c: u64) -> Seq<u64> {
        self.graph.siblings_of(c)
    }

    pub closed spec fn price_of(self, c: u64) -> Option<u64> {
        if self.prices@.contains_key(c) {
            Some(self.prices@[c])
        } else {
            None
        }
    }

    pub closed spec fn free_of(self, a: u64) -> u64 {
        self.ledger.free_of(a)
    }

    pub closed spec fn reserved_of(self, a: u64) -> u64 {
        self.ledger.reserved_of(a)
    }

    /// Whether the ledger can move `amount` from `from` to `to`.
    pub closed spec fn can_pay(self, from: u64, to: u64, amount: u64) -> bool {
        self.ledger.can_transfer(from, to, amount)
    }

    /// The events emitted so far, oldest first.
    pub closed spec fn log(self) -> Seq<Event> {
        self.events@
    }

    pub closed spec fn cur_height(self) -> u64 {
        self.height
    }

    /// Everything a state-transition may not corrupt: well-formed indices and
    /// ledger, ids below the counter, every creature owned by exactly the
    /// account its ownership list says, and prices only on existing creatures.
    pub closed spec fn wf(self) -> bool {
        &&& self.graph.wf()
        &&& self.ledger.wf()
        &&& self.graph.owned_elems_below(self.counter as int)
        &&& self.graph.lineage_below(self.counter as int)
        &&& forall|c: u64| #[trigger]
            self.creatures@.contains_key(c) ==> c < self.counter && self.creatures@[c].wf()
        &&& forall|c: u64| #[trigger]
            self.creatures@.contains_key(c) ==> self.graph.owner_map().contains_key(c)
        &&& forall|c: u64| #[trigger]
            self.graph.owner_map().contains_key(c) ==> self.creatures@.contains_key(c)
        &&& forall|c: u64| #[trigger]
            self.prices@.contains_key(c) ==> self.creatures@.contains_key(c)
    }

    /// An empty store: no creatures, counter at zero, empty indices, empty
    /// ledger and log.
    pub fn new() -> (r: CreatureSystem)
        ensures
            r.wf(),
            r.next_id() == 0,
            r.log() == Seq::<Event>::empty(),
            r.cur_height() == 0,
            forall|c: u64| !(#[trigger] r.has_creature(c)),
            forall|a: u64| #[trigger] r.owned_of(a) == Seq::<u64>::empty(),
            forall|c: u64| #[trigger] r.owner_of(c) is None,
            forall|c: u64| #[trigger] r.parents_of(c) == Seq::<u64>::empty(),
            forall|c: u64| #[trigger] r.mates_of(c) == Seq::<u64>::empty(),
            forall|c: u64| #[trigger] r.children_of(c) == Seq::<u64>::empty(),
            forall|c: u64| #[trigger] r.siblings_of(c) == Seq::<u64>::empty(),
            forall|c: u64| #[trigger] r.price_of(c) is None,
            forall|a: u64| #[trigger] r.free_of(a) == 0,
            forall|a: u64| #[trigger] r.reserved_of(a) == 0,
    {
        CreatureSystem {
            creatures: HashMap::new(),
            counter: 0,
            graph: RelationshipGraph::new(),
            prices: HashMap::new(),
            ledger: Ledger::new(),
            events: Vec::new(),
            height: 0,
        }
    }

    /// Sets the current block height (driven by the host environment).
    pub fn set_height(&mut self, h: u64)
        requires
            old(self).wf(),
        ensures
            final(self).wf(),
            final(self).cur_height() == h,
            creatures_unchanged(*old(self), *final(self)),
            ownership_unchanged(*old(self), *final(self)),
            lineage_unchanged(*old(self), *final(self)),
            prices_unchanged(*old(self), *final(self)),
            ledger_unchanged(*old(self), *final(self)),
            final(self).log() == old(self).log(),
    {
        self.height = h;
    }

    /// Endows `a` with free funds (genesis balances, supplied by the host).
    pub fn endow(&mut self, a: u64, amount: u64)
        requires
            old(self).wf(),
            old(self).free_of(a) + old(self).reserved_of(a) + amount <= u64::MAX,
        ensures
            final(self).wf(),
            final(self).free_of(a) == old(self).free_of(a) + amount,
            final(self).reserved_of(a) == old(self).reserved_of(a),
            forall|b: u64| b != a ==> final(self).free_of(b) == old(self).free_of(b)
                && final(self).reserved_of(b) == old(self).reserved_of(b),
            creatures_unchanged(*old(self), *final(self)),
            ownership_unchanged(*old(self), *final(self)),
            lineage_unchanged(*old(self), *final(self)),
            prices_unchanged(*old(self), *final(self)),
            final(self).log() == old(self).log(),
            final(self).cur_height() == old(self).cur_height(),
    {
        self.ledger.endow(a, amount);
    }

    /// Creates a creature with the given genetic payload (generated by the
    /// host's randomness source) under `sender`, reserving the stake.
    pub fn create(&mut self, sender: u64, dna: Vec<u8>) -> (r: Result<u64, Error>)
        requires
            old(self).wf(),
            dna@.len() == 16,
        ensures
            final(self).wf(),
            r is Ok <==> (old(self).next_id() < u64::MAX && old(self).free_of(sender) >= STAKE),
            old(self).next_id() == u64::MAX ==> r == Err::<u64, Error>(Error::CountOverflow),
            old(self).next_id() < u64::MAX && old(self).free_of(sender) < STAKE ==> r
                == Err::<u64, Error>(Error::InsufficientFunds),
            r is Err ==> *final(self) == *old(self),
            r is Ok ==> r == Ok::<u64, Error>(old(self).next_id()),
            r is Ok ==> {
                let id = old(self).next_id();
                &&& final(self).next_id() == id + 1
                &&& final(self).has_creature(id)
                &&& final(self).genetics_of(id) == dna@
                &&& forall|c: u64| c != id ==> final(self).has_creature(c) == old(self).has_creature(c)
                &&& forall|c: u64| c != id && old(self).has_creature(c) ==> final(self).genetics_of(c) == old(self).genetics_of(c)
                &&& final(self).owned_of(sender) == seq![id] + old(self).owned_of(sender)
                &&& forall|a: u64| a != sender ==> final(self).owned_of(a) == old(self).owned_of(a)
                &&& final(self).owner_of(id) == Some(sender)
                &&& forall|c: u64| c != id ==> final(self).owner_of(c) == old(self).owner_of(c)
                &&& final(self).free_of(sender) == old(self).free_of(sender) - STAKE
                &&& final(self).reserved_of(sender) == old(self).reserved_of(sender) + STAKE
                &&& forall|a: u64| a != sender ==> final(self).free_of(a) == old(self).free_of(a)
                    && final(self).reserved_of(a) == old(self).reserved_of(a)
                &&& lineage_unchanged(*old(self), *final(self))
                &&& prices_unchanged(*old(self), *final(self))
                &&& final(self).log() == old(self).log() + seq![
                    (Event::Created { owner: sender, creature: id }),
                    (Event::FundsReserved {
                        account: sender,
                        amount: STAKE,
                        height: old(self).cur_height(),
                    }),
                ]
                &&& final(self).cur_height() == old(self).cur_height()
            },
    {
        if self.counter == u64::MAX {
            return Err(Error::CountOverflow);
        }
        let id = self.counter;
        match self.ledger.reserve(sender, STAKE) {
            Err(e) => {
                return Err(e);
            },
            Ok(()) => {},
        }
        self.creatures.insert(id, Creature { genetics: dna });
        self.counter = id + 1;
        proof {
            // the fresh id is not yet owned by anyone
            if self.graph.owner_map().contains_key(id) {
                assert(old(self).creatures@.contains_key(id));
            }
        }
        self.graph.insert_owned(sender, id);
        self.events.push(Event::Created { owner: sender, creature: id });
        self.events.push(
            Event::FundsReserved { account: sender, amount: STAKE, height: self.height },
        );
        proof {
            old(self).graph.lemma_below_mono(id as int, id as int + 1);
            assert(self.log() =~= old(self).log() + seq![
                (Event::Created { owner: sender, creature: id }),
                (Event::FundsReserved {
                    account: sender,
                    amount: STAKE,
                    height: old(self).cur_height(),
                }),
            ]);
        }
        Ok(id)
    }

    /// The order in which the breeding preconditions are checked, and the
    /// failure each one reports.
    pub open spec fn breed_err(self, sender: u64, id1: u64, id2: u64) -> Option<Error> {
        if !self.has_creature(id1) || !self.has_creature(id2) {
            Some(Error::InvalidCreatureId)
        } else if !self.owned_of(sender).contains(id1) || !self.owned_of(sender).contains(id2) {
            Some(Error::RequireOwner)
        } else if id1 == id2 {
            Some(Error::RequireDifferentParent)
        } else if self.next_id() == u64::MAX {
            Some(Error::CountOverflow)
        } else if self.free_of(sender) < STAKE {
            Some(Error::InsufficientFunds)
        } else {
            None
        }
    }

    /// Breeds the two parents under `sender`: allocates the next id, combines
    /// the parents' genetics under the host-supplied selector, registers
    /// ownership, and updates the four lineage indices.  The child's siblings
    /// are the parents' children as they stood before this breeding, so the
    /// child never lists itself.
    pub fn breed(&mut self, sender: u64, id1: u64, id2: u64, selector: Vec<u8>) -> (r: Result<
        u64,
        Error,
    >)
        requires
            old(self).wf(),
            selector@.len() == 16,
        ensures
            final(self).wf(),
            r is Ok <==> old(self).breed_err(sender, id1, id2) is None,
            old(self).breed_err(sender, id1, id2) matches Some(e) ==> r == Err::<u64, Error>(e),
            r is Err ==> *final(self) == *old(self),
            r is Ok ==> r == Ok::<u64, Error>(old(self).next_id()),
            r is Ok ==> {
                let id = old(self).next_id();
                &&& final(self).next_id() == id + 1
                &&& final(self).has_creature(id)
                &&& final(self).genetics_of(id) == combine_seq(
                    old(self).genetics_of(id1),
                    old(self).genetics_of(id2),
                    selector@,
                )
                &&& forall|c: u64| c != id ==> final(self).has_creature(c) == old(self).has_creature(c)
                &&& forall|c: u64| c != id && old(self).has_creature(c) ==> final(self).genetics_of(c) == old(self).genetics_of(c)
                &&& final(self).owned_of(sender) == seq![id] + old(self).owned_of(sender)
                &&& forall|a: u64| a != sender ==> final(self).owned_of(a) == old(self).owned_of(a)
                &&& final(self).owner_of(id) == Some(sender)
                &&& forall|c: u64| c != id ==> final(self).owner_of(c) == old(self).owner_of(c)
                &&& final(self).parents_of(id) == seq![id2, id1]
                &&& forall|c: u64| c != id ==> final(self).parents_of(c) == old(self).parents_of(c)
                &&& final(self).mates_of(id1) == (if old(self).mates_of(id1).contains(id2) {
                    old(self).mates_of(id1)
                } else {
                    seq![id2] + old(self).mates_of(id1)
                })
                &&& final(self).mates_of(id2) == (if old(self).mates_of(id2).contains(id1) {
                    old(self).mates_of(id2)
                } else {
                    seq![id1] + old(self).mates_of(id2)
                })
                &&& forall|c: u64| c != id1 && c != id2 ==> final(self).mates_of(c) == old(self).mates_of(c)
                &&& final(self).children_of(id1) == seq![id] + old(self).children_of(id1)
                &&& final(self).children_of(id2) == seq![id] + old(self).children_of(id2)
                &&& forall|c: u64| c != id1 && c != id2 ==> final(self).children_of(c) == old(self).children_of(c)
                &&& final(self).siblings_of(id) == prepend_new(
                    prepend_new(Seq::empty(), old(self).children_of(id1)),
                    old(self).children_of(id2),
                )
                &&& forall|w: u64| final(self).siblings_of(id).contains(w) <==> (old(self).children_of(id1).contains(w) || old(self).children_of(id2).contains(w))
                &&& !final(self).siblings_of(id).contains(id)
                &&& forall|c: u64| c != id ==> final(self).siblings_of(c) == old(self).siblings_of(c)
                &&& final(self).free_of(sender) == old(self).free_of(sender) - STAKE
                &&& final(self).reserved_of(sender) == old(self).reserved_of(sender) + STAKE
                &&& forall|a: u64| a != sender ==> final(self).free_of(a) == old(self).free_of(a)
                    && final(self).reserved_of(a) == old(self).reserved_of(a)
                &&& prices_unchanged(*old(self), *final(self))
                &&& final(self).log() == old(self).log() + seq![
                    (Event::Created { owner: sender, creature: id }),
                    (Event::FundsReserved {
                        account: sender,
                        amount: STAKE,
                        height: old(self).cur_height(),
                    }),
                ]
                &&& final(self).cur_height() == old(self).cur_height()
            },
    {
        if !self.creatures.contains_key(&id1) {
            return Err(Error::InvalidCreatureId);
        }
        if !self.creatures.contains_key(&id2) {
            return Err(Error::InvalidCreatureId);
        }
        if !self.graph.contains_owned(sender, id1) {
            return Err(Error::RequireOwner);
        }
        if !self.graph.contains_owned(sender, id2) {
            return Err(Error::RequireOwner);
        }
        if id1 == id2 {
            return Err(Error::RequireDifferentParent);
        }
        if self.counter == u64::MAX {
            return Err(Error::CountOverflow);
        }
        let id = self.counter;
        match self.ledger.reserve(sender, STAKE) {
            Err(e) => {
                return Err(e);
            },
            Ok(()) => {},
        }
        let g1 = copy_bytes(&self.creatures.get(&id1).unwrap().genetics);
        let g2 = copy_bytes(&self.creatures.get(&id2).unwrap().genetics);
        let child = combine_genetics(&g1, &g2, &selector);
        self.creatures.insert(id, Creature { genetics: child });
        self.counter = id + 1;
        proof {
            if self.graph.owner_map().contains_key(id) {
                assert(old(self).creatures@.contains_key(id));
            }
        }
        self.graph.insert_owned(sender, id);
        self.graph.register_breeding(id, id1, id2);
        self.events.push(Event::Created { owner: sender, creature: id });
        self.events.push(
            Event::FundsReserved { account: sender, amount: STAKE, height: self.height },
        );
        proof {
            old(self).graph.lemma_below_mono(id as int, id as int + 1);
            assert(self.log() =~= old(self).log() + seq![
                (Event::Created { owner: sender, creature: id }),
                (Event::FundsReserved {
                    account: sender,
                    amount: STAKE,
                    height: old(self).cur_height(),
                }),
            ]);
        }
        Ok(id)
    }

    /// The order in which the transfer preconditions are checked.
    pub open spec fn transfer_err(self, sender: u64, to: u64, creature: u64) -> Option<Error> {
        if !self.owned_of(sender).contains(creature) {
            Some(Error::RequireOwner)
        } else if !self.can_pay(sender, to, STAKE) {
            Some(Error::InsufficientFunds)
        } else {
            None
        }
    }

    /// Transfers `creature` from `sender` to `to`, moving the stake along:
    /// the ledger is charged before any index is touched, so a ledger failure
    /// leaves the indices untouched.
    pub fn transfer(&mut self, sender: u64, to: u64, creature: u64) -> (r: Result<(), Error>)
        requires
            old(self).wf(),
        ensures
            final(self).wf(),
            r is Ok <==> old(self).transfer_err(sender, to, creature) is None,
            old(self).transfer_err(sender, to, creature) matches Some(e) ==> r == Err::<(), Error>(
                e,
            ),
            r is Err ==> *final(self) == *old(self),
            r is Ok ==> {
                &&& final(self).owner_of(creature) == Some(to)
                &&& forall|c: u64| c != creature ==> final(self).owner_of(c) == old(self).owner_of(c)
                &&& (to != sender ==> final(self).owned_of(sender) == remove_elem(
                    old(self).owned_of(sender),
                    creature,
                ) && final(self).owned_of(to) == seq![creature] + old(self).owned_of(to))
                &&& (to == sender ==> final(self).owned_of(to) == seq![creature] + remove_elem(
                    old(self).owned_of(to),
                    creature,
                ))
                &&& forall|a: u64| a != sender && a != to ==> final(self).owned_of(a) == old(self).owned_of(a)
                &&& (to != sender ==> final(self).free_of(sender) == old(self).free_of(sender)
                    - STAKE && final(self).free_of(to) == old(self).free_of(to) + STAKE)
                &&& (to == sender ==> ledger_unchanged(*old(self), *final(self)))
                &&& final(self).reserved_of(sender) == old(self).reserved_of(sender)
                &&& final(self).reserved_of(to) == old(self).reserved_of(to)
                &&& forall|a: u64| a != sender && a != to ==> final(self).free_of(a) == old(self).free_of(a) && final(self).reserved_of(a) == old(self).reserved_of(a)
                &&& creatures_unchanged(*old(self), *final(self))
                &&& lineage_unchanged(*old(self), *final(self))
                &&& prices_unchanged(*old(self), *final(self))
                &&& final(self).log() == old(self).log() + seq![
                    (Event::Transferred { from: sender, to, creature }),
                    (Event::FundsTransferred {
                        from: sender,
                        to,
                        amount: STAKE,
                        height: old(self).cur_height(),
                    }),
                ]
                &&& final(self).cur_height() == old(self).cur_height()
            },
    {
        if !self.graph.contains_owned(sender, creature) {
            return Err(Error::RequireOwner);
        }
        match self.ledger.transfer(sender, to, STAKE, false) {
            Err(e) => {
                return Err(e);
            },
            Ok(()) => {},
        }
        let moved = self.graph.transfer(creature, sender, to);
        proof {
            assert(moved is Ok);
        }
        self.events.push(Event::Transferred { from: sender, to, creature });
        self.events.push(
            Event::FundsTransferred { from: sender, to, amount: STAKE, height: self.height },
        );
        proof {
            assert(self.log() =~= old(self).log() + seq![
                (Event::Transferred { from: sender, to, creature }),
                (Event::FundsTransferred {
                    from: sender,
                    to,
                    amount: STAKE,
                    height: old(self).cur_height(),
                }),
            ]);
            // the moved creature keeps existing, so the owner map domain is unchanged
            old(self).graph.lemma_owner_agrees(sender, creature);
            assert forall|c: u64| #[trigger] self.graph.owner_map().contains_key(c) implies
                self.creatures@.contains_key(c) by {
                if c != creature {
                    assert(old(self).graph.owner_map().contains_key(c));
                }
            }
        }
        Ok(())
    }

    /// Puts `creature` up for sale at `new_price`, or delists it with `None`;
    /// only the owner may do so.
    pub fn ask(&mut self, sender: u64, creature: u64, new_price: Option<u64>) -> (r: Result<
        (),
        Error,
    >)
        requires
            old(self).wf(),
        ensures
            final(self).wf(),
            r is Ok <==> old(self).owned_of(sender).contains(creature),
            r is Err ==> *final(self) == *old(self) && r == Err::<(), Error>(Error::RequireOwner),
            r is Ok ==> {
                &&& final(self).price_of(creature) == new_price
                &&& forall|c: u64| c != creature ==> final(self).price_of(c) == old(self).price_of(c)
                &&& creatures_unchanged(*old(self), *final(self))
                &&& ownership_unchanged(*old(self), *final(self))
                &&& lineage_unchanged(*old(self), *final(self))
                &&& ledger_unchanged(*old(self), *final(self))
                &&& final(self).log() == old(self).log() + seq![
                    (Event::Ask { owner: sender, creature, optional_price: new_price }),
                ]
                &&& final(self).cur_height() == old(self).cur_height()
            },
    {
        if !self.graph.contains_owned(sender, creature) {
            return Err(Error::RequireOwner);
        }
        match new_price {
            Some(p) => {
                self.prices.insert(creature, p);
            },
            None => {
                self.prices.remove(&creature);
            },
        }
        self.events.push(Event::Ask { owner: sender, creature, optional_price: new_price });
        proof {
            // a price entry is only ever set on an existing, owned creature
            old(self).graph.lemma_owner_agrees(sender, creature);
            assert(self.log() =~= old(self).log() + seq![
                (Event::Ask { owner: sender, creature, optional_price: new_price }),
            ]);
        }
        Ok(())
    }

    /// The order in which the purchase preconditions are checked.
    pub open spec fn buy_err(self, sender: u64, creature: u64, max_price: u64) -> Option<Error> {
        match self.owner_of(creature) {
            None => Some(Error::InvalidCreatureId),
            Some(owner) => match self.price_of(creature) {
                None => Some(Error::NotForSale),
                Some(p) => if max_price < p {
                    Some(Error::PriceTooLow)
                } else if !self.can_pay(sender, owner, p) {
                    Some(Error::InsufficientFunds)
                } else {
                    None
                },
            },
        }
    }

    /// Buys `creature` at its asking price, if that is at most `max_price`:
    /// the ledger transfer is ordered before any index mutation, so a ledger
    /// failure leaves ownership and prices untouched.
    pub fn buy(&mut self, sender: u64, creature: u64, max_price: u64) -> (r: Result<(), Error>)
        requires
            old(self).wf(),
        ensures
            final(self).wf(),
            r is Ok <==> old(self).buy_err(sender, creature, max_price) is None,
            old(self).buy_err(sender, creature, max_price) matches Some(e) ==> r == Err::<
                (),
                Error,
            >(e),
            r is Err ==> *final(self) == *old(self),
            r is Ok ==> {
                let owner = old(self).owner_of(creature).unwrap();
                let p = old(self).price_of(creature).unwrap();
                &&& final(self).owner_of(creature) == Some(sender)
                &&& forall|c: u64| c != creature ==> final(self).owner_of(c) == old(self).owner_of(c)
                &&& (owner != sender ==> final(self).owned_of(owner) == remove_elem(
                    old(self).owned_of(owner),
                    creature,
                ) && final(self).owned_of(sender) == seq![creature] + old(self).owned_of(sender))
                &&& (owner == sender ==> final(self).owned_of(sender) == seq![creature]
                    + remove_elem(old(self).owned_of(sender), creature))
                &&& forall|a: u64| a != owner && a != sender ==> final(self).owned_of(a) == old(self).owned_of(a)
                &&& final(self).price_of(creature) is None
                &&& forall|c: u64| c != creature ==> final(self).price_of(c) == old(self).price_of(c)
                &&& (owner != sender ==> final(self).free_of(sender) == old(self).free_of(sender)
                    - p && final(self).free_of(owner) == old(self).free_of(owner) + p)
                &&& (owner == sender ==> ledger_unchanged(*old(self), *final(self)))
                &&& final(self).reserved_of(sender) == old(self).reserved_of(sender)
                &&& final(self).reserved_of(owner) == old(self).reserved_of(owner)
                &&& forall|a: u64| a != owner && a != sender ==> final(self).free_of(a) == old(self).free_of(a) && final(self).reserved_of(a) == old(self).reserved_of(a)
                &&& creatures_unchanged(*old(self), *final(self))
                &&& lineage_unchanged(*old(self), *final(self))
                &&& final(self).log() == old(self).log() + seq![
                    (Event::Sold { from: owner, to: sender, creature, price: p }),
                ]
                &&& final(self).cur_height() == old(self).cur_height()
            },
    {
        let owner = match self.graph.owner(creature) {
            None => {
                return Err(Error::InvalidCreatureId);
            },
            Some(o) => o,
        };
        let price = match self.prices.get(&creature) {
            None => {
                return Err(Error::NotForSale);
            },
            Some(p) => *p,
        };
        if max_price < price {
            return Err(Error::PriceTooLow);
        }
        match self.ledger.transfer(sender, owner, price, true) {
            Err(e) => {
                return Err(e);
            },
            Ok(()) => {},
        }
        self.prices.remove(&creature);
        proof {
            self.graph.lemma_owner_agrees(owner, creature);
        }
        let moved = self.graph.transfer(creature, owner, sender);
        proof {
            assert(moved is Ok);
        }
        self.events.push(Event::Sold { from: owner, to: sender, creature, price });
        proof {
            assert(self.log() =~= old(self).log() + seq![
                (Event::Sold { from: owner, to: sender, creature, price }),
            ]);
            assert forall|c: u64| #[trigger] self.graph.owner_map().contains_key(c) implies
                self.creatures@.contains_key(c) by {
                if c != creature {
                    assert(old(self).graph.owner_map().contains_key(c));
                }
            }
        }
        Ok(())
    }

    /// Reserves `amount` of the caller's free funds.
    pub fn reserve_funds(&mut self, sender: u64, amount: u64) -> (r: Result<(), Error>)
        requires
            old(self).wf(),
        ensures
            final(self).wf(),
            r is Ok <==> old(self).free_of(sender) >= amount,
            r is Err ==> *final(self) == *old(self) && r == Err::<(), Error>(
                Error::InsufficientFunds,
            ),
            r is Ok ==> {
                &&& final(self).free_of(sender) == old(self).free_of(sender) - amount
                &&& final(self).reserved_of(sender) == old(self).reserved_of(sender) + amount
                &&& forall|b: u64| b != sender ==> final(self).free_of(b) == old(self).free_of(b)
                    && final(self).reserved_of(b) == old(self).reserved_of(b)
                &&& creatures_unchanged(*old(self), *final(self))
                &&& ownership_unchanged(*old(self), *final(self))
                &&& lineage_unchanged(*old(self), *final(self))
                &&& prices_unchanged(*old(self), *final(self))
                &&& final(self).log() == old(self).log() + seq![
                    (Event::FundsReserved {
                        account: sender,
                        amount,
                        height: old(self).cur_height(),
                    }),
                ]
            },
    {
        match self.ledger.reserve(sender, amount) {
            Err(e) => {
                return Err(e);
            },
            Ok(()) => {},
        }
        self.events.push(
            Event::FundsReserved { account: sender, amount, height: self.height },
        );
        proof {
            assert(self.log() =~= old(self).log() + seq![
                (Event::FundsReserved { account: sender, amount, height: old(self).cur_height() }),
            ]);
        }
        Ok(())
    }

    /// Releases up to `amount` of the caller's reserved funds; never fails,
    /// and over-unreserving is capped at what is actually reserved.
    pub fn unreserve_funds(&mut self, sender: u64, amount: u64)
        requires
            old(self).wf(),
        ensures
            final(self).wf(),
            final(self).free_of(sender) == old(self).free_of(sender) + (if amount <= old(self).reserved_of(sender) {
                amount
            } else {
                old(self).reserved_of(sender)
            }),
            final(self).reserved_of(sender) == old(self).reserved_of(sender) - (if amount <= old(self).reserved_of(sender) {
                amount
            } else {
                old(self).reserved_of(sender)
            }),
            forall|b: u64| b != sender ==> final(self).free_of(b) == old(self).free_of(b)
                && final(self).reserved_of(b) == old(self).reserved_of(b),
            creatures_unchanged(*old(self), *final(self)),
            ownership_unchanged(*old(self), *final(self)),
            lineage_unchanged(*old(self), *final(self)),
            prices_unchanged(*old(self), *final(self)),
            final(self).log() == old(self).log() + seq![
                (Event::FundsUnreserved { account: sender, amount, height: old(self).cur_height() }),
            ],
    {
        self.ledger.unreserve(sender, amount);
        self.events.push(
            Event::FundsUnreserved { account: sender, amount, height: self.height },
        );
        proof {
            assert(self.log() =~= old(self).log() + seq![
                (Event::FundsUnreserved {
                    account: sender,
                    amount,
                    height: old(self).cur_height(),
                }),
            ]);
        }
    }

    /// Transfers `amount` of free funds from the caller to `dest`.
    pub fn transfer_funds(&mut self, sender: u64, dest: u64, amount: u64) -> (r: Result<(), Error>)
        requires
            old(self).wf(),
        ensures
            final(self).wf(),
            r is Ok <==> old(self).can_pay(sender, dest, amount),
            r is Err ==> *final(self) == *old(self) && r == Err::<(), Error>(
                Error::InsufficientFunds,
            ),
            r is Ok ==> {
                &&& (dest != sender ==> final(self).free_of(sender) == old(self).free_of(sender)
                    - amount && final(self).free_of(dest) == old(self).free_of(dest) + amount)
                &&& (dest == sender ==> ledger_unchanged(*old(self), *final(self)))
                &&& final(self).reserved_of(sender) == old(self).reserved_of(sender)
                &&& final(self).reserved_of(dest) == old(self).reserved_of(dest)
                &&& forall|b: u64| b != sender && b != dest ==> final(self).free_of(b) == old(self).free_of(b) && final(self).reserved_of(b) == old(self).reserved_of(b)
                &&& creatures_unchanged(*old(self), *final(self))
                &&& ownership_unchanged(*old(self), *final(self))
                &&& lineage_unchanged(*old(self), *final(self))
                &&& prices_unchanged(*old(self), *final(self))
                &&& final(self).log() == old(self).log() + seq![
                    (Event::FundsTransferred {
                        from: sender,
                        to: dest,
                        amount,
                        height: old(self).cur_height(),
                    }),
                ]
            },
    {
        match self.ledger.transfer(sender, dest, amount, false) {
            Err(e) => {
                return Err(e);
            },
            Ok(()) => {},
        }
        self.events.push(
            Event::FundsTransferred { from: sender, to: dest, amount, height: self.height },
        );
        proof {
            assert(self.log() =~= old(self).log() + seq![
                (Event::FundsTransferred {
                    from: sender,
                    to: dest,
                    amount,
                    height: old(self).cur_height(),
                }),
            ]);
        }
        Ok(())
    }

    /// The creature's genetic payload, if it exists.
    pub fn genetics(&self, creature: u64) -> (r: Option<Vec<u8>>)
        requires
            self.wf(),
        ensures
            match r {
                Some(g) => self.has_creature(creature) && g@ == self.genetics_of(creature),
                None => !self.has_creature(creature),
            },
    {
        match self.creatures.get(&creature) {
            None => None,
            Some(c) => Some(copy_bytes(&c.genetics)),
        }
    }

    /// The number of creatures created so far (the next id to be handed out).
    pub fn creatures_count(&self) -> (r: u64)
        ensures
            r == self.next_id(),
    {
        self.counter
    }

    /// The owner of `creature`, by direct lookup in the reverse map.
    pub fn owner(&self, creature: u64) -> (r: Option<u64>)
        requires
            self.wf(),
        ensures
            r == self.owner_of(creature),
    {
        self.graph.owner(creature)
    }

    /// The asking price of `creature`, if it is for sale.
    pub fn price(&self, creature: u64) -> (r: Option<u64>)
        requires
            self.wf(),
        ensures
            r == self.price_of(creature),
    {
        match self.prices.get(&creature) {
            None => None,
            Some(p) => Some(*p),
        }
    }

    /// Ownership membership by direct lookup, without traversal.
    pub fn owns(&self, account: u64, creature: u64) -> (r: bool)
        requires
            self.wf(),
        ensures
            r == self.owned_of(account).contains(creature),
    {
        self.graph.contains_owned(account, creature)
    }

    pub fn owned_members(&self, account: u64) -> (r: Vec<u64>)
        requires
            self.wf(),
        ensures
            r@ == self.owned_of(account),
    {
        self.graph.owned_members(account)
    }

    pub fn parents_members(&self, creature: u64) -> (r: Vec<u64>)
        requires
            self.wf(),
        ensures
            r@ == self.parents_of(creature),
    {
        self.graph.parents_members(creature)
    }

    pub fn mates_members(&self, creature: u64) -> (r: Vec<u64>)
        requires
            self.wf(),
        ensures
            r@ == self.mates_of(creature),
    {
        self.graph.mates_members(creature)
    }

    pub fn children_members(&self, creature: u64) -> (r: Vec<u64>)
        requires
            self.wf(),
        ensures
            r@ == self.children_of(creature),
    {
        self.graph.children_members(creature)
    }

    pub fn siblings_members(&self, creature: u64) -> (r: Vec<u64>)
        requires
            self.wf(),
        ensures
            r@ == self.siblings_of(creature),
    {
        self.graph.siblings_members(creature)
    }

    /// The event log, oldest first.
    pub fn events(&self) -> (r: &Vec<Event>)
        ensures
            r@ == self.log(),
    {
        &self.events
    }

    /// The free balance of `a`.
    pub fn free_balance(&self, a: u64) -> (r: u64)
        requires
            self.wf(),
        ensures
            r == self.free_of(a),
    {
        self.ledger.free(a)
    }

    /// The reserved balance of `a`.
    pub fn reserved_balance(&self, a: u64) -> (r: u64)
        requires
            self.wf(),
        ensures
            r == self.reserved_of(a),
    {
        self.ledger.reserved(a)
    }

    /// A creature sits in at most one account's ownership list, and the
    /// reverse owner map names exactly that account.
    pub proof fn lemma_ownership_exclusive(self, a1: u64, a2: u64, c: u64)
        requires
            self.wf(),
            a1 != a2,
        ensures
            !(self.owned_of(a1).contains(c) && self.owned_of(a2).contains(c)),
    {
        self.graph.lemma_ownership_exclusive(a1, a2, c);
    }

    /// The reverse owner map agrees with the ownership lists.
    pub proof fn lemma_owner_agrees(self, a: u64, c: u64)
        requires
            self.wf(),
        ensures
            self.owned_of(a).contains(c) <==> self.owner_of(c) == Some(a),
    {
        self.graph.lemma_owner_agrees(a, c);
    }
}

/// A plain byte-for-byte copy of a payload.
fn copy_bytes(v: &Vec<u8>) -> (r: Vec<u8>)
    ensures
        r@ == v@,
{
    let mut r: Vec<u8> = Vec::new();
    let mut i: usize = 0;
    while i < v.len()
        invariant
            i <= v@.len(),
            r@ == v@.subrange(0, i as int),
        decreases v@.len() - i,
    {
        r.push(v[i]);
        i = i + 1;
        proof {
            assert(r@ =~= v@.subrange(0, i as int));
        }
    }
    proof {
        assert(r@ =~= v@);
    }
    r
}

} // verus!
