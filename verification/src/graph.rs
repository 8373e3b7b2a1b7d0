//! The relationship graph: five linked membership indices over one creature
//! population -- ownership (one list per owning account, with a single-valued
//! reverse owner map) and the four lineage relations parents, mates, children
//! and siblings (one list per creature) -- kept mutually consistent under
//! ownership transfer and breeding.

use vstd::prelude::*;

use crate::link::LinkedList;
use crate::link::lemma_below_after_append;
use crate::link::lemma_below_after_remove;
use crate::link::lemma_cons_contains;
use crate::link::lemma_remove_elem;
use crate::link::remove_elem;
use crate::types::Error;

verus! {

broadcast use vstd::std_specs::hash::group_hash_axioms;

use std::collections::HashMap;

/// Head-inserts each member of `xs` in turn into `base`, skipping those
/// already present: the contents that a series of guarded head insertions
/// leaves behind.
pub open spec fn prepend_new(base: Seq<u64>, xs: Seq<u64>) -> Seq<u64>
    decreases xs.len(),
{
    if xs.len() == 0 {
        base
    } else if base.contains(xs[0]) {
        prepend_new(base, xs.drop_first())
    } else {
        prepend_new(seq![xs[0]] + base, xs.drop_first())
    }
}

pub proof fn lemma_prepend_new_contains(base: Seq<u64>, xs: Seq<u64>, w: u64)
    ensures
        prepend_new(base, xs).contains(w) <==> (base.contains(w) || xs.contains(w)),
    decreases xs.len(),
{
    if xs.len() == 0 {
    } else {
        let b2 = if base.contains(xs[0]) {
            base
        } else {
            seq![xs[0]] + base
        };
        lemma_cons_contains(base, xs[0], w);
        lemma_prepend_new_contains(b2, xs.drop_first(), w);
        assert(xs =~= seq![xs[0]] + xs.drop_first());
        lemma_cons_contains(xs.drop_first(), xs[0], w);
    }
}

pub proof fn lemma_prepend_new_snoc(base: Seq<u64>, xs: Seq<u64>, v: u64)
    ensures
        prepend_new(base, xs.push(v)) == (if prepend_new(base, xs).contains(v) {
            prepend_new(base, xs)
        } else {
            seq![v] + prepend_new(base, xs)
        }),
    decreases xs.len(),
{
    if xs.len() == 0 {
        reveal_with_fuel(prepend_new, 2);
        assert(xs.push(v)[0] == v);
        assert(xs.push(v).drop_first() =~= Seq::<u64>::empty());
    } else {
        assert(xs.push(v)[0] == xs[0]);
        assert(xs.push(v).drop_first() =~= xs.drop_first().push(v));
        let b2 = if base.contains(xs[0]) {
            base
        } else {
            seq![xs[0]] + base
        };
        lemma_prepend_new_snoc(b2, xs.drop_first(), v);
    }
}

/// The five indices and the reverse owner map.
pub struct RelationshipGraph {
    owned: LinkedList,
    owners: HashMap<u64, u64>,
    parents: LinkedList,
    mates: LinkedList,
    children: LinkedList,
    siblings: LinkedList,
}

impl RelationshipGraph {
    /// The creatures `account` owns, most recently inserted first.
    pub closed spec fn owned_of(self, account: u64) -> Seq<u64> {
        self.owned.list(account)
    }

    /// The reverse owner map: creature -> owning account.
    pub closed spec fn owner_map(self) -> Map<u64, u64> {
        self.owners@
    }

    /// The account owning `creature`, if any.
    pub open spec fn owner_of(self, creature: u64) -> Option<u64> {
        if self.owner_map().contains_key(creature) {
            Some(self.owner_map()[creature])
        } else {
            None
        }
    }

    pub closed spec fn parents_of(self, creature: u64) -> Seq<u64> {
        self.parents.list(creature)
    }

    pub closed spec fn mates_of(self, creature: u64) -> Seq<u64> {
        self.mates.list(creature)
    }

    pub closed spec fn children_of(self, creature: u64) -> Seq<u64> {
        self.children.list(creature)
    }

    pub closed spec fn siblings_of(self, creature: u64) -> Seq<u64> {
        self.siblings.list(creature)
    }

    /// Every owned creature is below `n`.
    pub closed spec fn owned_elems_below(self, n: int) -> bool {
        self.owned.elems_below(n)
    }

    /// Every creature a lineage list names or belongs to is below `n`.
    pub closed spec fn lineage_below(self, n: int) -> bool {
        &&& self.parents.elems_below(n) && self.parents.idents_below(n)
        &&& self.mates.elems_below(n) && self.mates.idents_below(n)
        &&& self.children.elems_below(n) && self.children.idents_below(n)
        &&& self.siblings.elems_below(n) && self.siblings.idents_below(n)
    }

    /// The five stores are well-formed, and the reverse owner map agrees with
    /// the ownership lists: a creature sits in an account's list exactly when
    /// the map names that account for it.
    pub closed spec fn wf(self) -> bool {
        &&& self.owned.wf()
        &&& self.parents.wf()
        &&& self.mates.wf()
        &&& self.children.wf()
        &&& self.siblings.wf()
        &&& forall|a: u64, c: u64| #[trigger]
            self.owned.list(a).contains(c) ==> self.owners@.contains_key(c) && self.owners@[c]
                == a
        &&& forall|c: u64| #[trigger]
            self.owners@.contains_key(c) ==> self.owned.list(self.owners@[c]).contains(c)
    }

    pub fn new() -> (r: RelationshipGraph)
        ensures
            r.wf(),
            r.owner_map() == Map::<u64, u64>::empty(),
            forall|a: u64| #[trigger] r.owned_of(a) == Seq::<u64>::empty(),
            forall|c: u64| #[trigger] r.parents_of(c) == Seq::<u64>::empty(),
            forall|c: u64| #[trigger] r.mates_of(c) == Seq::<u64>::empty(),
            forall|c: u64| #[trigger] r.children_of(c) == Seq::<u64>::empty(),
            forall|c: u64| #[trigger] r.siblings_of(c) == Seq::<u64>::empty(),
            forall|n: int| #[trigger] r.owned_elems_below(n),
            forall|n: int| #[trigger] r.lineage_below(n),
    {
        RelationshipGraph {
            owned: LinkedList::new(),
            owners: HashMap::new(),
            parents: LinkedList::new(),
            mates: LinkedList::new(),
            children: LinkedList::new(),
            siblings: LinkedList::new(),
        }
    }

    /// Ownership membership by direct lookup.
    pub fn contains_owned(&self, account: u64, creature: u64) -> (r: bool)
        requires
            self.wf(),
        ensures
            r == self.owned_of(account).contains(creature),
    {
        self.owned.contains(account, creature)
    }

    /// The owning account of `creature`, if any.
    pub fn owner(&self, creature: u64) -> (r: Option<u64>)
        requires
            self.wf(),
        ensures
            r == self.owner_of(creature),
    {
        match self.owners.get(&creature) {
            None => None,
            Some(a) => Some(*a),
        }
    }

    pub fn owned_members(&self, account: u64) -> (r: Vec<u64>)
        requires
            self.wf(),
        ensures
            r@ == self.owned_of(account),
    {
        self.owned.members(account)
    }

    pub fn parents_members(&self, creature: u64) -> (r: Vec<u64>)
        requires
            self.wf(),
        ensures
            r@ == self.parents_of(creature),
    {
        self.parents.members(creature)
    }

    pub fn mates_members(&self, creature: u64) -> (r: Vec<u64>)
        requires
            self.wf(),
        ensures
            r@ == self.mates_of(creature),
    {
        self.mates.members(creature)
    }

    pub fn children_members(&self, creature: u64) -> (r: Vec<u64>)
        requires
            self.wf(),
        ensures
            r@ == self.children_of(creature),
    {
        self.children.members(creature)
    }

    pub fn siblings_members(&self, creature: u64) -> (r: Vec<u64>)
        requires
            self.wf(),
        ensures
            r@ == self.siblings_of(creature),
    {
        self.siblings.members(creature)
    }

    /// Bounds on list members and identities weaken upward.
    pub proof fn lemma_below_mono(self, n: int, m: int)
        requires
            n <= m,
        ensures
            self.owned_elems_below(n) ==> self.owned_elems_below(m),
            self.lineage_below(n) ==> self.lineage_below(m),
    {
        self.owned.lemma_below_mono(n, m);
        self.parents.lemma_below_mono(n, m);
        self.mates.lemma_below_mono(n, m);
        self.children.lemma_below_mono(n, m);
        self.siblings.lemma_below_mono(n, m);
    }

    /// A creature sits in at most one account's ownership list.
    pub proof fn lemma_ownership_exclusive(self, a1: u64, a2: u64, c: u64)
        requires
            self.wf(),
            a1 != a2,
        ensures
            !(self.owned_of(a1).contains(c) && self.owned_of(a2).contains(c)),
    {
    }

    /// The reverse owner map agrees with the ownership lists.
    pub proof fn lemma_owner_agrees(self, a: u64, c: u64)
        requires
            self.wf(),
        ensures
            self.owned_of(a).contains(c) <==> self.owner_of(c) == Some(a),
    {
    }

    /// Registers a so far unowned creature under `account`: head insertion
    /// into the account's ownership list plus the reverse map entry.
    pub fn insert_owned(&mut self, account: u64, creature: u64)
        requires
            old(self).wf(),
            !old(self).owner_map().contains_key(creature),
        ensures
            final(self).wf(),
            final(self).owned_of(account) == seq![creature] + old(self).owned_of(account),
            forall|a: u64| a != account ==> final(self).owned_of(a) == old(self).owned_of(a),
            final(self).owner_map() == old(self).owner_map().insert(creature, account),
            forall|c: u64| #[trigger] final(self).parents_of(c) == old(self).parents_of(c),
            forall|c: u64| #[trigger] final(self).mates_of(c) == old(self).mates_of(c),
            forall|c: u64| #[trigger] final(self).children_of(c) == old(self).children_of(c),
            forall|c: u64| #[trigger] final(self).siblings_of(c) == old(self).siblings_of(c),
            forall|n: int| old(self).owned_elems_below(n) && creature < n ==> #[trigger]
                final(self).owned_elems_below(n),
            forall|n: int| old(self).lineage_below(n) ==> #[trigger] final(self).lineage_below(n),
    {
        let ghost pre = *self;
        proof {
            if pre.owned.list(account).contains(creature) {
                assert(pre.owners@.contains_key(creature));
            }
        }
        let inserted = self.owned.append(account, creature);
        proof {
            assert(inserted);
        }
        self.owners.insert(creature, account);
        proof {
            let post = *self;
            assert forall|a: u64, c: u64| #[trigger] post.owned.list(a).contains(c) implies
                post.owners@.contains_key(c) && post.owners@[c] == a by {
                lemma_cons_contains(pre.owned.list(account), creature, c);
                if a == account {
                    if c != creature {
                        assert(pre.owned.list(a).contains(c));
                    }
                } else {
                    assert(post.owned.list(a) == pre.owned.list(a));
                    assert(pre.owned.list(a).contains(c));
                    assert(c != creature);
                }
            }
            assert forall|c: u64| #[trigger] post.owners@.contains_key(c) implies
                post.owned.list(post.owners@[c]).contains(c) by {
                if c == creature {
                    let s2 = seq![creature] + pre.owned.list(account);
                    assert(post.owned.list(account) == s2);
                    assert(s2[0] == creature);
                } else {
                    assert(pre.owners@.contains_key(c));
                    let a = pre.owners@[c];
                    assert(pre.owned.list(a).contains(c));
                    if a == account {
                        lemma_cons_contains(pre.owned.list(account), creature, c);
                    } else {
                        assert(post.owned.list(a) == pre.owned.list(a));
                    }
                }
            }
            assert forall|n: int| pre.owned_elems_below(n) && creature < n implies #[trigger]
                self.owned_elems_below(n) by {
                lemma_below_after_append(pre.owned, self.owned, account, creature, n);
            }
        }
    }

    /// Moves `creature` from `from`'s ownership list to the head of `to`'s,
    /// updating the reverse map; fails with `RequireOwner`, changing nothing,
    /// exactly when `from` does not own it.
    pub fn transfer(&mut self, creature: u64, from: u64, to: u64) -> (r: Result<(), Error>)
        requires
            old(self).wf(),
        ensures
            final(self).wf(),
            r is Ok <==> old(self).owned_of(from).contains(creature),
            r is Err ==> *final(self) == *old(self) && r == Err::<(), Error>(Error::RequireOwner),
            r is Ok ==> {
                &&& final(self).owner_map() == old(self).owner_map().insert(creature, to)
                &&& (from != to ==> final(self).owned_of(from) == remove_elem(
                    old(self).owned_of(from),
                    creature,
                ) && final(self).owned_of(to) == seq![creature] + old(self).owned_of(to))
                &&& (from == to ==> final(self).owned_of(to) == seq![creature] + remove_elem(
                    old(self).owned_of(to),
                    creature,
                ))
                &&& forall|a: u64| a != from && a != to
                    ==> final(self).owned_of(a) == old(self).owned_of(a)
            },
            forall|c: u64| #[trigger] final(self).parents_of(c) == old(self).parents_of(c),
            forall|c: u64| #[trigger] final(self).mates_of(c) == old(self).mates_of(c),
            forall|c: u64| #[trigger] final(self).children_of(c) == old(self).children_of(c),
            forall|c: u64| #[trigger] final(self).siblings_of(c) == old(self).siblings_of(c),
            forall|n: int| old(self).owned_elems_below(n)
                ==> #[trigger] final(self).owned_elems_below(n),
            forall|n: int| old(self).lineage_below(n) ==> #[trigger] final(self).lineage_below(n),
    {
        let ghost pre = *self;
        let removed = self.owned.remove(from, creature);
        if !removed {
            return Err(Error::RequireOwner);
        }
        let ghost mid_owned = self.owned;
        proof {
            pre.owned.lemma_no_dup(from);
            lemma_remove_elem(pre.owned.list(from), creature);
            if self.owned.list(to).contains(creature) {
                if from == to {
                    assert(false);
                } else {
                    assert(self.owned.list(to) == pre.owned.list(to));
                    assert(pre.owners@[creature] == to && pre.owners@[creature] == from);
                }
            }
        }
        let inserted = self.owned.append(to, creature);
        proof {
            assert(inserted);
        }
        self.owners.insert(creature, to);
        proof {
            let post = *self;
            let ghost sfrom = pre.owned.list(from);
            assert forall|a: u64, c: u64| #[trigger] post.owned.list(a).contains(c) implies
                post.owners@.contains_key(c) && post.owners@[c] == a by {
                lemma_cons_contains(mid_owned.list(to), creature, c);
                if c == creature {
                    // after removal, `creature` sits only at the head of `to`'s list
                    if a != to {
                        assert(post.owned.list(a) == mid_owned.list(a));
                        if a == from {
                            assert(mid_owned.list(from) == remove_elem(sfrom, creature));
                        } else {
                            assert(mid_owned.list(a) == pre.owned.list(a));
                            assert(pre.owners@[creature] == a && pre.owners@[creature] == from);
                        }
                    }
                } else {
                    if a == to {
                        assert(mid_owned.list(to).contains(c));
                        assert(pre.owned.list(a).contains(c));
                    } else {
                        assert(post.owned.list(a) == mid_owned.list(a));
                        if a == from {
                            assert(sfrom.contains(c));
                        } else {
                            assert(pre.owned.list(a).contains(c));
                        }
                    }
                }
            }
            assert forall|c: u64| #[trigger] post.owners@.contains_key(c) implies
                post.owned.list(post.owners@[c]).contains(c) by {
                let s2 = seq![creature] + mid_owned.list(to);
                if c == creature {
                    assert(post.owned.list(to) == s2);
                    assert(s2[0] == creature);
                } else {
                    assert(pre.owners@.contains_key(c));
                    let a = pre.owners@[c];
                    assert(pre.owned.list(a).contains(c));
                    lemma_cons_contains(mid_owned.list(to), creature, c);
                    if a == from {
                        assert(mid_owned.list(from).contains(c));
                        if a == to {
                        } else {
                            assert(post.owned.list(a) == mid_owned.list(a));
                        }
                    } else {
                        assert(mid_owned.list(a) == pre.owned.list(a));
                        if a == to {
                        } else {
                            assert(post.owned.list(a) == mid_owned.list(a));
                        }
                    }
                }
            }
            assert forall|n: int| pre.owned_elems_below(n) implies #[trigger]
                self.owned_elems_below(n) by {
                lemma_below_after_remove(pre.owned, mid_owned, from, creature, n);
                assert(sfrom.contains(creature));
                assert(creature < n) by {
                    crate::link::lemma_elem_index(sfrom, creature);
                    let i = crate::link::elem_index(sfrom, creature);
                    assert(pre.owned.list(from)[i] < n);
                }
                lemma_below_after_append(mid_owned, self.owned, to, creature, n);
            }
        }
        Ok(())
    }

    /// Records the lineage of a freshly bred creature `new_id` of parents
    /// `p1` and `p2`: the parents list of the child, both mates lists, both
    /// children lists, and the child's siblings -- the parents' children as
    /// they stood before the child itself was appended, each listed once.
    pub fn register_breeding(&mut self, new_id: u64, p1: u64, p2: u64)
        requires
            old(self).wf(),
            old(self).lineage_below(new_id as int),
            p1 != p2,
            p1 < new_id,
            p2 < new_id,
        ensures
            final(self).wf(),
            final(self).lineage_below(new_id as int + 1),
            forall|a: u64| #[trigger] final(self).owned_of(a) == old(self).owned_of(a),
            final(self).owner_map() == old(self).owner_map(),
            forall|n: int| old(self).owned_elems_below(n)
                ==> #[trigger] final(self).owned_elems_below(n),
            final(self).parents_of(new_id) == seq![p2, p1],
            forall|c: u64| c != new_id ==> final(self).parents_of(c) == old(self).parents_of(c),
            final(self).mates_of(p1) == (if old(self).mates_of(p1).contains(p2) {
                old(self).mates_of(p1)
            } else {
                seq![p2] + old(self).mates_of(p1)
            }),
            final(self).mates_of(p2) == (if old(self).mates_of(p2).contains(p1) {
                old(self).mates_of(p2)
            } else {
                seq![p1] + old(self).mates_of(p2)
            }),
            forall|c: u64| c != p1 && c != p2 ==> final(self).mates_of(c) == old(self).mates_of(c),
            final(self).children_of(p1) == seq![new_id] + old(self).children_of(p1),
            final(self).children_of(p2) == seq![new_id] + old(self).children_of(p2),
            forall|c: u64| c != p1 && c != p2
                ==> final(self).children_of(c) == old(self).children_of(c),
            final(self).siblings_of(new_id) == prepend_new(
                prepend_new(Seq::empty(), old(self).children_of(p1)),
                old(self).children_of(p2),
            ),
            forall|w: u64| final(self).siblings_of(new_id).contains(w)
                <==> (old(self).children_of(p1).contains(w)
                    || old(self).children_of(p2).contains(w)),
            !final(self).siblings_of(new_id).contains(new_id),
            forall|c: u64| c != new_id ==> final(self).siblings_of(c) == old(self).siblings_of(c),
    {
        let ghost pre = *self;
        let ghost ch1 = self.children.list(p1);
        let ghost ch2 = self.children.list(p2);
        proof {
            // the child is fresh: no lineage list mentions or belongs to it
            self.parents.lemma_nonempty(new_id);
            self.siblings.lemma_nonempty(new_id);
            if ch1.contains(new_id) {
                let i = choose|i: int| 0 <= i < ch1.len() && ch1[i] == new_id;
                assert(pre.children.list(p1)[i] < new_id);
            }
            if ch2.contains(new_id) {
                let i = choose|i: int| 0 <= i < ch2.len() && ch2[i] == new_id;
                assert(pre.children.list(p2)[i] < new_id);
            }
        }
        // snapshot the parents' children before the child is appended to them
        let sib1 = self.children.members(p1);
        let sib2 = self.children.members(p2);
        let ok1 = self.parents.append(new_id, p1);
        let ok2 = self.parents.append(new_id, p2);
        proof {
            assert(ok1 && ok2);
            assert(self.parents.list(new_id) =~= seq![p2, p1]);
        }
        let _ = self.mates.append(p1, p2);
        let _ = self.mates.append(p2, p1);
        let okc1 = self.children.append(p1, new_id);
        let okc2 = self.children.append(p2, new_id);
        proof {
            assert(okc1 && okc2);
        }
        let ghost mid = *self;
        let mut i: usize = 0;
        while i < sib1.len()
            invariant
                i <= sib1.len(),
                sib1@ == ch1,
                self.siblings.wf(),
                self.siblings.list(new_id) == prepend_new(Seq::empty(), ch1.subrange(0, i as int)),
                forall|c: u64| c != new_id ==> self.siblings.list(c) == mid.siblings.list(c),
                forall|k: u64| #[trigger]
                    self.siblings.lists().dom().contains(k) ==> mid.siblings.lists().dom().contains(
                        k,
                    ) || k == new_id,
                self.owned == mid.owned,
                self.owners == mid.owners,
                self.parents == mid.parents,
                self.mates == mid.mates,
                self.children == mid.children,
            decreases sib1.len() - i,
        {
            let v = sib1[i];
            proof {
                lemma_prepend_new_snoc(Seq::empty(), ch1.subrange(0, i as int), v);
                assert(ch1.subrange(0, i as int).push(v) =~= ch1.subrange(0, i as int + 1));
            }
            let _ = self.siblings.append(new_id, v);
            i = i + 1;
        }
        proof {
            assert(ch1.subrange(0, ch1.len() as int) =~= ch1);
        }
        let ghost base1 = prepend_new(Seq::empty(), ch1);
        let mut j: usize = 0;
        while j < sib2.len()
            invariant
                j <= sib2.len(),
                sib2@ == ch2,
                self.siblings.wf(),
                self.siblings.list(new_id) == prepend_new(base1, ch2.subrange(0, j as int)),
                forall|c: u64| c != new_id ==> self.siblings.list(c) == mid.siblings.list(c),
                forall|k: u64| #[trigger]
                    self.siblings.lists().dom().contains(k) ==> mid.siblings.lists().dom().contains(
                        k,
                    ) || k == new_id,
                self.owned == mid.owned,
                self.owners == mid.owners,
                self.parents == mid.parents,
                self.mates == mid.mates,
                self.children == mid.children,
            decreases sib2.len() - j,
        {
            let v = sib2[j];
            proof {
                lemma_prepend_new_snoc(base1, ch2.subrange(0, j as int), v);
                assert(ch2.subrange(0, j as int).push(v) =~= ch2.subrange(0, j as int + 1));
            }
            let _ = self.siblings.append(new_id, v);
            j = j + 1;
        }
        proof {
            assert(ch2.subrange(0, ch2.len() as int) =~= ch2);
            let post = *self;
            assert(mid.siblings == pre.siblings);
            assert forall|c: u64| c != new_id implies post.siblings.list(c) == pre.siblings.list(
                c,
            ) by {
                assert(post.siblings.list(c) == mid.siblings.list(c));
            }
            let sibs = prepend_new(base1, ch2);
            assert(post.siblings.list(new_id) == sibs);
            // sibling membership: exactly the parents' pre-existing children
            assert forall|w: u64| post.siblings.list(new_id).contains(w) <==> (ch1.contains(w)
                || ch2.contains(w)) by {
                lemma_prepend_new_contains(Seq::empty(), ch1, w);
                lemma_prepend_new_contains(base1, ch2, w);
            }
            // ownership agreement is untouched
            assert forall|a: u64, c: u64| #[trigger] post.owned.list(a).contains(c) implies
                post.owners@.contains_key(c) && post.owners@[c] == a by {
                assert(pre.owned.list(a).contains(c));
            }
            assert forall|c: u64| #[trigger] post.owners@.contains_key(c) implies
                post.owned.list(post.owners@[c]).contains(c) by {
                assert(pre.owners@.contains_key(c));
            }
            // every lineage member and identity stays below the new bound
            let n2 = new_id as int + 1;
            assert(mid.parents.elems_below(n2)) by {
                assert forall|k: u64, x: int|
                    0 <= x < mid.parents.list(k).len() implies #[trigger] mid.parents.list(k)[x]
                    < n2 by {
                    if k == new_id {
                        let s2 = seq![p2, p1];
                        assert(mid.parents.list(new_id) =~= s2);
                        assert(x == 0 || x == 1);
                    } else {
                        assert(mid.parents.list(k) == pre.parents.list(k));
                    }
                }
            }
            assert(mid.parents.idents_below(n2)) by {
                assert forall|k: u64| #[trigger] mid.parents.lists().dom().contains(k) implies k
                    < n2 by {
                    if k != new_id {
                        assert(pre.parents.lists().dom().contains(k));
                    }
                }
            }
            assert(mid.mates.elems_below(n2) && mid.mates.idents_below(n2)) by {
                assert forall|k: u64, x: int|
                    0 <= x < mid.mates.list(k).len() implies #[trigger] mid.mates.list(k)[x]
                    < n2 by {
                    if k == p1 {
                        lemma_cons_contains(pre.mates.list(p1), p2, mid.mates.list(p1)[x]);
                        if mid.mates.list(p1) != pre.mates.list(p1) {
                            assert(mid.mates.list(p1) == seq![p2] + pre.mates.list(p1));
                            if x >= 1 {
                                assert(mid.mates.list(p1)[x] == pre.mates.list(p1)[x - 1]);
                            }
                        } else {
                            assert(pre.mates.list(k)[x] < new_id);
                        }
                    } else if k == p2 {
                        if mid.mates.list(p2) != pre.mates.list(p2) {
                            assert(mid.mates.list(p2) == seq![p1] + pre.mates.list(p2));
                            if x >= 1 {
                                assert(mid.mates.list(p2)[x] == pre.mates.list(p2)[x - 1]);
                            }
                        } else {
                            assert(pre.mates.list(k)[x] < new_id);
                        }
                    } else {
                        assert(mid.mates.list(k) == pre.mates.list(k));
                        assert(pre.mates.list(k)[x] < new_id);
                    }
                }
                assert forall|k: u64| #[trigger] mid.mates.lists().dom().contains(k) implies k
                    < n2 by {
                    if k != p1 && k != p2 {
                        assert(pre.mates.lists().dom().contains(k));
                    }
                }
            }
            assert(mid.children.elems_below(n2) && mid.children.idents_below(n2)) by {
                assert forall|k: u64, x: int|
                    0 <= x < mid.children.list(k).len() implies #[trigger] mid.children.list(k)[x]
                    < n2 by {
                    if k == p1 {
                        assert(mid.children.list(p1) == seq![new_id] + ch1);
                        if x >= 1 {
                            assert(mid.children.list(p1)[x] == ch1[x - 1]);
                            assert(pre.children.list(p1)[x - 1] < new_id);
                        }
                    } else if k == p2 {
                        assert(mid.children.list(p2) == seq![new_id] + ch2);
                        if x >= 1 {
                            assert(mid.children.list(p2)[x] == ch2[x - 1]);
                            assert(pre.children.list(p2)[x - 1] < new_id);
                        }
                    } else {
                        assert(mid.children.list(k) == pre.children.list(k));
                        assert(pre.children.list(k)[x] < new_id);
                    }
                }
                assert forall|k: u64| #[trigger] mid.children.lists().dom().contains(k) implies k
                    < n2 by {
                    if k != p1 && k != p2 {
                        assert(pre.children.lists().dom().contains(k));
                    }
                }
            }
            assert(post.siblings.elems_below(n2)) by {
                assert forall|k: u64, x: int|
                    0 <= x < post.siblings.list(k).len() implies #[trigger] post.siblings.list(
                        k,
                    )[x] < n2 by {
                    if k == new_id {
                        let w = post.siblings.list(new_id)[x];
                        assert(post.siblings.list(new_id).contains(w));
                        lemma_prepend_new_contains(Seq::empty(), ch1, w);
                        lemma_prepend_new_contains(base1, ch2, w);
                        if ch1.contains(w) {
                            let y = choose|y: int| 0 <= y < ch1.len() && ch1[y] == w;
                            assert(pre.children.list(p1)[y] < new_id);
                        } else {
                            let y = choose|y: int| 0 <= y < ch2.len() && ch2[y] == w;
                            assert(pre.children.list(p2)[y] < new_id);
                        }
                    } else {
                        assert(post.siblings.list(k) == pre.siblings.list(k));
                        assert(pre.siblings.list(k)[x] < new_id);
                    }
                }
            }
            assert(post.siblings.idents_below(n2)) by {
                assert forall|k: u64| #[trigger] post.siblings.lists().dom().contains(k) implies k
                    < n2 by {
                    if k != new_id {
                        assert(mid.siblings.lists().dom().contains(k));
                        assert(pre.siblings.lists().dom().contains(k));
                    }
                }
            }
        }
    }
}

} // verus!
