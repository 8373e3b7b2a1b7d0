//! A doubly-linked membership list stored as individual node records in a
//! sparse map, with head insertion and removal by element identity.
//!
//! Each list is named by a `u64` list identity.  Under the identity there is
//! one sentinel record (whose `next` is the head and `prev` is the tail of the
//! list) and one record per member.  A member's `prev` or `next` of `None`
//! means it is adjacent to the sentinel.  No traversal is needed for insertion,
//! removal or membership tests: every access is a point lookup.

use vstd::prelude::*;

verus! {

broadcast use vstd::std_specs::hash::group_hash_axioms;

use std::collections::HashMap;

/// One node record: the `prev`/`next` pointers of a list member, or the
/// tail/head pointers of a list's sentinel.
#[derive(Clone, Copy, PartialEq, Eq, Debug)]
pub struct LinkedItem {
    pub prev: Option<u64>,
    pub next: Option<u64>,
}

/// The storage key of the member record for `elem` in the list `ident`.
spec fn node_key(ident: u64, elem: u64) -> u128 {
    ((ident as u128) << 64) | (elem as u128)
}

/// The list identity a member record's key belongs to.
spec fn key_ident(key: u128) -> u64 {
    (key >> 64) as u64
}

/// The element a member record's key stands for.
spec fn key_elem(key: u128) -> u64 {
    key as u64
}

proof fn lemma_node_key(ident: u64, elem: u64)
    ensures
        key_ident(node_key(ident, elem)) == ident,
        key_elem(node_key(ident, elem)) == elem,
{
    assert(((((ident as u128) << 64) | (elem as u128)) >> 64) as u64 == ident) by (bit_vector);
    assert(((((ident as u128) << 64) | (elem as u128)) as u64) == elem) by (bit_vector);
}

proof fn lemma_key_decode(key: u128)
    ensures
        node_key(key_ident(key), key_elem(key)) == key,
{
    assert(((((key >> 64) as u64) as u128) << 64) | ((key as u64) as u128) == key) by (bit_vector);
}

fn node_key_exec(ident: u64, elem: u64) -> (r: u128)
    ensures
        r == node_key(ident, elem),
{
    ((ident as u128) << 64) | (elem as u128)
}

/// The record a correct list with members `s` holds at position `i`.
pub open spec fn expected_node(s: Seq<u64>, i: int) -> LinkedItem {
    LinkedItem {
        prev: if i == 0 {
            None
        } else {
            Some(s[i - 1])
        },
        next: if i == s.len() - 1 {
            None
        } else {
            Some(s[i + 1])
        },
    }
}

/// A position of `v` in `s`: the unique one when `s` has no duplicates.
pub open spec fn elem_index(s: Seq<u64>, v: u64) -> int {
    choose|i: int| 0 <= i < s.len() && s[i] == v
}

/// `s` with the occurrence of `v` taken out, and `s` itself when `v` is absent.
pub open spec fn remove_elem(s: Seq<u64>, v: u64) -> Seq<u64> {
    if s.contains(v) {
        s.subrange(0, elem_index(s, v)) + s.subrange(elem_index(s, v) + 1, s.len() as int)
    } else {
        s
    }
}

pub proof fn lemma_elem_index(s: Seq<u64>, v: u64)
    requires
        s.no_duplicates(),
        s.contains(v),
    ensures
        0 <= elem_index(s, v) < s.len(),
        s[elem_index(s, v)] == v,
        forall|j: int| 0 <= j < s.len() && s[j] == v ==> j == elem_index(s, v),
{
    let i = choose|i: int| 0 <= i < s.len() && s[i] == v;
    assert(0 <= elem_index(s, v) < s.len() && s[elem_index(s, v)] == v);
}

pub proof fn lemma_remove_elem(s: Seq<u64>, v: u64)
    requires
        s.no_duplicates(),
        s.contains(v),
    ensures
        remove_elem(s, v).len() == s.len() - 1,
        remove_elem(s, v).no_duplicates(),
        !remove_elem(s, v).contains(v),
        forall|w: u64| w != v ==> remove_elem(s, v).contains(w) == s.contains(w),
        forall|j: int|
            0 <= j < remove_elem(s, v).len() ==> remove_elem(s, v)[j] == (if j < elem_index(s, v) {
                s[j]
            } else {
                s[j + 1]
            }),
{
    lemma_elem_index(s, v);
    let i = elem_index(s, v);
    let r = remove_elem(s, v);
    assert forall|j: int| 0 <= j < r.len() implies r[j] == (if j < i {
        s[j]
    } else {
        s[j + 1]
    }) by {}
    assert forall|j: int, l: int| 0 <= j < l < r.len() implies r[j] != r[l] by {
        let j2 = if j < i {
            j
        } else {
            j + 1
        };
        let l2 = if l < i {
            l
        } else {
            l + 1
        };
        assert(s[j2] != s[l2]);
    }
    assert(r.no_duplicates());
    assert forall|j: int| 0 <= j < r.len() implies r[j] != v by {
        let j2 = if j < i {
            j
        } else {
            j + 1
        };
        assert(r[j] == s[j2]);
    }
    if r.contains(v) {
        let j = choose|j: int| 0 <= j < r.len() && r[j] == v;
        assert(false);
    }
    assert forall|w: u64| w != v implies r.contains(w) == s.contains(w) by {
        if r.contains(w) {
            let j = choose|j: int| 0 <= j < r.len() && r[j] == w;
            let j2 = if j < i {
                j
            } else {
                j + 1
            };
            assert(s[j2] == w);
        }
        if s.contains(w) {
            let j = choose|j: int| 0 <= j < s.len() && s[j] == w;
            if j < i {
                assert(r[j] == w);
            } else {
                assert(j > i);
                assert(r[j - 1] == w);
            }
        }
    }
}

/// Head insertion of a bounded element keeps every member bounded.
pub proof fn lemma_below_after_append(
    pre: LinkedList,
    post: LinkedList,
    ident: u64,
    elem: u64,
    n: int,
)
    requires
        pre.elems_below(n),
        elem < n,
        post.lists() == pre.lists().insert(ident, seq![elem] + pre.list(ident)),
    ensures
        post.elems_below(n),
        pre.idents_below(n) && ident < n ==> post.idents_below(n),
{
    assert forall|k: u64, i: int| 0 <= i < post.list(k).len() implies #[trigger] post.list(k)[i]
        < n by {
        if k == ident {
            let s2 = seq![elem] + pre.list(ident);
            assert(post.list(k) == s2);
            if i >= 1 {
                assert(s2[i] == pre.list(ident)[i - 1]);
            }
        } else {
            assert(post.list(k) == pre.list(k));
        }
    }
}

/// Removal introduces no member and keeps every member bounded.
pub proof fn lemma_below_after_remove(
    pre: LinkedList,
    post: LinkedList,
    ident: u64,
    elem: u64,
    n: int,
)
    requires
        pre.wf(),
        pre.elems_below(n),
        post.list(ident) == remove_elem(pre.list(ident), elem),
        forall|k: u64| k != ident ==> post.list(k) == pre.list(k),
    ensures
        post.elems_below(n),
{
    pre.lemma_no_dup(ident);
    let s = pre.list(ident);
    assert forall|k: u64, i: int| 0 <= i < post.list(k).len() implies #[trigger] post.list(k)[i]
        < n by {
        if k == ident {
            if s.contains(elem) {
                lemma_remove_elem(s, elem);
                let j2 = if i < elem_index(s, elem) {
                    i
                } else {
                    i + 1
                };
                assert(post.list(k)[i] == s[j2]);
            } else {
                assert(post.list(k) == s);
            }
        } else {
            assert(post.list(k) == pre.list(k));
        }
    }
}

/// Membership in a head-extended list: the new head, or an old member.
pub proof fn lemma_cons_contains(s: Seq<u64>, v: u64, w: u64)
    ensures
        (seq![v] + s).contains(w) <==> (w == v || s.contains(w)),
{
    let s2 = seq![v] + s;
    if w == v {
        assert(s2[0] == w);
    }
    if s.contains(w) {
        let j = choose|j: int| 0 <= j < s.len() && s[j] == w;
        assert(s2[j + 1] == w);
    }
    if s2.contains(w) {
        let j = choose|j: int| 0 <= j < s2.len() && s2[j] == w;
        if j > 0 {
            assert(s[j - 1] == w);
        }
    }
}

/// A family of doubly-linked lists sharing one node store, one list per
/// `u64` list identity, each holding `u64` element identifiers.
pub struct LinkedList {
    sentinels: HashMap<u64, LinkedItem>,
    nodes: HashMap<u128, LinkedItem>,
    model: Ghost<Map<u64, Seq<u64>>>,
}

impl LinkedList {
    /// All lists this index holds: list identity -> members, head first.
    /// Identities whose list is empty are absent from the map.
    pub closed spec fn lists(self) -> Map<u64, Seq<u64>> {
        self.model@
    }

    /// The members of the list `ident`, head first.
    pub open spec fn list(self, ident: u64) -> Seq<u64> {
        if self.lists().dom().contains(ident) {
            self.lists()[ident]
        } else {
            Seq::empty()
        }
    }

    /// The stored record under `(ident, slot)`: the sentinel record of `ident`
    /// for `slot == None`, the member record of `v` for `slot == Some(v)`.
    pub closed spec fn node(self, ident: u64, slot: Option<u64>) -> Option<LinkedItem> {
        match slot {
            None => if self.sentinels@.contains_key(ident) {
                Some(self.sentinels@[ident])
            } else {
                None
            },
            Some(v) => if self.nodes@.contains_key(node_key(ident, v)) {
                Some(self.nodes@[node_key(ident, v)])
            } else {
                None
            },
        }
    }

    spec fn list_ok(self, ident: u64) -> bool {
        let s = self.lists()[ident];
        &&& s.len() > 0
        &&& s.no_duplicates()
        &&& self.sentinels@.contains_key(ident)
        &&& self.sentinels@[ident] == (LinkedItem {
            prev: Some(s[s.len() - 1]),
            next: Some(s[0]),
        })
        &&& forall|i: int|
            0 <= i < s.len() ==> self.nodes@.contains_key(#[trigger] node_key(ident, s[i]))
                && self.nodes@[node_key(ident, s[i])] == expected_node(s, i)
    }

    /// The store is exactly the node records of the modeled lists: every list
    /// is laid out with reciprocal pointers, and every stored record belongs
    /// to some list.
    pub closed spec fn wf(self) -> bool {
        &&& forall|k: u64| #[trigger] self.lists().dom().contains(k) ==> self.list_ok(k)
        &&& forall|k: u64| #[trigger]
            self.sentinels@.contains_key(k) ==> self.lists().dom().contains(k)
        &&& forall|key: u128| #[trigger]
            self.nodes@.contains_key(key) ==> self.lists().dom().contains(key_ident(key))
                && self.lists()[key_ident(key)].contains(key_elem(key))
    }

    pub fn new() -> (r: LinkedList)
        ensures
            r.wf(),
            r.lists() == Map::<u64, Seq<u64>>::empty(),
    {
        LinkedList {
            sentinels: HashMap::new(),
            nodes: HashMap::new(),
            model: Ghost(Map::empty()),
        }
    }

    /// Membership by direct key lookup; no traversal.
    pub fn contains(&self, ident: u64, elem: u64) -> (r: bool)
        requires
            self.wf(),
        ensures
            r == self.list(ident).contains(elem),
    {
        let key = node_key_exec(ident, elem);
        proof {
            lemma_node_key(ident, elem);
            if self.list(ident).contains(elem) {
                let s = self.list(ident);
                let i = choose|i: int| 0 <= i < s.len() && s[i] == elem;
                assert(self.nodes@.contains_key(node_key(ident, s[i])));
            }
        }
        self.nodes.contains_key(&key)
    }

    /// Inserts `elem` as the new head of the list `ident`; a no-op returning
    /// `false` when `elem` is already a member, protecting uniqueness.
    pub fn append(&mut self, ident: u64, elem: u64) -> (r: bool)
        requires
            old(self).wf(),
        ensures
            final(self).wf(),
            r == !old(self).list(ident).contains(elem),
            !r ==> *final(self) == *old(self),
            r ==> final(self).lists() == old(self).lists().insert(
                ident,
                seq![elem] + old(self).list(ident),
            ),
            r ==> final(self).list(ident) == seq![elem] + old(self).list(ident),
            forall|k: u64| k != ident ==> final(self).list(k) == old(self).list(k),
    {
        if self.contains(ident, elem) {
            return false;
        }
        let ghost pre = *self;
        let ghost s = self.list(ident);
        let key = node_key_exec(ident, elem);
        proof {
            lemma_node_key(ident, elem);
        }
        let sent: Option<LinkedItem> = match self.sentinels.get(&ident) {
            None => None,
            Some(it) => Some(*it),
        };
        match sent {
            None => {
                // the list was empty: one member that is both head and tail
                proof {
                    assert(!pre.lists().dom().contains(ident));
                }
                self.nodes.insert(key, LinkedItem { prev: None, next: None });
                self.sentinels.insert(
                    ident,
                    LinkedItem { prev: Some(elem), next: Some(elem) },
                );
                self.model = Ghost(self.model@.insert(ident, seq![elem]));
                proof {
                    self.lemma_append_restores(pre, ident, elem);
                }
            },
            Some(st) => {
                proof {
                    assert(pre.lists().dom().contains(ident));
                    assert(pre.list_ok(ident));
                }
                let head = st.next.unwrap();
                let hkey = node_key_exec(ident, head);
                proof {
                    lemma_node_key(ident, head);
                    assert(self.nodes@.contains_key(node_key(ident, s[0])));
                }
                let hnode = *self.nodes.get(&hkey).unwrap();
                self.nodes.insert(key, LinkedItem { prev: None, next: Some(head) });
                self.nodes.insert(hkey, LinkedItem { prev: Some(elem), next: hnode.next });
                self.sentinels.insert(ident, LinkedItem { prev: st.prev, next: Some(elem) });
                self.model = Ghost(self.model@.insert(ident, seq![elem] + s));
                proof {
                    self.lemma_append_restores(pre, ident, elem);
                }
            },
        }
        true
    }

    /// After the writes of `append`, the whole structure is well-formed again.
    proof fn lemma_append_restores(self, pre: LinkedList, ident: u64, elem: u64)
        requires
            pre.wf(),
            !pre.list(ident).contains(elem),
            self.lists() == pre.lists().insert(ident, seq![elem] + pre.list(ident)),
            self.sentinels@ == pre.sentinels@.insert(
                ident,
                LinkedItem {
                    prev: if pre.list(ident).len() == 0 {
                        Some(elem)
                    } else {
                        Some(pre.list(ident)[pre.list(ident).len() - 1])
                    },
                    next: Some(elem),
                },
            ),
            self.nodes@ == (if pre.list(ident).len() == 0 {
                pre.nodes@.insert(node_key(ident, elem), LinkedItem { prev: None, next: None })
            } else {
                pre.nodes@.insert(
                    node_key(ident, elem),
                    LinkedItem { prev: None, next: Some(pre.list(ident)[0]) },
                ).insert(
                    node_key(ident, pre.list(ident)[0]),
                    LinkedItem {
                        prev: Some(elem),
                        next: expected_node(pre.list(ident), 0).next,
                    },
                )
            }),
        ensures
            self.wf(),
            self.list(ident) == seq![elem] + pre.list(ident),
            forall|k: u64| k != ident ==> self.list(k) == pre.list(k),
    {
        let s = pre.list(ident);
        let s2 = seq![elem] + s;
        lemma_node_key(ident, elem);
        assert(s2[0] == elem);
        assert forall|i: int| 0 <= i < s.len() implies s2[i + 1] == s[i] by {}
        // the new list has no duplicates
        assert forall|i: int, j: int| 0 <= i < j < s2.len() implies s2[i] != s2[j] by {
            if i == 0 {
                assert(s.contains(s[j - 1]));
            } else {
                assert(pre.list_ok(ident) ==> s.no_duplicates());
            }
        }
        assert(s2.no_duplicates());
        // the rewritten slots of `ident` carry the expected records
        assert forall|i: int| 0 <= i < s2.len() implies self.nodes@.contains_key(
            #[trigger] node_key(ident, s2[i]),
        ) && self.nodes@[node_key(ident, s2[i])] == expected_node(s2, i) by {
            lemma_node_key(ident, s2[i]);
            if i == 0 {
            } else {
                lemma_node_key(ident, s[0]);
                assert(pre.list_ok(ident));
                assert(pre.nodes@.contains_key(node_key(ident, s[i - 1])));
                assert(pre.nodes@[node_key(ident, s[i - 1])] == expected_node(s, i - 1));
                if i == 1 {
                    assert(s2[1] == s[0]);
                    assert(self.nodes@[node_key(ident, s[0])].prev == Some(elem));
                } else {
                    assert(s2[i] == s[i - 1]);
                    assert(s[i - 1] != elem) by {
                        assert(s.contains(s[i - 1]));
                    }
                    assert(s[i - 1] != s[0]);
                    assert(self.nodes@[node_key(ident, s2[i])] == expected_node(s, i - 1));
                }
            }
        }
        assert(self.list_ok(ident));
        // untouched lists keep their layout
        assert forall|k: u64| #[trigger]
            self.lists().dom().contains(k) && k != ident implies self.list_ok(k) by {
            assert(pre.lists().dom().contains(k));
            assert(pre.list_ok(k));
            let t = pre.lists()[k];
            assert forall|i: int| 0 <= i < t.len() implies self.nodes@.contains_key(
                #[trigger] node_key(k, t[i]),
            ) && self.nodes@[node_key(k, t[i])] == expected_node(t, i) by {
                lemma_node_key(k, t[i]);
                lemma_node_key(ident, elem);
                if s.len() > 0 {
                    lemma_node_key(ident, s[0]);
                }
                assert(pre.nodes@.contains_key(node_key(k, t[i])));
            }
        }
        // every sentinel belongs to a modeled list
        assert forall|k: u64| #[trigger] self.sentinels@.contains_key(k) implies
            self.lists().dom().contains(k) by {
            if k != ident {
                assert(pre.sentinels@.contains_key(k));
            }
        }
        // every member record decodes into a modeled list
        assert forall|key: u128| #[trigger] self.nodes@.contains_key(key) implies
            self.lists().dom().contains(key_ident(key)) && self.lists()[key_ident(
                key,
            )].contains(key_elem(key)) by {
            lemma_node_key(ident, elem);
            if key == node_key(ident, elem) {
                assert(s2[0] == elem);
                assert(s2.contains(elem));
            } else if s.len() > 0 && key == node_key(ident, s[0]) {
                lemma_node_key(ident, s[0]);
                assert(s2[1] == s[0]);
                assert(s2.contains(s[0]));
            } else {
                assert(pre.nodes@.contains_key(key));
                if key_ident(key) == ident {
                    let w = key_elem(key);
                    assert(s.contains(w));
                    let i = choose|i: int| 0 <= i < s.len() && s[i] == w;
                    assert(s2[i + 1] == w);
                    assert(s2.contains(w));
                }
            }
        }
        assert(self.list(ident) =~= s2);
        assert forall|k: u64| k != ident implies self.list(k) == pre.list(k) by {}
    }

    /// Removes `elem` from wherever it sits in the list `ident`, relinking its
    /// neighbours; removal of a non-member is reported as `false` and leaves
    /// the store untouched.
    pub fn remove(&mut self, ident: u64, elem: u64) -> (r: bool)
        requires
            old(self).wf(),
        ensures
            final(self).wf(),
            r == old(self).list(ident).contains(elem),
            !r ==> *final(self) == *old(self),
            r ==> final(self).lists() == (if old(self).list(ident).len() == 1 {
                old(self).lists().remove(ident)
            } else {
                old(self).lists().insert(ident, remove_elem(old(self).list(ident), elem))
            }),
            r ==> final(self).list(ident) == remove_elem(old(self).list(ident), elem),
            forall|k: u64| k != ident ==> final(self).list(k) == old(self).list(k),
    {
        let key = node_key_exec(ident, elem);
        proof {
            lemma_node_key(ident, elem);
            if self.list(ident).contains(elem) {
                let s = self.list(ident);
                let i = choose|i: int| 0 <= i < s.len() && s[i] == elem;
                assert(self.nodes@.contains_key(node_key(ident, s[i])));
            }
        }
        let node: LinkedItem = match self.nodes.get(&key) {
            None => {
                return false;
            },
            Some(n) => *n,
        };
        let ghost pre = *self;
        let ghost s = self.list(ident);
        let ghost i = elem_index(s, elem);
        proof {
            assert(pre.lists().dom().contains(ident));
            assert(pre.list_ok(ident));
            lemma_elem_index(s, elem);
            assert(self.nodes@.contains_key(node_key(ident, s[i])));
            assert(node == expected_node(s, i));
            lemma_remove_elem(s, elem);
        }
        self.nodes.remove(&key);
        match (node.prev, node.next) {
            (None, None) => {
                // the only member: the list becomes empty
                proof {
                    assert(i == 0 && i == s.len() - 1);
                }
                self.sentinels.remove(&ident);
                self.model = Ghost(self.model@.remove(ident));
            },
            (None, Some(nx)) => {
                // the head of a longer list
                proof {
                    assert(i == 0 && s.len() >= 2 && nx == s[1]);
                }
                let st = *self.sentinels.get(&ident).unwrap();
                self.sentinels.insert(ident, LinkedItem { prev: st.prev, next: Some(nx) });
                let nkey = node_key_exec(ident, nx);
                proof {
                    lemma_node_key(ident, nx);
                    assert(pre.nodes@.contains_key(node_key(ident, s[1])));
                    assert(nx != elem);
                }
                let nnode = *self.nodes.get(&nkey).unwrap();
                self.nodes.insert(nkey, LinkedItem { prev: None, next: nnode.next });
                self.model = Ghost(self.model@.insert(ident, remove_elem(s, elem)));
            },
            (Some(pv), None) => {
                // the tail of a longer list
                proof {
                    assert(i == s.len() - 1 && s.len() >= 2 && pv == s[i - 1]);
                }
                let st = *self.sentinels.get(&ident).unwrap();
                self.sentinels.insert(ident, LinkedItem { prev: Some(pv), next: st.next });
                let pkey = node_key_exec(ident, pv);
                proof {
                    lemma_node_key(ident, pv);
                    assert(pre.nodes@.contains_key(node_key(ident, s[i - 1])));
                    assert(pv != elem);
                }
                let pnode = *self.nodes.get(&pkey).unwrap();
                self.nodes.insert(pkey, LinkedItem { prev: pnode.prev, next: None });
                self.model = Ghost(self.model@.insert(ident, remove_elem(s, elem)));
            },
            (Some(pv), Some(nx)) => {
                // somewhere in the middle: relink both neighbours
                proof {
                    assert(1 <= i < s.len() - 1 && s.len() >= 3);
                    assert(pv == s[i - 1] && nx == s[i + 1]);
                    lemma_node_key(ident, pv);
                    lemma_node_key(ident, nx);
                    assert(pre.nodes@.contains_key(node_key(ident, s[i - 1])));
                    assert(pre.nodes@.contains_key(node_key(ident, s[i + 1])));
                    assert(pv != elem && nx != elem && pv != nx);
                }
                let pkey = node_key_exec(ident, pv);
                let pnode = *self.nodes.get(&pkey).unwrap();
                self.nodes.insert(pkey, LinkedItem { prev: pnode.prev, next: Some(nx) });
                let nkey = node_key_exec(ident, nx);
                let nnode = *self.nodes.get(&nkey).unwrap();
                self.nodes.insert(nkey, LinkedItem { prev: Some(pv), next: nnode.next });
                self.model = Ghost(self.model@.insert(ident, remove_elem(s, elem)));
                proof {
                    // the sentinel is untouched: rewriting it with its own value changes nothing
                    assert(pre.sentinels@ =~= pre.sentinels@.insert(
                        ident,
                        (LinkedItem { prev: Some(s[s.len() - 1]), next: Some(s[0]) }),
                    ));
                }
            },
        }
        proof {
            self.lemma_remove_restores(pre, ident, elem);
        }
        true
    }

    /// After the writes of `remove`, the whole structure is well-formed again.
    proof fn lemma_remove_restores(self, pre: LinkedList, ident: u64, elem: u64)
        requires
            pre.wf(),
            pre.list(ident).contains(elem),
            self.lists() == (if pre.list(ident).len() == 1 {
                pre.lists().remove(ident)
            } else {
                pre.lists().insert(ident, remove_elem(pre.list(ident), elem))
            }),
            pre.list(ident).len() == 1 ==> self.sentinels@ == pre.sentinels@.remove(ident)
                && self.nodes@ == pre.nodes@.remove(node_key(ident, elem)),
            pre.list(ident).len() > 1 ==> {
                let s = pre.list(ident);
                let i = elem_index(s, elem);
                &&& self.sentinels@ == pre.sentinels@.insert(
                    ident,
                    LinkedItem {
                        prev: if i == s.len() - 1 {
                            Some(s[i - 1])
                        } else {
                            Some(s[s.len() - 1])
                        },
                        next: if i == 0 {
                            Some(s[1])
                        } else {
                            Some(s[0])
                        },
                    },
                )
                &&& self.nodes@ == (if i == 0 {
                    pre.nodes@.remove(node_key(ident, elem)).insert(
                        node_key(ident, s[1]),
                        LinkedItem { prev: None, next: expected_node(s, 1).next },
                    )
                } else if i == s.len() - 1 {
                    pre.nodes@.remove(node_key(ident, elem)).insert(
                        node_key(ident, s[i - 1]),
                        LinkedItem { prev: expected_node(s, i - 1).prev, next: None },
                    )
                } else {
                    pre.nodes@.remove(node_key(ident, elem)).insert(
                        node_key(ident, s[i - 1]),
                        LinkedItem { prev: expected_node(s, i - 1).prev, next: Some(s[i + 1]) },
                    ).insert(
                        node_key(ident, s[i + 1]),
                        LinkedItem { prev: Some(s[i - 1]), next: expected_node(s, i + 1).next },
                    )
                })
            },
        ensures
            self.wf(),
            self.list(ident) == remove_elem(pre.list(ident), elem),
            forall|k: u64| k != ident ==> self.list(k) == pre.list(k),
    {
        let s = pre.list(ident);
        assert(pre.lists().dom().contains(ident));
        assert(pre.list_ok(ident));
        lemma_elem_index(s, elem);
        lemma_remove_elem(s, elem);
        let i = elem_index(s, elem);
        let s2 = remove_elem(s, elem);
        lemma_node_key(ident, elem);
        if s.len() > 1 {
            assert(self.lists().dom().contains(ident));
            assert(self.lists()[ident] == s2);
            // the relinked slots of `ident` carry the expected records
            assert forall|j: int| 0 <= j < s2.len() implies self.nodes@.contains_key(
                #[trigger] node_key(ident, s2[j]),
            ) && self.nodes@[node_key(ident, s2[j])] == expected_node(s2, j) by {
                let j2 = if j < i {
                    j
                } else {
                    j + 1
                };
                assert(s2[j] == s[j2]);
                lemma_node_key(ident, s[j2]);
                if i >= 1 {
                    lemma_node_key(ident, s[i - 1]);
                }
                if i < s.len() - 1 {
                    lemma_node_key(ident, s[i + 1]);
                }
                assert(pre.nodes@.contains_key(node_key(ident, s[j2])));
                assert(pre.nodes@[node_key(ident, s[j2])] == expected_node(s, j2));
                assert(s[j2] != elem);
                // each slot is either one of the two rewritten neighbours or untouched
                if j2 == i - 1 {
                    if i == s.len() - 1 {
                        assert(self.nodes@[node_key(ident, s2[j])] == (LinkedItem {
                            prev: expected_node(s, i - 1).prev,
                            next: None,
                        }));
                    } else {
                        assert(self.nodes@[node_key(ident, s2[j])] == (LinkedItem {
                            prev: expected_node(s, i - 1).prev,
                            next: Some(s[i + 1]),
                        }));
                        assert(s2[j + 1] == s[i + 1]);
                    }
                    assert(self.nodes@[node_key(ident, s2[j])] == expected_node(s2, j));
                } else if j2 == i + 1 {
                    if i == 0 {
                        assert(self.nodes@[node_key(ident, s2[j])] == (LinkedItem {
                            prev: None,
                            next: expected_node(s, 1).next,
                        }));
                    } else {
                        assert(self.nodes@[node_key(ident, s2[j])] == (LinkedItem {
                            prev: Some(s[i - 1]),
                            next: expected_node(s, i + 1).next,
                        }));
                        assert(s2[j - 1] == s[i - 1]);
                    }
                    assert(self.nodes@[node_key(ident, s2[j])] == expected_node(s2, j));
                } else {
                    assert(s[j2] != s[i - 1] || i == 0);
                    assert(s[j2] != s[i + 1] || i == s.len() - 1);
                    assert(self.nodes@[node_key(ident, s2[j])] == expected_node(s, j2));
                    assert(expected_node(s, j2) == expected_node(s2, j));
                }
            }
            assert(self.list_ok(ident));
        } else {
            assert(!self.lists().dom().contains(ident));
        }
        // untouched lists keep their layout
        assert forall|k: u64| #[trigger]
            self.lists().dom().contains(k) && k != ident implies self.list_ok(k) by {
            assert(pre.lists().dom().contains(k));
            assert(pre.list_ok(k));
            let t = pre.lists()[k];
            assert forall|j: int| 0 <= j < t.len() implies self.nodes@.contains_key(
                #[trigger] node_key(k, t[j]),
            ) && self.nodes@[node_key(k, t[j])] == expected_node(t, j) by {
                lemma_node_key(k, t[j]);
                if i >= 1 {
                    lemma_node_key(ident, s[i - 1]);
                }
                if i < s.len() - 1 {
                    lemma_node_key(ident, s[i + 1]);
                }
                assert(pre.nodes@.contains_key(node_key(k, t[j])));
            }
        }
        assert forall|k: u64| #[trigger] self.sentinels@.contains_key(k) implies
            self.lists().dom().contains(k) by {
            if k != ident {
                assert(pre.sentinels@.contains_key(k));
            }
        }
        assert forall|key: u128| #[trigger] self.nodes@.contains_key(key) implies
            self.lists().dom().contains(key_ident(key)) && self.lists()[key_ident(
                key,
            )].contains(key_elem(key)) by {
            if i >= 1 {
                lemma_node_key(ident, s[i - 1]);
            }
            if i < s.len() - 1 {
                lemma_node_key(ident, s[i + 1]);
            }
            assert(pre.nodes@.contains_key(key));
            let k = key_ident(key);
            let w = key_elem(key);
            if k == ident {
                assert(s.contains(w));
                assert(w != elem) by {
                    lemma_key_decode(key);
                    lemma_node_key(ident, elem);
                }
                assert(s2.contains(w));
            }
        }
        assert(self.list(ident) =~= s2);
    }

    /// The members of `ident`, gathered by walking `next` pointers from the
    /// sentinel: the walk visits exactly the current members, head first.
    pub fn members(&self, ident: u64) -> (r: Vec<u64>)
        requires
            self.wf(),
        ensures
            r@ == self.list(ident),
    {
        let ghost s = self.list(ident);
        let mut r: Vec<u64> = Vec::new();
        let mut cur: Option<u64> = match self.sentinels.get(&ident) {
            None => None,
            Some(st) => st.next,
        };
        proof {
            if self.lists().dom().contains(ident) {
                assert(self.list_ok(ident));
            }
        }
        while cur.is_some()
            invariant
                self.wf(),
                s == self.list(ident),
                r@.len() <= s.len(),
                r@ == s.subrange(0, r@.len() as int),
                cur == (if r@.len() < s.len() {
                    Some(s[r@.len() as int])
                } else {
                    None::<u64>
                }),
            decreases s.len() - r@.len(),
        {
            let v = cur.unwrap();
            let ghost j = r@.len() as int;
            proof {
                assert(self.lists().dom().contains(ident));
                assert(self.list_ok(ident));
                assert(self.nodes@.contains_key(node_key(ident, s[j])));
            }
            let key = node_key_exec(ident, v);
            let node = *self.nodes.get(&key).unwrap();
            r.push(v);
            cur = node.next;
            proof {
                assert(node == expected_node(s, j));
                assert(r@ =~= s.subrange(0, j + 1));
            }
        }
        proof {
            assert(r@ =~= s);
        }
        r
    }

    /// The members of `ident`, gathered by walking `prev` pointers from the
    /// sentinel: the backward walk visits exactly the members, tail first.
    pub fn members_back(&self, ident: u64) -> (r: Vec<u64>)
        requires
            self.wf(),
        ensures
            r@ == self.list(ident).reverse(),
    {
        let ghost s = self.list(ident);
        let mut r: Vec<u64> = Vec::new();
        let mut cur: Option<u64> = match self.sentinels.get(&ident) {
            None => None,
            Some(st) => st.prev,
        };
        proof {
            if self.lists().dom().contains(ident) {
                assert(self.list_ok(ident));
            }
        }
        while cur.is_some()
            invariant
                self.wf(),
                s == self.list(ident),
                r@.len() <= s.len(),
                r@ == s.reverse().subrange(0, r@.len() as int),
                cur == (if r@.len() < s.len() {
                    Some(s[s.len() - 1 - r@.len()])
                } else {
                    None::<u64>
                }),
            decreases s.len() - r@.len(),
        {
            let v = cur.unwrap();
            let ghost j = s.len() - 1 - r@.len() as int;
            proof {
                assert(self.lists().dom().contains(ident));
                assert(self.list_ok(ident));
                assert(s.reverse()[r@.len() as int] == s[j]);
                assert(self.nodes@.contains_key(node_key(ident, s[j])));
            }
            let key = node_key_exec(ident, v);
            let node = *self.nodes.get(&key).unwrap();
            r.push(v);
            cur = node.prev;
            proof {
                assert(node == expected_node(s, j));
                assert(r@ =~= s.reverse().subrange(0, r@.len() as int));
            }
        }
        proof {
            assert(r@ =~= s.reverse());
        }
        r
    }

    /// Each member sits in a list at most once.
    pub proof fn lemma_no_dup(self, ident: u64)
        requires
            self.wf(),
        ensures
            self.list(ident).no_duplicates(),
    {
        if self.lists().dom().contains(ident) {
            assert(self.list_ok(ident));
        }
    }

    /// An identity is held in the map exactly while its list is non-empty.
    pub proof fn lemma_nonempty(self, ident: u64)
        requires
            self.wf(),
        ensures
            self.lists().dom().contains(ident) <==> self.list(ident).len() > 0,
    {
        if self.lists().dom().contains(ident) {
            assert(self.list_ok(ident));
        }
    }

    /// Every member of every list is below `n`.
    pub open spec fn elems_below(self, n: int) -> bool {
        forall|k: u64, i: int| 0 <= i < self.list(k).len() ==> #[trigger] self.list(k)[i] < n
    }

    /// Every identity holding a non-empty list is below `n`.
    pub open spec fn idents_below(self, n: int) -> bool {
        forall|k: u64| #[trigger] self.lists().dom().contains(k) ==> k < n
    }

    pub proof fn lemma_below_mono(self, n: int, m: int)
        requires
            n <= m,
        ensures
            self.elems_below(n) ==> self.elems_below(m),
            self.idents_below(n) ==> self.idents_below(m),
    {
    }

    /// List integrity: the stored records are exactly the members of the
    /// list, each appearing once, the sentinel points at head and tail, and
    /// every member's record names its neighbours -- so the walk along `next`
    /// from the sentinel visits exactly the members in order, and the walk
    /// along `prev` visits them reversed.
    pub proof fn lemma_list_structure(self, ident: u64)
        requires
            self.wf(),
        ensures
            self.list(ident).no_duplicates(),
            self.node(ident, None) is Some <==> self.list(ident).len() > 0,
            self.list(ident).len() > 0 ==> self.node(ident, None) == Some(
                LinkedItem {
                    prev: Some(self.list(ident)[self.list(ident).len() - 1]),
                    next: Some(self.list(ident)[0]),
                },
            ),
            forall|i: int|
                0 <= i < self.list(ident).len() ==> self.node(
                    ident,
                    Some(#[trigger] self.list(ident)[i]),
                ) == Some(expected_node(self.list(ident), i)),
            forall|v: u64| #[trigger]
                self.node(ident, Some(v)) is Some <==> self.list(ident).contains(v),
    {
        if self.lists().dom().contains(ident) {
            assert(self.list_ok(ident));
        }
        let s = self.list(ident);
        assert forall|i: int| 0 <= i < s.len() implies self.node(ident, Some(#[trigger] s[i]))
            == Some(expected_node(s, i)) by {
            lemma_node_key(ident, s[i]);
            assert(self.nodes@.contains_key(node_key(ident, s[i])));
        }
        assert forall|v: u64| #[trigger] self.node(ident, Some(v)) is Some <==> s.contains(
            v,
        ) by {
            lemma_node_key(ident, v);
            if s.contains(v) {
                let i = choose|i: int| 0 <= i < s.len() && s[i] == v;
                assert(self.nodes@.contains_key(node_key(ident, s[i])));
            }
        }
    }

    /// No dangling references: every pointer held by a stored record names a
    /// record that exists and points back at it, the sentinel included.
    pub proof fn lemma_no_dangling(self, ident: u64, v: u64)
        requires
            self.wf(),
            self.node(ident, Some(v)) is Some,
        ensures
            self.node(ident, Some(v)) matches Some(nd) ==> {
                &&& (nd.next matches Some(w) ==> (self.node(ident, Some(w)) matches Some(m)
                    && m.prev == Some(v)))
                &&& (nd.next is None ==> (self.node(ident, None) matches Some(st) && st.prev
                    == Some(v)))
                &&& (nd.prev matches Some(w) ==> (self.node(ident, Some(w)) matches Some(m)
                    && m.next == Some(v)))
                &&& (nd.prev is None ==> (self.node(ident, None) matches Some(st) && st.next
                    == Some(v)))
            },
    {
        lemma_node_key(ident, v);
        let s = self.list(ident);
        assert(self.lists().dom().contains(ident) && s.contains(v));
        assert(self.list_ok(ident));
        let i = choose|i: int| 0 <= i < s.len() && s[i] == v;
        assert(self.nodes@.contains_key(node_key(ident, s[i])));
        let nd = self.nodes@[node_key(ident, v)];
        assert(nd == expected_node(s, i));
        if i < s.len() - 1 {
            lemma_node_key(ident, s[i + 1]);
            assert(self.nodes@.contains_key(node_key(ident, s[i + 1])));
            assert(self.nodes@[node_key(ident, s[i + 1])] == expected_node(s, i + 1));
        }
        if i > 0 {
            lemma_node_key(ident, s[i - 1]);
            assert(self.nodes@.contains_key(node_key(ident, s[i - 1])));
            assert(self.nodes@[node_key(ident, s[i - 1])] == expected_node(s, i - 1));
        }
    }
}

} // verus!
