//! An existence-proof claim registry: a key-value store from a byte-string
//! claim to the account that registered it and the height at which it did.
//! Claims within the configured length bounds can be registered once, revoked
//! by their owner, and transferred to another account.

use vstd::prelude::*;

verus! {

/// The failures the claim registry reports.
#[derive(Clone, Copy, PartialEq, Eq, Structural, Debug)]
pub enum ClaimError {
    ClaimAlreadyExist,
    ClaimNotExist,
    NotClaimOwner,
    ClaimTooShort,
    ClaimTooLong,
}

struct ClaimEntry {
    claim: Vec<u8>,
    owner: u64,
    height: u64,
}

spec fn distinct_claims(s: Seq<ClaimEntry>) -> bool {
    forall|i: int, j: int| 0 <= i < j < s.len() ==> s[i].claim@ != s[j].claim@
}

spec fn has_claim_in(s: Seq<ClaimEntry>, k: Seq<u8>) -> bool {
    exists|i: int| 0 <= i < s.len() && s[i].claim@ == k
}

spec fn claim_index(s: Seq<ClaimEntry>, k: Seq<u8>) -> int {
    choose|i: int| 0 <= i < s.len() && s[i].claim@ == k
}

spec fn lookup(s: Seq<ClaimEntry>, k: Seq<u8>) -> Option<(u64, u64)> {
    if has_claim_in(s, k) {
        Some((s[claim_index(s, k)].owner, s[claim_index(s, k)].height))
    } else {
        None
    }
}

proof fn lemma_claim_index(s: Seq<ClaimEntry>, k: Seq<u8>)
    requires
        distinct_claims(s),
        has_claim_in(s, k),
    ensures
        0 <= claim_index(s, k) < s.len(),
        s[claim_index(s, k)].claim@ == k,
        forall|j: int| 0 <= j < s.len() && s[j].claim@ == k ==> j == claim_index(s, k),
{
    let i = choose|i: int| 0 <= i < s.len() && s[i].claim@ == k;
    assert(0 <= claim_index(s, k) < s.len() && s[claim_index(s, k)].claim@ == k);
}

proof fn lemma_lookup_push(s: Seq<ClaimEntry>, e: ClaimEntry)
    requires
        distinct_claims(s),
        !has_claim_in(s, e.claim@),
    ensures
        distinct_claims(s.push(e)),
        lookup(s.push(e), e.claim@) == Some((e.owner, e.height)),
        forall|k: Seq<u8>| k != e.claim@ ==> lookup(s.push(e), k) == lookup(s, k),
{
    let s2 = s.push(e);
    assert forall|i: int, j: int| 0 <= i < j < s2.len() implies s2[i].claim@ != s2[j].claim@ by {
        if j == s.len() {
            if s2[i].claim@ == e.claim@ {
                assert(s[i].claim@ == e.claim@);
            }
        }
    }
    assert(s2[s.len() as int].claim@ == e.claim@);
    assert(has_claim_in(s2, e.claim@));
    lemma_claim_index(s2, e.claim@);
    assert(claim_index(s2, e.claim@) == s.len());
    assert forall|k: Seq<u8>| k != e.claim@ implies lookup(s2, k) == lookup(s, k) by {
        if has_claim_in(s, k) {
            lemma_claim_index(s, k);
            let i = claim_index(s, k);
            assert(s2[i].claim@ == k);
            lemma_claim_index(s2, k);
            assert(claim_index(s2, k) == i);
        } else {
            if has_claim_in(s2, k) {
                let i = choose|i: int| 0 <= i < s2.len() && s2[i].claim@ == k;
                assert(i < s.len());
                assert(s[i].claim@ == k);
            }
        }
    }
}

proof fn lemma_lookup_remove(s: Seq<ClaimEntry>, i: int)
    requires
        distinct_claims(s),
        0 <= i < s.len(),
    ensures
        distinct_claims(s.remove(i)),
        lookup(s.remove(i), s[i].claim@) == None::<(u64, u64)>,
        forall|k: Seq<u8>| k != s[i].claim@ ==> lookup(s.remove(i), k) == lookup(s, k),
{
    let s2 = s.remove(i);
    assert forall|j: int| 0 <= j < s2.len() implies s2[j] == s[if j < i {
        j
    } else {
        j + 1
    }] by {}
    assert forall|x: int, y: int| 0 <= x < y < s2.len() implies s2[x].claim@ != s2[y].claim@ by {
        let x2 = if x < i {
            x
        } else {
            x + 1
        };
        let y2 = if y < i {
            y
        } else {
            y + 1
        };
        assert(s[x2].claim@ != s[y2].claim@);
    }
    if has_claim_in(s2, s[i].claim@) {
        let j = choose|j: int| 0 <= j < s2.len() && s2[j].claim@ == s[i].claim@;
        let j2 = if j < i {
            j
        } else {
            j + 1
        };
        assert(s[j2].claim@ == s[i].claim@);
        if j2 < i {
            assert(s[j2].claim@ != s[i].claim@);
        } else {
            assert(j2 > i);
            assert(s[i].claim@ != s[j2].claim@);
        }
        assert(false);
    }
    assert forall|k: Seq<u8>| k != s[i].claim@ implies lookup(s2, k) == lookup(s, k) by {
        if has_claim_in(s, k) {
            lemma_claim_index(s, k);
            let j = claim_index(s, k);
            assert(j != i);
            let j2 = if j < i {
                j
            } else {
                j - 1
            };
            assert(s2[j2].claim@ == k);
            lemma_claim_index(s2, k);
            let m = claim_index(s2, k);
            let m2 = if m < i {
                m
            } else {
                m + 1
            };
            assert(s[m2].claim@ == k);
            assert(m2 == j);
        } else {
            if has_claim_in(s2, k) {
                let j = choose|j: int| 0 <= j < s2.len() && s2[j].claim@ == k;
                let j2 = if j < i {
                    j
                } else {
                    j + 1
                };
                assert(s[j2].claim@ == k);
            }
        }
    }
}

/// Whether two byte strings hold the same bytes.
fn bytes_eq(a: &Vec<u8>, b: &Vec<u8>) -> (r: bool)
    ensures
        r == (a@ == b@),
{
    if a.len() != b.len() {
        proof {
            assert(a@ != b@);
        }
        return false;
    }
    let mut i: usize = 0;
    while i < a.len()
        invariant
            a@.len() == b@.len(),
            i <= a@.len(),
            forall|j: int| 0 <= j < i ==> a@[j] == b@[j],
        decreases a@.len() - i,
    {
        if a[i] != b[i] {
            proof {
                assert(a@ != b@);
            }
            return false;
        }
        i = i + 1;
    }
    proof {
        assert(a@ =~= b@);
    }
    true
}

/// The claim store: entries with pairwise distinct claims, and the length
/// bounds a claim must meet to be registered.
pub struct ClaimRegistry {
    entries: Vec<ClaimEntry>,
    min_length: usize,
    max_length: usize,
}

impl ClaimRegistry {
    /// The registered owner and registration height of a claim, if any.
    pub closed spec fn claim_of(self, k: Seq<u8>) -> Option<(u64, u64)> {
        lookup(self.entries@, k)
    }

    pub closed spec fn min_len(self) -> usize {
        self.min_length
    }

    pub closed spec fn max_len(self) -> usize {
        self.max_length
    }

    pub closed spec fn wf(self) -> bool {
        distinct_claims(self.entries@)
    }

    /// An empty registry accepting claims of `min_length..=max_length` bytes.
    pub fn new(min_length: usize, max_length: usize) -> (r: ClaimRegistry)
        ensures
            r.wf(),
            r.min_len() == min_length,
            r.max_len() == max_length,
            forall|k: Seq<u8>| #[trigger] r.claim_of(k) is None,
    {
        ClaimRegistry { entries: Vec::new(), min_length, max_length }
    }

    /// The position of `claim` among the entries, if it is registered.
    fn find(&self, claim: &Vec<u8>) -> (r: Option<usize>)
        requires
            self.wf(),
        ensures
            match r {
                Some(i) => i < self.entries@.len() && self.entries@[i as int].claim@ == claim@,
                None => self.claim_of(claim@) is None,
            },
    {
        let mut i: usize = 0;
        while i < self.entries.len()
            invariant
                self.wf(),
                i <= self.entries@.len(),
                forall|j: int| 0 <= j < i ==> self.entries@[j].claim@ != claim@,
            decreases self.entries@.len() - i,
        {
            if bytes_eq(&self.entries[i].claim, claim) {
                return Some(i);
            }
            i = i + 1;
        }
        proof {
            if has_claim_in(self.entries@, claim@) {
                let j = choose|j: int|
                    0 <= j < self.entries@.len() && self.entries@[j].claim@ == claim@;
                assert(false);
            }
        }
        None
    }

    /// The registered owner and height of `claim`, by lookup.
    pub fn proof_of(&self, claim: &Vec<u8>) -> (r: Option<(u64, u64)>)
        requires
            self.wf(),
        ensures
            r == self.claim_of(claim@),
    {
        match self.find(claim) {
            None => None,
            Some(i) => {
                proof {
                    lemma_claim_index(self.entries@, claim@);
                }
                let e = &self.entries[i];
                Some((e.owner, e.height))
            },
        }
    }

    /// Registers `claim` for `sender` at height `now`.  Fails, changing
    /// nothing, when the claim is shorter than the minimum, longer than the
    /// maximum, or already registered -- in that order.
    pub fn create_claim(&mut self, sender: u64, claim: Vec<u8>, now: u64) -> (r: Result<
        (),
        ClaimError,
    >)
        requires
            old(self).wf(),
        ensures
            final(self).wf(),
            final(self).min_len() == old(self).min_len(),
            final(self).max_len() == old(self).max_len(),
            claim@.len() < old(self).min_len() ==> r == Err::<(), ClaimError>(
                ClaimError::ClaimTooShort,
            ),
            claim@.len() >= old(self).min_len() && claim@.len() > old(self).max_len() ==> r
                == Err::<(), ClaimError>(ClaimError::ClaimTooLong),
            old(self).min_len() <= claim@.len() <= old(self).max_len() && old(self).claim_of(
                claim@,
            ) is Some ==> r == Err::<(), ClaimError>(ClaimError::ClaimAlreadyExist),
            r is Ok <==> (old(self).min_len() <= claim@.len() <= old(self).max_len() && old(
                self,
            ).claim_of(claim@) is None),
            r is Err ==> *final(self) == *old(self),
            r is Ok ==> final(self).claim_of(claim@) == Some((sender, now)),
            r is Ok ==> forall|k: Seq<u8>| k != claim@ ==> final(self).claim_of(k) == old(
                self,
            ).claim_of(k),
    {
        if claim.len() < self.min_length {
            return Err(ClaimError::ClaimTooShort);
        }
        if claim.len() > self.max_length {
            return Err(ClaimError::ClaimTooLong);
        }
        match self.find(&claim) {
            Some(_) => {
                proof {
                    assert(has_claim_in(self.entries@, claim@));
                }
                Err(ClaimError::ClaimAlreadyExist)
            },
            None => {
                let ghost s = self.entries@;
                let entry = ClaimEntry { claim, owner: sender, height: now };
                proof {
                    lemma_lookup_push(s, entry);
                }
                self.entries.push(entry);
                Ok(())
            },
        }
    }

    /// Revokes `claim`; only its owner may do so.
    pub fn revoke_claim(&mut self, sender: u64, claim: &Vec<u8>) -> (r: Result<(), ClaimError>)
        requires
            old(self).wf(),
        ensures
            final(self).wf(),
            final(self).min_len() == old(self).min_len(),
            final(self).max_len() == old(self).max_len(),
            old(self).claim_of(claim@) is None ==> r == Err::<(), ClaimError>(
                ClaimError::ClaimNotExist,
            ),
            old(self).claim_of(claim@) matches Some(p) && p.0 != sender ==> r == Err::<
                (),
                ClaimError,
            >(ClaimError::NotClaimOwner),
            r is Ok <==> (old(self).claim_of(claim@) matches Some(p) && p.0 == sender),
            r is Err ==> *final(self) == *old(self),
            r is Ok ==> final(self).claim_of(claim@) is None,
            r is Ok ==> forall|k: Seq<u8>| k != claim@ ==> final(self).claim_of(k) == old(
                self,
            ).claim_of(k),
    {
        let i = match self.find(claim) {
            None => {
                return Err(ClaimError::ClaimNotExist);
            },
            Some(i) => i,
        };
        proof {
            lemma_claim_index(self.entries@, claim@);
        }
        if self.entries[i].owner != sender {
            return Err(ClaimError::NotClaimOwner);
        }
        proof {
            lemma_lookup_remove(self.entries@, i as int);
        }
        self.entries.remove(i);
        Ok(())
    }

    /// Hands `claim` over to `receiver`, re-registering it at height `now`;
    /// only the current owner may do so.
    pub fn transfer_claim(&mut self, sender: u64, receiver: u64, claim: &Vec<u8>, now: u64) -> (r:
        Result<(), ClaimError>)
        requires
            old(self).wf(),
        ensures
            final(self).wf(),
            final(self).min_len() == old(self).min_len(),
            final(self).max_len() == old(self).max_len(),
            old(self).claim_of(claim@) is None ==> r == Err::<(), ClaimError>(
                ClaimError::ClaimNotExist,
            ),
            old(self).claim_of(claim@) matches Some(p) && p.0 != sender ==> r == Err::<
                (),
                ClaimError,
            >(ClaimError::NotClaimOwner),
            r is Ok <==> (old(self).claim_of(claim@) matches Some(p) && p.0 == sender),
            r is Err ==> *final(self) == *old(self),
            r is Ok ==> final(self).claim_of(claim@) == Some((receiver, now)),
            r is Ok ==> forall|k: Seq<u8>| k != claim@ ==> final(self).claim_of(k) == old(
                self,
            ).claim_of(k),
    {
        let i = match self.find(claim) {
            None => {
                return Err(ClaimError::ClaimNotExist);
            },
            Some(i) => i,
        };
        proof {
            lemma_claim_index(self.entries@, claim@);
        }
        if self.entries[i].owner != sender {
            return Err(ClaimError::NotClaimOwner);
        }
        proof {
            lemma_lookup_remove(self.entries@, i as int);
        }
        self.entries.remove(i);
        let ghost s = self.entries@;
        let copy = copy_claim(claim);
        let entry = ClaimEntry { claim: copy, owner: receiver, height: now };
        proof {
            lemma_lookup_push(s, entry);
        }
        self.entries.push(entry);
        Ok(())
    }
}

/// A byte-for-byte copy of a claim.
fn copy_claim(v: &Vec<u8>) -> (r: Vec<u8>)
    ensures
        r@ == v@,
{
    let mut r: Vec<u8> = Vec::new();
    let mut i: usize = 0;
    while i < v.len()
        invariant
            i <= v@.len(),
            r@ == v@.subrange(0, i as int),
        decreases v@.len() - i,
    {
        r.push(v[i]);
        i = i + 1;
        proof {
            assert(r@ =~= v@.subrange(0, i as int));
        }
    }
    proof {
        assert(r@ =~= v@);
    }
    r
}

} // verus!
