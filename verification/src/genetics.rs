//! Genetic combination at breeding time: a byte-wise mask choice between the
//! two parents' payloads, deterministic in its three inputs and nothing else.

use vstd::prelude::*;

verus! {

/// One byte of the child's genetics: each selector bit picks the bit of the
/// first parent where set, the bit of the second parent where clear.
pub open spec fn combine_byte(a: u8, b: u8, sel: u8) -> u8 {
    (sel & a) | (!sel & b)
}

/// The whole child payload, byte by byte.
pub open spec fn combine_seq(g1: Seq<u8>, g2: Seq<u8>, sel: Seq<u8>) -> Seq<u8> {
    Seq::new(g1.len(), |i: int| combine_byte(g1[i], g2[i], sel[i]))
}

/// Combines two sixteen-byte parent payloads under a per-bit selector mask.
pub fn combine_genetics(g1: &Vec<u8>, g2: &Vec<u8>, selector: &Vec<u8>) -> (r: Vec<u8>)
    requires
        g1@.len() == 16,
        g2@.len() == 16,
        selector@.len() == 16,
    ensures
        r@ == combine_seq(g1@, g2@, selector@),
{
    let mut r: Vec<u8> = Vec::new();
    let mut i: usize = 0;
    while i < 16
        invariant
            g1@.len() == 16,
            g2@.len() == 16,
            selector@.len() == 16,
            i <= 16,
            r@ == combine_seq(g1@, g2@, selector@).subrange(0, i as int),
        decreases 16 - i,
    {
        r.push((selector[i] & g1[i]) | (!selector[i] & g2[i]));
        i = i + 1;
        proof {
            assert(r@ =~= combine_seq(g1@, g2@, selector@).subrange(0, i as int));
        }
    }
    proof {
        assert(r@ =~= combine_seq(g1@, g2@, selector@));
    }
    r
}

/// Under an all-ones selector the child inherits the first parent whole.
pub proof fn lemma_selector_all_ones(g1: Seq<u8>, g2: Seq<u8>, sel: Seq<u8>)
    requires
        g1.len() == 16,
        g2.len() == 16,
        sel.len() == 16,
        forall|i: int| 0 <= i < 16 ==> sel[i] == 0xffu8,
    ensures
        combine_seq(g1, g2, sel) == g1,
{
    assert forall|i: int| 0 <= i < 16 implies combine_seq(g1, g2, sel)[i] == g1[i] by {
        let a = g1[i];
        let b = g2[i];
        assert((0xffu8 & a) | (!0xffu8 & b) == a) by (bit_vector);
    }
    assert(combine_seq(g1, g2, sel) =~= g1);
}

/// Under an all-zeros selector the child inherits the second parent whole.
pub proof fn lemma_selector_all_zeros(g1: Seq<u8>, g2: Seq<u8>, sel: Seq<u8>)
    requires
        g1.len() == 16,
        g2.len() == 16,
        sel.len() == 16,
        forall|i: int| 0 <= i < 16 ==> sel[i] == 0u8,
    ensures
        combine_seq(g1, g2, sel) == g2,
{
    assert forall|i: int| 0 <= i < 16 implies combine_seq(g1, g2, sel)[i] == g2[i] by {
        let a = g1[i];
        let b = g2[i];
        assert((0u8 & a) | (!0u8 & b) == b) by (bit_vector);
    }
    assert(combine_seq(g1, g2, sel) =~= g2);
}

} // verus!
