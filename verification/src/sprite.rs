//! Draw ordering of sprites: entities paired with their depth value,
//! arranged back to front. The drawing itself stays with the driver.

use vstd::prelude::*;
use vstd::multiset::Multiset;

verus! {

/// Entries arranged by non-decreasing depth.
pub open spec fn z_sorted(s: Seq<(u32, u32)>) -> bool {
    forall|a: int, b: int| 0 <= a < b < s.len() ==> (#[trigger] s[a]).1 <= (#[trigger] s[b]).1
}

/// Arrange `(entity, depth)` pairs by non-decreasing depth; the result
/// holds exactly the given pairs.
pub fn ka_sprite_z_order(items: Vec<(u32, u32)>) -> (r: Vec<(u32, u32)>)
    ensures
        z_sorted(r@),
        r@.to_multiset() == items@.to_multiset(),
{
    broadcast use vstd::seq_lib::group_to_multiset_ensures;

    let ghost input = items@;
    let mut src: Vec<(u32, u32)> = items;
    let mut out: Vec<(u32, u32)> = Vec::new();
    proof {
        assert(out@.to_multiset().add(src@.to_multiset()) =~= input.to_multiset());
    }
    while src.len() != 0
        invariant
            z_sorted(out@),
            out@.to_multiset().add(src@.to_multiset()) == input.to_multiset(),
            forall|a: int, b: int|
                0 <= a < out@.len() && 0 <= b < src@.len() ==> (#[trigger] out@[a]).1
                    <= (#[trigger] src@[b]).1,
        decreases src@.len(),
    {
        let n: usize = src.len();
        let mut best: usize = 0;
        let mut j: usize = 1;
        while j < n
            invariant
                n == src@.len(),
                0 < n,
                best < j <= n || (best == 0 && j <= n),
                best < n,
                forall|t: int| 0 <= t < j ==> src@[best as int].1 <= (#[trigger] src@[t]).1,
            decreases n - j,
        {
            if src[j].1 < src[best].1 {
                best = j;
            }
            j = j + 1;
        }
        let ghost srcpre = src@;
        let ghost outpre = out@;
        let picked: (u32, u32) = src.remove(best);
        out.push(picked);
        proof {
            assert(src@ == srcpre.remove(best as int));
            assert(srcpre.contains(picked));
            vstd::seq_lib::to_multiset_remove(srcpre, best as int);
            vstd::seq_lib::to_multiset_build(outpre, picked);
            vstd::seq_lib::to_multiset_contains(srcpre, picked);
            assert(src@.to_multiset() =~= srcpre.to_multiset().remove(picked));
            assert(out@.to_multiset() =~= outpre.to_multiset().insert(picked));
            assert(out@.to_multiset().add(src@.to_multiset()) =~= outpre.to_multiset().add(
                srcpre.to_multiset(),
            ));
            assert(forall|b: int|
                0 <= b < src@.len() ==> picked.1 <= (#[trigger] src@[b]).1);
            assert(z_sorted(out@));
        }
    }
    proof {
        vstd::seq_lib::to_multiset_len(src@);
        assert(src@.to_multiset() =~= Multiset::<(u32, u32)>::empty());
        assert(out@.to_multiset() =~= input.to_multiset());
    }
    out
}

} // verus!
