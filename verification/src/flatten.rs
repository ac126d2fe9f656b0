//! Flattening the contour lists of a set of tiles into one list.
use std::sync::Arc;
use vstd::prelude::*;

verus! {

/// The lists one after the other.
pub open spec fn flat<P>(lists: Seq<Seq<P>>) -> Seq<P>
    decreases lists.len(),
{
    if lists.len() == 0 {
        Seq::empty()
    } else {
        flat(lists.drop_last()) + lists.last()
    }
}

/// The contour lists of keyed tiles, in order.
pub open spec fn contour_lists<K, P>(tiles: Seq<(K, Arc<Vec<P>>)>) -> Seq<Seq<P>> {
    Seq::new(tiles.len(), |i: int| tiles[i].1@)
}

/// The second components of a list of pairs.
pub open spec fn seconds<K, P>(s: Seq<(K, Seq<P>)>) -> Seq<Seq<P>> {
    Seq::new(s.len(), |i: int| s[i].1)
}

/// `r` holds a clone of each element of `s`, in order.
pub open spec fn clones_of<P: Clone>(s: Seq<P>, r: Seq<P>) -> bool {
    r.len() == s.len() && forall|k: int| 0 <= k < s.len() ==> cloned(s[k], #[trigger] r[k])
}

/// Copy the contours of the tiles into one list, tile after tile; each
/// contour is cloned.
pub fn concat_contours<K, P: Clone>(tiles: &Vec<(K, Arc<Vec<P>>)>) -> (r: Vec<P>)
    ensures
        clones_of(flat(contour_lists(tiles@)), r@),
{
    let ghost all = contour_lists(tiles@);
    let mut out: Vec<P> = Vec::new();
    let mut i: usize = 0;
    while i < tiles.len()
        invariant
            all == contour_lists(tiles@),
            i <= tiles@.len(),
            clones_of(flat(all.take(i as int)), out@),
        decreases tiles@.len() - i,
    {
        assert(all.take(i + 1).drop_last() =~= all.take(i as int));
        let contours: &Vec<P> = &*tiles[i].1;
        let ghost base = flat(all.take(i as int));
        let ghost start = out@.len();
        let mut j: usize = 0;
        while j < contours.len()
            invariant
                i < tiles@.len(),
                all == contour_lists(tiles@),
                contours@ == all[i as int],
                j <= contours@.len(),
                start == base.len(),
                out@.len() == start + j,
                forall|k: int| 0 <= k < start ==> cloned(base[k], #[trigger] out@[k]),
                forall|k: int| 0 <= k < j ==> cloned(contours@[k], #[trigger] out@[start + k]),
            decreases contours@.len() - j,
        {
            let c: P = contours[j].clone();
            out.push(c);
            j = j + 1;
        }
        proof {
            let next = flat(all.take(i + 1));
            assert(next == base + contours@);
            assert forall|k: int| 0 <= k < out@.len() implies cloned(next[k], #[trigger] out@[k]) by {
                if k < start {
                    assert(next[k] == base[k]);
                } else {
                    assert(next[k] == contours@[k - start]);
                    assert(out@[start + (k - start)] == out@[k]);
                }
            }
        }
        i = i + 1;
    }
    assert(all.take(tiles@.len() as int) =~= all);
    out
}

} // verus!
