//! Tree visibility along grid lines.
use vstd::prelude::*;

verus! {

use crate::tiles::Tiles;

/// Scanning a line of buffer offsets for trees taller than everything before
/// them: the offsets marked visible, and the offset of the last mark (the
/// tallest tree seen). The scan stops at the offset `stop`.
pub open spec fn vis_scan(
    trees: Seq<u8>,
    idxs: Seq<usize>,
    stop: usize,
    tallest: u8,
    last: usize,
) -> (Set<int>, usize)
    decreases idxs.len(),
{
    if idxs.len() == 0 || idxs[0] == stop {
        (Set::empty(), last)
    } else if trees[idxs[0] as int] > tallest {
        let rec = vis_scan(trees, idxs.skip(1), stop, trees[idxs[0] as int], idxs[0]);
        (rec.0.insert(idxs[0] as int), rec.1)
    } else {
        vis_scan(trees, idxs.skip(1), stop, tallest, last)
    }
}

/// Marks the trees visible along one line of buffer offsets: a tree is
/// visible when it is taller than every tree before it on the line. Returns
/// the offset of the last tree marked, the line's tallest.
///
/// The scan starts just below the smallest height digit and stops early at
/// the offset `stop_at`, so a reversed line need not re-scan past the
/// tallest tree found forward.
#[verifier::loop_isolation(false)]
pub fn line_visibility(
    trees: &Tiles<u8>,
    visibility: &mut Tiles<u8>,
    indices: &Vec<usize>,
    stop_at: usize,
) -> (r: usize)
    requires
        forall|k: int| 0 <= k < indices@.len() ==> #[trigger] indices@[k] < trees.entries@.len(),
        old(visibility).entries@.len() == trees.entries@.len(),
    ensures
        final(visibility).entry_len == old(visibility).entry_len,
        final(visibility).line_width == old(visibility).line_width,
        final(visibility).entries@.len() == old(visibility).entries@.len(),
        ({
            let scan = vis_scan(trees.entries@, indices@, stop_at, 47, 0);
            &&& r == scan.1
            &&& forall|k: int|
                0 <= k < final(visibility).entries@.len() ==> final(visibility).entries@[k] == (
                if scan.0.contains(k) {
                    1u8
                } else {
                    old(visibility).entries@[k]
                })
        }),
{
    let ghost full = vis_scan(trees.entries@, indices@, stop_at, 47, 0);
    let mut tallest: u8 = 47;
    let mut maybe_visible_from_right: usize = 0;
    let ghost mut marked: Set<int> = Set::empty();
    let mut i: usize = 0;
    proof {
        assert(indices@.skip(0) =~= indices@);
        assert(full.0 =~= marked.union(
            vis_scan(trees.entries@, indices@, stop_at, tallest, maybe_visible_from_right).0,
        ));
    }
    while i < indices.len()
        invariant
            i <= indices@.len(),
            visibility.entry_len == old(visibility).entry_len,
            visibility.line_width == old(visibility).line_width,
            visibility.entries@.len() == old(visibility).entries@.len(),
            full.0 == marked.union(
                vis_scan(
                    trees.entries@,
                    indices@.skip(i as int),
                    stop_at,
                    tallest,
                    maybe_visible_from_right,
                ).0,
            ),
            full.1 == vis_scan(
                trees.entries@,
                indices@.skip(i as int),
                stop_at,
                tallest,
                maybe_visible_from_right,
            ).1,
            forall|k: int|
                0 <= k < visibility.entries@.len() ==> visibility.entries@[k] == (if
                marked.contains(k) {
                    1u8
                } else {
                    old(visibility).entries@[k]
                }),
        decreases indices@.len() - i,
    {
        let idx = indices[i];
        proof {
            assert(indices@.skip(i as int)[0] == indices@[i as int]);
            assert(indices@.skip(i as int).skip(1) =~= indices@.skip(i as int + 1));
        }
        if idx == stop_at {
            proof {
                assert(full.0 =~= marked);
            }
            return maybe_visible_from_right;
        }
        let tree = trees.entries[idx];
        if tree > tallest {
            let ghost pre = visibility.entries@;
            visibility.entries[idx] = 1;
            proof {
                marked = marked.insert(idx as int);
                let rest = vis_scan(
                    trees.entries@,
                    indices@.skip(i as int + 1),
                    stop_at,
                    tree,
                    idx,
                );
                assert(full.0 =~= marked.union(rest.0));
            }
            tallest = tree;
            maybe_visible_from_right = idx;
        }
        i = i + 1;
    }
    proof {
        assert(indices@.skip(indices@.len() as int) =~= Seq::<usize>::empty());
        assert(full.0 =~= marked);
    }
    maybe_visible_from_right
}

} // verus!
