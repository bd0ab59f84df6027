use vstd::prelude::*;

verus! {

/// How a node of the bounding volume hierarchy splits the objects at positions
/// `start..end` (after they have been ordered along the node's axis).
#[derive(Debug, PartialEq, Eq, Structural, Clone, Copy)]
pub enum BvhSplit {
    /// One object: it is both children of the node.
    Single(usize),
    /// Two objects: one child each.
    Pair(usize, usize),
    /// More objects: the children are built over `start..mid` and `mid..end`.
    Halves(usize),
}

/// The split of the objects at positions `start..end`: a lone object stands on
/// both sides, two objects go one to each side, and more objects are divided at
/// the middle position `start + (end - start) / 2`.
pub open spec fn spec_bvh_split(start: nat, end: nat) -> BvhSplit {
    let span = end - start;
    if span == 1 {
        BvhSplit::Single(start as usize)
    } else if span == 2 {
        BvhSplit::Pair(start as usize, (start + 1) as usize)
    } else {
        BvhSplit::Halves((start + span / 2) as usize)
    }
}

/// Decides how a node over the objects at positions `start..end` splits them.
pub fn bvh_split(start: usize, end: usize) -> (split: BvhSplit)
    requires
        start < end,
    ensures
        split == spec_bvh_split(start as nat, end as nat),
        end - start == 1 ==> split == BvhSplit::Single(start),
        end - start == 2 ==> split == BvhSplit::Pair(start, (start + 1) as usize),
        end - start >= 3 ==> (split matches BvhSplit::Halves(mid) && {
            &&& start < mid < end
            &&& mid - start == (end - start) / 2
            &&& 0 <= (end - mid) - (mid - start) <= 1
        }),
{
    let span = end - start;
    if span == 1 {
        BvhSplit::Single(start)
    } else if span == 2 {
        BvhSplit::Pair(start, start + 1)
    } else {
        BvhSplit::Halves(start + span / 2)
    }
}

/// Every split refers only to positions in `start..end`, and both halves of a
/// division are nonempty and smaller than the whole, so building the hierarchy
/// terminates and uses each position.
pub proof fn lemma_bvh_split_within(start: nat, end: nat)
    requires
        start < end,
        end <= usize::MAX,
    ensures
        match spec_bvh_split(start, end) {
            BvhSplit::Single(i) => i == start && end == start + 1,
            BvhSplit::Pair(i, j) => i == start && j == start + 1 && end == start + 2,
            BvhSplit::Halves(mid) => start < mid < end && end - start >= 3,
        },
{
}

/// A division is balanced: the left half takes the lower half of the positions
/// (rounded down), so the right half has as many objects as the left or one
/// more.
pub proof fn lemma_bvh_split_balanced(start: nat, end: nat)
    requires
        start + 3 <= end,
        end <= usize::MAX,
    ensures
        spec_bvh_split(start, end) matches BvhSplit::Halves(mid) && {
            &&& (mid - start) * 2 <= end - start <= (mid - start) * 2 + 1
            &&& (end - mid) - (mid - start) == (end - start) % 2
        },
{
}

} // verus!
