use vstd::prelude::*;

verus! {

/// Position of the child to play after the search: the last one with the most visits, as a
/// `max_by_key` over the visit counts gives. `None` when there are no children.
pub fn select_most_visited(visits: &Vec<usize>) -> (r: Option<usize>)
    ensures
        r is None <==> visits@.len() == 0,
        r matches Some(k) ==> k < visits@.len() && (forall|j: int|
            0 <= j < visits@.len() ==> #[trigger] visits@[j] <= visits@[k as int]) && (forall|j: int|
            k < j < visits@.len() ==> #[trigger] visits@[j] < visits@[k as int]),
{
    if visits.len() == 0 {
        return None;
    }
    let mut best: usize = 0;
    let mut i: usize = 1;
    while i < visits.len()
        invariant
            1 <= i <= visits@.len(),
            best < i,
            forall|j: int| 0 <= j < i ==> #[trigger] visits@[j] <= visits@[best as int],
            forall|j: int| best < j < i ==> #[trigger] visits@[j] < visits@[best as int],
        decreases visits@.len() - i,
    {
        if visits[i] >= visits[best] {
            best = i;
        }
        i = i + 1;
    }
    Some(best)
}

/// Index of the first `false` in `above`, or its length when there is none.
pub open spec fn first_below(above: Seq<bool>) -> int
    decreases above.len(),
{
    if above.len() == 0 {
        0
    } else if !above[0] {
        0
    } else {
        1 + first_below(above.drop_first())
    }
}

/// Number of moves progressive widening expands at a node, given for each unexpanded move
/// (best first) whether its heuristic score reaches the threshold, the number of children the
/// node may have and the number it has: none once the node is full or nothing is left, else the
/// moves up to the first one below the threshold, at most as many as still fit, at least one.
pub open spec fn spec_expandable_count(
    above: Seq<bool>,
    allowed_children: int,
    num_parent_children: int,
) -> int {
    if num_parent_children < allowed_children && above.len() > 0 {
        let fit = if above.len() < allowed_children - num_parent_children {
            above.len() as int
        } else {
            allowed_children - num_parent_children
        };
        let cut = first_below(above);
        let sel = if cut < fit {
            cut
        } else {
            fit
        };
        if sel < 1 {
            1
        } else {
            sel
        }
    } else {
        0
    }
}

/// See [`spec_expandable_count`].
pub fn expandable_count(above: &Vec<bool>, allowed_children: usize, num_parent_children: usize) -> (r:
    usize)
    ensures
        r == spec_expandable_count(above@, allowed_children as int, num_parent_children as int),
        r <= above@.len(),
{
    if num_parent_children < allowed_children && above.len() > 0 {
        let room = allowed_children - num_parent_children;
        let num_expandable_moves = if above.len() < room {
            above.len()
        } else {
            room
        };
        let mut cutoff_index: usize = 0;
        proof {
            assert(above@.skip(0) =~= above@);
        }
        while cutoff_index < above.len() && above[cutoff_index]
            invariant
                0 <= cutoff_index <= above@.len(),
                forall|j: int| 0 <= j < cutoff_index ==> #[trigger] above@[j],
                first_below(above@) == cutoff_index + first_below(above@.skip(cutoff_index as int)),
            decreases above@.len() - cutoff_index,
        {
            proof {
                assert(above@.skip(cutoff_index as int).drop_first() =~= above@.skip(
                    cutoff_index + 1,
                ));
            }
            cutoff_index = cutoff_index + 1;
        }
        proof {
            if cutoff_index == above@.len() {
                assert(above@.skip(cutoff_index as int).len() == 0);
            } else {
                assert(!above@.skip(cutoff_index as int)[0]);
            }
        }
        let selected = if cutoff_index < num_expandable_moves {
            cutoff_index
        } else {
            num_expandable_moves
        };
        if selected < 1 {
            1
        } else {
            selected
        }
    } else {
        0
    }
}

/// Whether progressive widening wants another child at a node: it has room for one and some
/// unexpanded move reaches the threshold.
pub fn should_expand(above: &Vec<bool>, allowed_children: usize, num_parent_children: usize) -> (r:
    bool)
    ensures
        r == (num_parent_children < allowed_children && exists|j: int|
            0 <= j < above@.len() && #[trigger] above@[j]),
{
    if num_parent_children >= allowed_children {
        return false;
    }
    let mut i: usize = 0;
    while i < above.len()
        invariant
            0 <= i <= above@.len(),
            num_parent_children < allowed_children,
            forall|j: int| 0 <= j < i ==> !#[trigger] above@[j],
        decreases above@.len() - i,
    {
        if above[i] {
            assert(above@[i as int]);
            return true;
        }
        i = i + 1;
    }
    false
}

} // verus!
