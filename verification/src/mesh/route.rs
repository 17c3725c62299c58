//! Breadth-first search and what its discovery order says about paths.

use vstd::prelude::*;

verus! {

/// Whether a hop leads from one node to another.
pub type Hops = spec_fn(u64, u64) -> bool;

/// Whether the hop into a position of a path is allowed.
pub open spec fn hop_into(hops: Hops, path: Seq<u64>, index: int) -> bool {
    hops(path[index - 1], path[index])
}

/// A path of allowed hops between two nodes, both included.
pub open spec fn connects(hops: Hops, source: u64, destination: u64, path: Seq<u64>) -> bool {
    &&& path.len() > 0
    &&& path[0] == source
    &&& path.last() == destination
    &&& forall|index: int| 1 <= index < path.len() ==> #[trigger] hop_into(hops, path, index)
}

/// Whether two paths part, the first towards the smaller node.
pub open spec fn parts_below(left: Seq<u64>, right: Seq<u64>, at: int) -> bool {
    &&& 0 <= at < left.len()
    &&& at < right.len()
    &&& left[at] < right[at]
    &&& forall|index: int| 0 <= index < at ==> left[index] == right[index]
}

/// Whether a path is the same as another or parts from it towards a smaller node.
pub open spec fn precedes(left: Seq<u64>, right: Seq<u64>) -> bool {
    left == right || exists|at: int| parts_below(left, right, at)
}

/// The path with the fewest hops, and of those the one that goes to the
/// smallest node wherever they part.
pub open spec fn best_path(hops: Hops, source: u64, destination: u64, path: Seq<u64>) -> bool {
    &&& connects(hops, source, destination, path)
    &&& forall|other: Seq<u64>| #[trigger]
        connects(hops, source, destination, other) ==> path.len() <= other.len() && (path.len()
            == other.len() ==> precedes(path, other))
}

/// There is at most one best path.
pub proof fn lemma_best_path_is_unique(
    hops: Hops,
    source: u64,
    destination: u64,
    left: Seq<u64>,
    right: Seq<u64>,
)
    requires
        best_path(hops, source, destination, left),
        best_path(hops, source, destination, right),
    ensures
        left == right,
{
    assert(precedes(left, right) && precedes(right, left));
    if left != right {
        let first = choose|at: int| parts_below(left, right, at);
        let second = choose|at: int| parts_below(right, left, at);
        if first < second {
            assert(right[first] == left[first]);
        } else if second < first {
            assert(left[second] == right[second]);
        }
    }
}

proof fn lemma_precedes_is_transitive(first: Seq<u64>, second: Seq<u64>, third: Seq<u64>)
    requires
        precedes(first, second),
        precedes(second, third),
    ensures
        precedes(first, third),
{
    if first != second && second != third {
        let left = choose|at: int| parts_below(first, second, at);
        let right = choose|at: int| parts_below(second, third, at);
        if left <= right {
            assert(parts_below(first, third, left));
        } else {
            assert(parts_below(first, third, right));
        }
    }
}

proof fn lemma_precedes_extends(left: Seq<u64>, right: Seq<u64>, node: u64)
    requires
        precedes(left, right),
        left.len() == right.len(),
    ensures
        precedes(left.push(node), right.push(node)),
{
    if left != right {
        let at = choose|at: int| parts_below(left, right, at);
        assert(parts_below(left.push(node), right.push(node), at));
    }
}

/// Nodes in the order of their discovery, each but the first with the position
/// of the node that it was discovered from.
pub open spec fn discovery(hops: Hops, source: u64, order: Seq<u64>, parents: Seq<usize>) -> bool {
    &&& order.len() == parents.len()
    &&& order.len() > 0
    &&& order[0] == source
    &&& order.no_duplicates()
    &&& forall|index: int|
        0 < index < order.len() ==> #[trigger] parents[index] < index && hops(
            order[parents[index] as int],
            order[index],
        )
    &&& forall|first: int, second: int|
        #![trigger parents[first], parents[second]]
        0 < first < second < order.len() ==> parents[first] <= parents[second] && (parents[first]
            == parents[second] ==> order[first] < order[second])
}

/// Whether a node was discovered from a position up to a given one.
pub open spec fn found_by(order: Seq<u64>, parents: Seq<usize>, node: u64, position: int) -> bool {
    exists|index: int|
        0 <= index < order.len() && #[trigger] order[index] == node && (index == 0
            || parents[index] <= position)
}

/// Whether every hop from the first positions leads to a discovered node.
pub open spec fn closed_below(
    hops: Hops,
    order: Seq<u64>,
    parents: Seq<usize>,
    head: int,
) -> bool {
    forall|position: int, node: u64|
        #![trigger hops(order[position], node)]
        0 <= position < head && hops(order[position], node) ==> found_by(
            order,
            parents,
            node,
            position,
        )
}

/// Number of hops from the first node to the node at a position.
pub open spec fn depth(parents: Seq<usize>, index: int) -> nat
    decreases index,
{
    if 0 < index && parents[index] < index {
        depth(parents, parents[index] as int) + 1
    } else {
        0
    }
}

/// The path by which the node at a position was discovered.
pub open spec fn trail(order: Seq<u64>, parents: Seq<usize>, index: int) -> Seq<u64>
    decreases index,
{
    if 0 < index && parents[index] < index {
        trail(order, parents, parents[index] as int).push(order[index])
    } else {
        seq![order[index]]
    }
}

proof fn lemma_trail(hops: Hops, source: u64, order: Seq<u64>, parents: Seq<usize>, index: int)
    requires
        discovery(hops, source, order, parents),
        0 <= index < order.len(),
    ensures
        trail(order, parents, index).len() == depth(parents, index) + 1,
        connects(hops, source, order[index], trail(order, parents, index)),
    decreases index,
{
    if index > 0 {
        let parent = parents[index] as int;
        assert(parents[index] < index);
        lemma_trail(hops, source, order, parents, parent);
        let before = trail(order, parents, parent);
        let path = trail(order, parents, index);
        assert forall|at: int| 1 <= at < path.len() implies #[trigger] hop_into(
            hops,
            path,
            at,
        ) by {
            if at < before.len() {
                assert(hop_into(hops, before, at));
            } else {
                assert(path[at - 1] == before.last());
            }
        }
    }
}

proof fn lemma_depth_grows(
    hops: Hops,
    source: u64,
    order: Seq<u64>,
    parents: Seq<usize>,
    first: int,
    second: int,
)
    requires
        discovery(hops, source, order, parents),
        0 <= first <= second < order.len(),
    ensures
        depth(parents, first) <= depth(parents, second),
    decreases second,
{
    if 0 < first && first < second {
        assert(parents[first] <= parents[second]);
        assert(parents[second] < second);
        assert(parents[first] < first);
        lemma_depth_grows(
            hops,
            source,
            order,
            parents,
            parents[first] as int,
            parents[second] as int,
        );
    }
}

proof fn lemma_earlier_trail_precedes(
    hops: Hops,
    source: u64,
    order: Seq<u64>,
    parents: Seq<usize>,
    first: int,
    second: int,
)
    requires
        discovery(hops, source, order, parents),
        0 <= first <= second < order.len(),
        depth(parents, first) == depth(parents, second),
    ensures
        precedes(trail(order, parents, first), trail(order, parents, second)),
    decreases second,
{
    if first < second {
        assert(parents[second] < second);
        assert(first > 0);
        assert(parents[first] < first);
        let left = parents[first] as int;
        let right = parents[second] as int;
        assert(left <= right);
        lemma_trail(hops, source, order, parents, left);
        lemma_trail(hops, source, order, parents, right);
        lemma_earlier_trail_precedes(hops, source, order, parents, left, right);
        let left_trail = trail(order, parents, left);
        let right_trail = trail(order, parents, right);
        let last = left_trail.len() as int;
        if left_trail == right_trail {
            assert(order[left] == left_trail.last());
            assert(order[right] == right_trail.last());
            assert(left == right);
            assert(order[first] < order[second]);
            assert(parts_below(
                left_trail.push(order[first]),
                right_trail.push(order[second]),
                last,
            ));
        } else {
            let at = choose|at: int| parts_below(left_trail, right_trail, at);
            assert(parts_below(
                left_trail.push(order[first]),
                right_trail.push(order[second]),
                at,
            ));
        }
    }
}

proof fn lemma_near_nodes_are_found(
    hops: Hops,
    source: u64,
    order: Seq<u64>,
    parents: Seq<usize>,
    head: int,
    path: Seq<u64>,
    at: int,
) -> (index: int)
    requires
        discovery(hops, source, order, parents),
        closed_below(hops, order, parents, head),
        0 <= head < order.len(),
        path.len() > 0,
        path[0] == source,
        forall|index: int| 1 <= index < path.len() ==> #[trigger] hop_into(hops, path, index),
        0 <= at < path.len(),
        at <= depth(parents, head),
    ensures
        0 <= index < order.len(),
        order[index] == path[at],
        depth(parents, index) <= at,
    decreases at,
{
    if at == 0 {
        0
    } else {
        let before = lemma_near_nodes_are_found(
            hops,
            source,
            order,
            parents,
            head,
            path,
            at - 1,
        );
        if before >= head {
            lemma_depth_grows(hops, source, order, parents, head, before);
        }
        assert(hop_into(hops, path, at));
        assert(hops(order[before], path[at]));
        assert(found_by(order, parents, path[at], before));
        let index = choose|index: int|
            0 <= index < order.len() && #[trigger] order[index] == path[at] && (index == 0
                || parents[index] <= before);
        if index > 0 {
            assert(parents[index] < index);
            lemma_depth_grows(hops, source, order, parents, parents[index] as int, before);
        }
        index
    }
}

proof fn lemma_trail_is_least(
    hops: Hops,
    source: u64,
    order: Seq<u64>,
    parents: Seq<usize>,
    head: int,
    path: Seq<u64>,
    index: int,
)
    requires
        discovery(hops, source, order, parents),
        closed_below(hops, order, parents, head),
        0 <= head < order.len(),
        0 <= index < order.len(),
        depth(parents, index) <= depth(parents, head),
        connects(hops, source, order[index], path),
        path.len() == depth(parents, index) + 1,
    ensures
        precedes(trail(order, parents, index), path),
    decreases path.len(),
{
    if index == 0 {
        assert(path =~= seq![source]);
    } else {
        assert(parents[index] < index);
        let last = path.len() - 1;
        let parent = parents[index] as int;
        let middle = lemma_near_nodes_are_found(
            hops,
            source,
            order,
            parents,
            head,
            path,
            last - 1,
        );
        if middle >= head {
            lemma_depth_grows(hops, source, order, parents, head, middle);
        }
        assert(hop_into(hops, path, last));
        assert(hops(order[middle], order[index]));
        assert(found_by(order, parents, order[index], middle));
        assert(parent <= middle);
        lemma_depth_grows(hops, source, order, parents, parent, middle);
        let shorter = path.drop_last();
        assert forall|at: int| 1 <= at < shorter.len() implies #[trigger] hop_into(
            hops,
            shorter,
            at,
        ) by {
            assert(hop_into(hops, path, at));
        }
        assert(connects(hops, source, order[middle], shorter));
        lemma_trail_is_least(hops, source, order, parents, head, shorter, middle);
        lemma_earlier_trail_precedes(hops, source, order, parents, parent, middle);
        lemma_precedes_is_transitive(
            trail(order, parents, parent),
            trail(order, parents, middle),
            shorter,
        );
        lemma_trail(hops, source, order, parents, parent);
        lemma_precedes_extends(trail(order, parents, parent), shorter, order[index]);
        assert(shorter.push(order[index]) =~= path);
    }
}

/// A node discovered while the hops of the node at `head` are followed is
/// reached from there by the best path.
pub proof fn lemma_discovered_by_best_path(
    hops: Hops,
    source: u64,
    order: Seq<u64>,
    parents: Seq<usize>,
    head: int,
    destination: u64,
)
    requires
        discovery(hops, source, order, parents),
        closed_below(hops, order, parents, head),
        0 <= head < order.len(),
        hops(order[head], destination),
        !order.contains(destination),
    ensures
        best_path(
            hops,
            source,
            destination,
            trail(order, parents, head).push(destination),
        ),
{
    let before = trail(order, parents, head);
    let path = before.push(destination);
    lemma_trail(hops, source, order, parents, head);
    assert forall|at: int| 1 <= at < path.len() implies #[trigger] hop_into(hops, path, at) by {
        if at < before.len() {
            assert(hop_into(hops, before, at));
        } else {
            assert(path[at - 1] == before.last());
        }
    }
    assert forall|other: Seq<u64>| #[trigger]
        connects(hops, source, destination, other) implies path.len() <= other.len() && (path.len()
        == other.len() ==> precedes(path, other)) by {
        let last = other.len() - 1;
        if other.len() < path.len() {
            let index = lemma_near_nodes_are_found(
                hops,
                source,
                order,
                parents,
                head,
                other,
                last,
            );
            assert(order[index] == destination);
        }
        if other.len() == path.len() {
            let middle = lemma_near_nodes_are_found(
                hops,
                source,
                order,
                parents,
                head,
                other,
                last - 1,
            );
            assert(hop_into(hops, other, last));
            assert(hops(order[middle], destination));
            if middle < head {
                assert(found_by(order, parents, destination, middle));
            }
            lemma_depth_grows(hops, source, order, parents, head, middle);
            let shorter = other.drop_last();
            assert forall|at: int| 1 <= at < shorter.len() implies #[trigger] hop_into(
                hops,
                shorter,
                at,
            ) by {
                assert(hop_into(hops, other, at));
            }
            assert(connects(hops, source, order[middle], shorter));
            lemma_trail_is_least(hops, source, order, parents, head, shorter, middle);
            lemma_earlier_trail_precedes(hops, source, order, parents, head, middle);
            lemma_precedes_is_transitive(before, trail(order, parents, middle), shorter);
            lemma_precedes_extends(before, shorter, destination);
            assert(shorter.push(destination) =~= other);
        }
    }
}

/// Once every hop from every discovered node leads to a discovered node, no
/// path leads anywhere else.
pub proof fn lemma_undiscovered_is_unreachable(
    hops: Hops,
    source: u64,
    order: Seq<u64>,
    parents: Seq<usize>,
    destination: u64,
)
    requires
        discovery(hops, source, order, parents),
        closed_below(hops, order, parents, order.len() as int),
        !order.contains(destination),
    ensures
        forall|path: Seq<u64>| !#[trigger] connects(hops, source, destination, path),
{
    assert forall|path: Seq<u64>| !#[trigger] connects(hops, source, destination, path) by {
        if connects(hops, source, destination, path) {
            let index = lemma_all_nodes_are_found(
                hops,
                source,
                order,
                parents,
                path,
                path.len() - 1,
            );
            assert(order[index] == destination);
        }
    }
}

proof fn lemma_all_nodes_are_found(
    hops: Hops,
    source: u64,
    order: Seq<u64>,
    parents: Seq<usize>,
    path: Seq<u64>,
    at: int,
) -> (index: int)
    requires
        discovery(hops, source, order, parents),
        closed_below(hops, order, parents, order.len() as int),
        path.len() > 0,
        path[0] == source,
        forall|index: int| 1 <= index < path.len() ==> #[trigger] hop_into(hops, path, index),
        0 <= at < path.len(),
    ensures
        0 <= index < order.len(),
        order[index] == path[at],
    decreases at,
{
    if at == 0 {
        0
    } else {
        let before = lemma_all_nodes_are_found(hops, source, order, parents, path, at - 1);
        assert(hop_into(hops, path, at));
        assert(hops(order[before], path[at]));
        assert(found_by(order, parents, path[at], before));
        choose|index: int|
            0 <= index < order.len() && #[trigger] order[index] == path[at] && (index == 0
                || parents[index] <= before)
    }
}

} // verus!
