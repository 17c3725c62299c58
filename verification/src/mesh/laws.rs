//! What holds of routes, replay protection and admission, stated over links,
//! counters and devices.

use vstd::prelude::*;

use crate::float::Float32;
use crate::mesh::manager::{JoinDecision, JoinRequest, ManagerView, MeshManagerError};
use crate::mesh::route::{best_path, connects, hop_into};
use crate::mesh::schedule::Cell;
use crate::mesh::security::{SecurityError, WindowView};
use crate::mesh::topology::{is_ratio, larger, lemma_pair, pair, smaller, DeviceId, GraphView};

verus! {

/// A reliability is a ratio exactly when it is a number from zero to one.
pub proof fn lemma_ratio_bits(value: Float32)
    ensures
        is_ratio(value) <==> value.bits <= 0x3f80_0000 || value.bits == 0x8000_0000,
{
}

/// The place of a ratio among the ratios: the bits of a number that is not
/// negative grow with it, and the negative zero is a zero.
pub open spec fn level(ratio: Float32) -> int {
    if ratio.bits == 0x8000_0000 {
        0
    } else {
        ratio.bits as int
    }
}

/// The number under which the link of two devices is kept: the smaller device
/// in the upper half, the larger one in the lower half.
pub open spec fn link_number(left: u64, right: u64) -> int {
    if left <= right {
        left * 0x1_0000_0000_0000_0000 + right
    } else {
        right * 0x1_0000_0000_0000_0000 + left
    }
}

/// A message can hop from one device to another exactly when there is a link
/// between the two, in whichever order, that is at least as reliable as asked,
/// and the receiving device is known and active.
pub proof fn lemma_hop_fields(graph: GraphView, minimum: Float32, from: u64, to: u64)
    requires
        is_ratio(minimum),
        forall|key: u128| #[trigger]
            graph.links.contains_key(key) ==> is_ratio(graph.links[key].reliability),
    ensures
        (graph.hops(minimum))(from, to) <==> graph.nodes.contains_key(to) && graph.nodes[to].active
            && graph.links.contains_key(link_number(from, to) as u128) && level(
            graph.links[link_number(from, to) as u128].reliability,
        ) >= level(minimum),
{
}

/// A route leads from the source to the destination over usable links, and
/// every way over usable links is at least as long; among the ways of the same
/// length its devices come first in order.
pub proof fn lemma_route_is_shortest(
    graph: GraphView,
    minimum: Float32,
    source: u64,
    destination: u64,
    path: Seq<u64>,
    other: Seq<u64>,
)
    requires
        is_ratio(minimum),
        forall|key: u128| #[trigger]
            graph.links.contains_key(key) ==> is_ratio(graph.links[key].reliability),
        best_path(graph.hops(minimum), source, destination, path),
    ensures
        path.len() > 0,
        path[0] == source,
        path[path.len() - 1] == destination,
        forall|at: int|
            0 < at < path.len() ==> usable(graph, minimum, path[at - 1], #[trigger] path[at]),
        other.len() > 0 && other[0] == source && other[other.len() - 1] == destination && (forall|
            at: int,
        |
            0 < at < other.len() ==> usable(graph, minimum, other[at - 1], #[trigger] other[at]))
            ==> path.len() <= other.len() && (path.len() == other.len() ==> path == other || exists|
            at: int,
        |
            0 <= at < path.len() && #[trigger] path[at] < other[at] && forall|earlier: int|
                0 <= earlier < at ==> #[trigger] path[earlier] == other[earlier]),
{
    let hops = graph.hops(minimum);
    assert forall|at: int| 0 < at < path.len() implies usable(
        graph,
        minimum,
        path[at - 1],
        #[trigger] path[at],
    ) by {
        assert(hop_into(hops, path, at));
        lemma_hop_fields(graph, minimum, path[at - 1], path[at]);
    }
    if other.len() > 0 && other[0] == source && other[other.len() - 1] == destination && (forall|
        at: int,
    |
        0 < at < other.len() ==> usable(graph, minimum, other[at - 1], #[trigger] other[at])) {
        assert forall|at: int| 1 <= at < other.len() implies #[trigger] hop_into(
            hops,
            other,
            at,
        ) by {
            assert(usable(graph, minimum, other[at - 1], other[at]));
            lemma_hop_fields(graph, minimum, other[at - 1], other[at]);
        }
        assert(connects(hops, source, destination, other));
        if path.len() == other.len() && path != other {
            let at = choose|at: int| crate::mesh::route::parts_below(path, other, at);
            assert(path[at] < other[at]);
        }
    }
}

/// Whether a message may go from one device to the next.
pub open spec fn usable(graph: GraphView, minimum: Float32, from: u64, to: u64) -> bool {
    &&& graph.nodes.contains_key(to)
    &&& graph.nodes[to].active
    &&& graph.links.contains_key(link_number(from, to) as u128)
    &&& level(graph.links[link_number(from, to) as u128].reliability) >= level(minimum)
}

/// A way over usable links reaches its destination, so no route is refused
/// while there is one.
pub proof fn lemma_way_is_found(
    graph: GraphView,
    minimum: Float32,
    source: u64,
    destination: u64,
    path: Seq<u64>,
)
    requires
        is_ratio(minimum),
        forall|key: u128| #[trigger]
            graph.links.contains_key(key) ==> is_ratio(graph.links[key].reliability),
    ensures
        graph.reaches(minimum, source, destination, path) <==> graph.nodes.contains_key(source)
            && graph.nodes[source].active && path.len() > 0 && path[0] == source && path[path.len()
            - 1] == destination && forall|at: int|
            0 < at < path.len() ==> usable(graph, minimum, path[at - 1], #[trigger] path[at]),
{
    let hops = graph.hops(minimum);
    assert forall|at: int| 0 < at < path.len() implies (hop_into(hops, path, at) <==> usable(
        graph,
        minimum,
        path[at - 1],
        #[trigger] path[at],
    )) by {
        lemma_hop_fields(graph, minimum, path[at - 1], path[at]);
    }
    if connects(hops, source, destination, path) {
        assert forall|at: int| 0 < at < path.len() implies usable(
            graph,
            minimum,
            path[at - 1],
            #[trigger] path[at],
        ) by {
            assert(hop_into(hops, path, at));
        }
    }
    if path.len() > 0 && forall|at: int|
        0 < at < path.len() ==> usable(graph, minimum, path[at - 1], #[trigger] path[at]) {
        assert forall|at: int| 1 <= at < path.len() implies #[trigger] hop_into(
            hops,
            path,
            at,
        ) by {
            assert(usable(graph, minimum, path[at - 1], path[at]));
        }
    }
}

/// Removing a device removes it and the links that it has, and leaves every
/// other device and every link between others as they were.
pub proof fn lemma_removal_of_a_device(graph: GraphView, device: u64, left: u64, right: u64)
    ensures
        !graph.without(device).nodes.contains_key(device),
        left != device ==> (graph.without(device).nodes.contains_key(left)
            <==> graph.nodes.contains_key(left)) && (graph.nodes.contains_key(left)
            ==> graph.without(device).nodes[left] == graph.nodes[left]),
        left == device || right == device ==> !graph.without(device).links.contains_key(
            pair(left, right),
        ),
        left != device && right != device ==> (graph.without(device).links.contains_key(
            pair(left, right),
        ) <==> graph.links.contains_key(pair(left, right))) && (graph.links.contains_key(
            pair(left, right),
        ) ==> graph.without(device).links[pair(left, right)] == graph.links[pair(left, right)]),
{
    lemma_pair(left, right);
}

/// The two ends of a link are found again in its number.
pub proof fn lemma_link_number(left: u64, right: u64)
    ensures
        pair(left, right) == link_number(left, right),
        pair(left, right) == pair(right, left),
        smaller(pair(left, right)) <= larger(pair(left, right)),
        smaller(pair(left, right)) == left || smaller(pair(left, right)) == right,
        larger(pair(left, right)) == left || larger(pair(left, right)) == right,
        smaller(pair(left, right)) == larger(pair(left, right)) ==> left == right,
{
    lemma_pair(left, right);
    assert(left * 0x1_0000_0000_0000_0000 + right <= u128::MAX);
    assert(right * 0x1_0000_0000_0000_0000 + left <= u128::MAX);
}

proof fn lemma_window_history(counters: Seq<u32>)
    ensures
        ({
            let window = WindowView::fresh().offered_all(counters);
            &&& window.highest is None <==> counters.len() == 0
            &&& window.highest matches Some(highest) ==> counters.contains(highest) && (forall|
                at: int,
            |
                0 <= at < counters.len() ==> #[trigger] counters[at] <= highest) && forall|
                counter: u32,
            | #[trigger]
                window.seen.contains(counter) <==> counters.contains(counter) && highest - counter
                    < 64
        }),
    decreases counters.len(),
{
    if counters.len() > 0 {
        let rest = counters.drop_last();
        let last = counters.last();
        lemma_window_history(rest);
        let before = WindowView::fresh().offered_all(rest);
        let window = WindowView::fresh().offered_all(counters);
        assert(counters[counters.len() - 1] == last);
        assert(counters.contains(last));
        assert forall|counter: u32| rest.contains(counter) implies counters.contains(counter) by {
            let at = choose|at: int| 0 <= at < rest.len() && rest[at] == counter;
            assert(counters[at] == counter);
        }
        assert forall|counter: u32| counters.contains(counter) implies rest.contains(counter)
            || counter == last by {
            let at = choose|at: int| 0 <= at < counters.len() && counters[at] == counter;
            if at < rest.len() {
                assert(rest[at] == counter);
            }
        }
        let highest = window.highest->0;
        assert forall|at: int| 0 <= at < counters.len() implies #[trigger] counters[at]
            <= highest by {
            if at < rest.len() {
                assert(rest[at] == counters[at]);
            }
        }
        if rest.len() == 0 {
            assert(rest =~= Seq::<u32>::empty());
        }
    }
}

/// Whatever counters were offered before, a counter is accepted exactly when
/// it was not among them and none of them was ahead of it by 64 or more.
pub proof fn lemma_fresh_counters_are_accepted(counters: Seq<u32>, counter: u32)
    ensures
        WindowView::fresh().offered_all(counters).refusal(counter) is None <==> !counters.contains(
            counter,
        ) && forall|at: int|
            0 <= at < counters.len() ==> #[trigger] counters[at] < counter + 64,
{
    lemma_window_history(counters);
    let window = WindowView::fresh().offered_all(counters);
    if let Some(highest) = window.highest {
        let at = choose|at: int| 0 <= at < counters.len() && counters[at] == highest;
        assert(counters[at] == highest);
        if counters.contains(counter) {
            let place = choose|place: int|
                0 <= place < counters.len() && counters[place] == counter;
            assert(counters[place] <= highest);
        }
    }
}

/// The highest counter of a window is the largest that was offered, and the
/// reason of a refusal tells the two cases apart: too old by 64 or more, else
/// already used.
pub proof fn lemma_window_keeps_the_highest(counters: Seq<u32>, counter: u32)
    ensures
        ({
            let window = WindowView::fresh().offered_all(counters);
            &&& counters.len() == 0 ==> window.highest is None
            &&& counters.len() > 0 ==> (window.highest matches Some(highest) && counters.contains(
                highest,
            ) && forall|at: int| 0 <= at < counters.len() ==> #[trigger] counters[at] <= highest)
            &&& window.refusal(counter) == Some(SecurityError::TooOld(counter)) <==> (
            window.highest matches Some(highest) && highest >= counter + 64)
            &&& window.refusal(counter) == Some(SecurityError::Replay(counter)) <==> (
            window.highest matches Some(highest) && highest < counter + 64) && counters.contains(
                counter,
            )
        }),
{
    lemma_window_history(counters);
    let window = WindowView::fresh().offered_all(counters);
    if counters.contains(counter) {
        let place = choose|place: int| 0 <= place < counters.len() && counters[place] == counter;
        assert(counters[place] <= window.highest->0);
    }
}

/// How a request to join is answered: for another network as such; for a
/// device without permission or without key as not allowed; without proof of
/// the key as not authenticated. Only what passes all three is held against
/// the addresses left and the counter.
pub proof fn lemma_join_is_answered(manager: ManagerView, request: JoinRequest, authentic: bool)
    ensures
        ({
            let device = request.device.number();
            let (after, answer) = manager.answering(request, authentic);
            let known = manager.keys.contains_key(device) && manager.allowed.contains(device);
            let active = manager.graph.nodes.contains_key(device)
                && manager.graph.nodes[device].active;
            let window = if manager.replay.contains_key(device) {
                manager.replay[device]
            } else {
                WindowView::fresh()
            };
            &&& (request.network.0 != manager.network.0 <==> answer == Ok::<
                JoinDecision,
                MeshManagerError,
            >(JoinDecision::WrongNetwork))
            &&& (request.network.0 == manager.network.0 && !known <==> answer == Ok::<
                JoinDecision,
                MeshManagerError,
            >(JoinDecision::NotAllowed))
            &&& (request.network.0 == manager.network.0 && known && !authentic <==> answer == Ok::<
                JoinDecision,
                MeshManagerError,
            >(JoinDecision::AuthenticationFailed))
            &&& (answer matches Ok(JoinDecision::Accepted { nickname }) ==> request.network.0
                == manager.network.0 && known && authentic && window.refusal(
                request.security_counter,
            ) is None && nickname == if active {
                manager.graph.nodes[device].nickname
            } else {
                manager.next_nickname
            })
            &&& (request.network.0 == manager.network.0 && known && authentic && (active
                || manager.next_nickname != 0) ==> match window.refusal(request.security_counter) {
                Some(error) => answer == Err::<JoinDecision, MeshManagerError>(
                    MeshManagerError::Security(error),
                ),
                None => answer matches Ok(JoinDecision::Accepted { .. }),
            })
            &&& (request.network.0 == manager.network.0 && known && authentic && !active
                && manager.next_nickname == 0 ==> answer == Err::<JoinDecision, MeshManagerError>(
                MeshManagerError::AddressSpace,
            ))
        }),
{
}

/// An accepted device is in the network under its nickname, its counter is
/// used up, and nothing else has changed: neither the other devices nor the
/// links, the schedule, the permissions or the keys.
pub proof fn lemma_join_changes_one_device(manager: ManagerView, request: JoinRequest, other: u64)
    requires
        manager.answering(request, true).1 matches Ok(JoinDecision::Accepted { .. }),
        other != request.device.number(),
    ensures
        ({
            let device = request.device.number();
            let after = manager.answering(request, true).0;
            let nickname = manager.answering(request, true).1->Ok_0->nickname;
            &&& after.graph.nodes.contains_key(device)
            &&& after.graph.nodes[device].active
            &&& after.graph.nodes[device].nickname == nickname
            &&& after.replay.contains_key(device)
            &&& after.replay[device].refusal(request.security_counter) is Some
            &&& (after.graph.nodes.contains_key(other) <==> manager.graph.nodes.contains_key(other))
            &&& manager.graph.nodes.contains_key(other) ==> after.graph.nodes[other]
                == manager.graph.nodes[other]
            &&& (after.replay.contains_key(other) <==> manager.replay.contains_key(other))
            &&& manager.replay.contains_key(other) ==> after.replay[other]
                == manager.replay[other]
            &&& after.graph.links == manager.graph.links
            &&& after.schedule == manager.schedule
            &&& after.allowed == manager.allowed
            &&& after.keys == manager.keys
            &&& after.network == manager.network
        }),
{
}

/// Permission gives a device its key and touches no other device. A device
/// that had a key before leaves the network: its node, its links, its cells and
/// its counters are gone.
pub proof fn lemma_permission(manager: ManagerView, device: DeviceId, key: Seq<u8>, other: u64)
    requires
        other != device.number(),
    ensures
        ({
            let number = device.number();
            let after = manager.allowing(device, key);
            &&& after.allowed.contains(number)
            &&& after.keys.contains_key(number)
            &&& after.keys[number] == key
            &&& (after.allowed.contains(other) <==> manager.allowed.contains(other))
            &&& (after.keys.contains_key(other) <==> manager.keys.contains_key(other))
            &&& manager.keys.contains_key(other) ==> after.keys[other] == manager.keys[other]
            &&& (after.graph.nodes.contains_key(other) <==> manager.graph.nodes.contains_key(other))
            &&& manager.graph.nodes.contains_key(other) ==> after.graph.nodes[other]
                == manager.graph.nodes[other]
            &&& (after.replay.contains_key(other) <==> manager.replay.contains_key(other))
            &&& after.next_nickname == manager.next_nickname
            &&& after.network == manager.network
            &&& manager.keys.contains_key(number) ==> !after.graph.nodes.contains_key(number)
                && !after.replay.contains_key(number) && !after.graph.links.contains_key(
                pair(number, other),
            )
            &&& !manager.keys.contains_key(number) ==> after.graph == manager.graph
                && after.schedule == manager.schedule && after.replay == manager.replay
        }),
{
    lemma_pair(device.number(), other);
}

/// Revoking touches no other device: permissions, keys, counters, nodes and
/// the links and cells between others stay.
pub proof fn lemma_revoking_spares_the_others(
    manager: ManagerView,
    device: DeviceId,
    other: u64,
    third: u64,
    cell: Cell,
)
    requires
        other != device.number(),
        third != device.number(),
    ensures
        ({
            let after = manager.revoking(device);
            &&& (after.allowed.contains(other) <==> manager.allowed.contains(other))
            &&& (after.keys.contains_key(other) <==> manager.keys.contains_key(other))
            &&& manager.keys.contains_key(other) ==> after.keys[other] == manager.keys[other]
            &&& (after.replay.contains_key(other) <==> manager.replay.contains_key(other))
            &&& manager.replay.contains_key(other) ==> after.replay[other]
                == manager.replay[other]
            &&& (after.graph.nodes.contains_key(other) <==> manager.graph.nodes.contains_key(other))
            &&& manager.graph.nodes.contains_key(other) ==> after.graph.nodes[other]
                == manager.graph.nodes[other]
            &&& (after.graph.links.contains_key(pair(other, third))
                <==> manager.graph.links.contains_key(pair(other, third)))
            &&& (after.schedule.cells.contains(cell) <==> manager.schedule.cells.contains(cell)
                && cell.source != device && cell.destination != device)
            &&& after.next_nickname == manager.next_nickname
        }),
{
    lemma_pair(other, third);
    crate::mesh::schedule::lemma_removal_by_devices(manager.schedule, device, cell);
}

} // verus!
