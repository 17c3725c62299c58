use std::collections::BTreeMap;

use vstd::prelude::*;

use crate::float::Float32;
use crate::mesh::route::{
    best_path, closed_below, connects, discovery, found_by, trail, Hops,
};
use crate::ordered::{ascending_keys, find, holds, keys_of, lookup, put, size, take, KeySet};

verus! {

/// Eight-byte unique network-device identifier.
#[derive(Debug, Clone, Copy, PartialEq, Eq, PartialOrd, Ord, Hash)]
pub struct DeviceId(pub [u8; 8]);

proof fn lemma_join64(b0: u8, b1: u8, b2: u8, b3: u8, b4: u8, b5: u8, b6: u8, b7: u8)
    by (bit_vector)
    ensures
        ({
            let joined = (b0 * 0x0100_0000_0000_0000 + b1 * 0x0001_0000_0000_0000 + b2
                * 0x0000_0100_0000_0000 + b3 * 0x0000_0001_0000_0000 + b4 * 0x0100_0000 + b5
                * 0x0001_0000 + b6 * 0x0100 + b7) as u64;
            &&& joined / 0x0100_0000_0000_0000 == b0
            &&& (joined / 0x0001_0000_0000_0000) % 256 == b1
            &&& (joined / 0x0000_0100_0000_0000) % 256 == b2
            &&& (joined / 0x0000_0001_0000_0000) % 256 == b3
            &&& (joined / 0x0100_0000) % 256 == b4
            &&& (joined / 0x0001_0000) % 256 == b5
            &&& (joined / 0x0100) % 256 == b6
            &&& joined % 256 == b7
        }),
{
}

impl DeviceId {
    /// The identifier as one big-endian number.
    pub open spec fn number(self) -> u64 {
        (self.0@[0] * 0x0100_0000_0000_0000 + self.0@[1] * 0x0001_0000_0000_0000 + self.0@[2]
            * 0x0000_0100_0000_0000 + self.0@[3] * 0x0000_0001_0000_0000 + self.0@[4] * 0x0100_0000
            + self.0@[5] * 0x0001_0000 + self.0@[6] * 0x0100 + self.0@[7]) as u64
    }

    /// Two identifiers with one number are the same identifier.
    pub proof fn lemma_number_is_injective(left: Self, right: Self)
        requires
            left.number() == right.number(),
        ensures
            left == right,
    {
        lemma_join64(
            left.0@[0],
            left.0@[1],
            left.0@[2],
            left.0@[3],
            left.0@[4],
            left.0@[5],
            left.0@[6],
            left.0@[7],
        );
        lemma_join64(
            right.0@[0],
            right.0@[1],
            right.0@[2],
            right.0@[3],
            right.0@[4],
            right.0@[5],
            right.0@[6],
            right.0@[7],
        );
        assert(left.0@ =~= right.0@);
        assert(left.0 =~= right.0);
    }

    pub(crate) fn key(self) -> (number: u64)
        ensures
            number == self.number(),
    {
        self.0[0] as u64 * 0x0100_0000_0000_0000 + self.0[1] as u64 * 0x0001_0000_0000_0000
            + self.0[2] as u64 * 0x0000_0100_0000_0000 + self.0[3] as u64 * 0x0000_0001_0000_0000
            + self.0[4] as u64 * 0x0100_0000 + self.0[5] as u64 * 0x0001_0000 + self.0[6] as u64
            * 0x0100 + self.0[7] as u64
    }

    pub(crate) fn same(self, other: Self) -> (same: bool)
        ensures
            same == (self == other),
    {
        let same = self.key() == other.key();
        proof {
            if same {
                DeviceId::lemma_number_is_injective(self, other);
            }
        }
        same
    }
}

/// Measured quality of a neighbor link.
#[derive(Debug, Clone, Copy, PartialEq, Eq, Structural)]
pub struct LinkHealth {
    /// Received signal level in decibels relative to one milliwatt.
    pub rssi_dbm: i16,
    /// Successful-packet ratio in `0.0..=1.0`.
    pub reliability: Float32,
    /// Measurement age in seconds.
    pub age_seconds: u32,
}

/// Whether a number is a ratio in `0.0..=1.0`.
pub open spec fn is_ratio(value: Float32) -> bool {
    value.finite() && value.not_below(Float32 { bits: 0 }) && (Float32 {
        bits: 0x3f80_0000,
    }).not_below(value)
}

fn ratio(value: Float32) -> (valid: bool)
    ensures
        valid == is_ratio(value),
{
    value.is_finite() && value.is_at_least(Float32::zero()) && Float32::one().is_at_least(value)
}

/// Current node state.
#[derive(Debug, Clone, Copy, PartialEq, Eq)]
pub struct NodeState {
    /// Unique identifier.
    pub id: DeviceId,
    /// Short network address.
    pub nickname: u16,
    /// Whether the device may transmit application data.
    pub active: bool,
}

/// The number of an unordered pair of nodes.
pub open spec fn pair(left: u64, right: u64) -> u128 {
    if left <= right {
        (left * 0x1_0000_0000_0000_0000 + right) as u128
    } else {
        (right * 0x1_0000_0000_0000_0000 + left) as u128
    }
}

/// The smaller node of a pair.
pub open spec fn smaller(key: u128) -> u64 {
    (key / 0x1_0000_0000_0000_0000) as u64
}

/// The larger node of a pair.
pub open spec fn larger(key: u128) -> u64 {
    (key % 0x1_0000_0000_0000_0000) as u64
}

/// A pair is the number of its two nodes in either order, and of no others.
pub proof fn lemma_pair(left: u64, right: u64)
    ensures
        pair(left, right) == pair(right, left),
        left <= right ==> smaller(pair(left, right)) == left && larger(pair(left, right)) == right,
        right <= left ==> smaller(pair(left, right)) == right && larger(pair(left, right)) == left,
{
}

fn pair_key(left: u64, right: u64) -> (key: u128)
    ensures
        key == pair(left, right),
{
    if left <= right {
        left as u128 * 0x1_0000_0000_0000_0000 + right as u128
    } else {
        right as u128 * 0x1_0000_0000_0000_0000 + left as u128
    }
}

/// What a graph holds.
#[verifier::ext_equal]
pub struct GraphView {
    /// Nodes by the number of their identifier.
    pub nodes: Map<u64, NodeState>,
    /// Links by the number of their pair of nodes.
    pub links: Map<u128, LinkHealth>,
}

impl GraphView {
    /// A graph without nodes.
    pub open spec fn empty() -> GraphView {
        GraphView { nodes: Map::empty(), links: Map::empty() }
    }

    /// Whether a node may transmit.
    pub open spec fn active(self, node: u64) -> bool {
        self.nodes.contains_key(node) && self.nodes[node].active
    }

    /// The nodes that may transmit.
    pub open spec fn active_nodes(self) -> Set<u64> {
        self.nodes.dom().filter(|node: u64| self.nodes[node].active)
    }

    /// Whether a hop between neighbors is reliable enough and ends at an
    /// active node.
    pub open spec fn hop(self, minimum: Float32, from: u64, to: u64) -> bool {
        &&& self.links.contains_key(pair(from, to))
        &&& self.links[pair(from, to)].reliability.not_below(minimum)
        &&& self.active(to)
    }

    /// The hops that are reliable enough.
    pub open spec fn hops(self, minimum: Float32) -> Hops {
        |from: u64, to: u64| self.hop(minimum, from, to)
    }

    /// Whether a path between two active nodes takes only reliable hops.
    pub open spec fn reaches(
        self,
        minimum: Float32,
        source: u64,
        destination: u64,
        path: Seq<u64>,
    ) -> bool {
        self.active(source) && connects(self.hops(minimum), source, destination, path)
    }

    /// The graph without a node and its links.
    pub open spec fn without(self, node: u64) -> GraphView {
        GraphView {
            nodes: self.nodes.remove(node),
            links: self.links.remove_keys(
                Set::new(|key: u128| smaller(key) == node || larger(key) == node),
            ),
        }
    }
}

/// The numbers of identifiers.
pub open spec fn numbers(ids: Seq<DeviceId>) -> Seq<u64> {
    Seq::new(ids.len(), |index: int| ids[index].number())
}

proof fn lemma_discovery_grows(
    hops: Hops,
    source: u64,
    order: Seq<u64>,
    parents: Seq<usize>,
    head: usize,
    candidate: u64,
)
    requires
        discovery(hops, source, order, parents),
        closed_below(hops, order, parents, head as int),
        head < order.len(),
        hops(order[head as int], candidate),
        !order.contains(candidate),
        forall|index: int| 0 < index < order.len() ==> #[trigger] parents[index] <= head,
        forall|index: int|
            0 < index < order.len() && #[trigger] parents[index] == head ==> order[index]
                < candidate,
    ensures
        discovery(hops, source, order.push(candidate), parents.push(head)),
        closed_below(hops, order.push(candidate), parents.push(head), head as int),
        forall|node: u64| #[trigger]
            order.push(candidate).contains(node) <==> order.contains(node) || node == candidate,
{
    let grown = order.push(candidate);
    let origins = parents.push(head);
    assert forall|node: u64| #[trigger] grown.contains(node) <==> order.contains(node) || node
        == candidate by {
        if order.contains(node) {
            let at = choose|at: int| 0 <= at < order.len() && order[at] == node;
            assert(grown[at] == node);
        }
        assert(grown[order.len() as int] == candidate);
        if grown.contains(node) {
            let at = choose|at: int| 0 <= at < grown.len() && grown[at] == node;
            if at < order.len() {
                assert(order[at] == node);
            }
        }
    }
    assert forall|first: int, second: int| 0 <= first < second < grown.len() implies grown[first]
        != grown[second] by {
        if second == order.len() {
            assert(order.contains(order[first]));
        }
    }
    assert forall|index: int|
        0 < index < grown.len() implies #[trigger] origins[index] < index && hops(
        grown[origins[index] as int],
        grown[index],
    ) by {
        if index < order.len() {
            assert(parents[index] < index);
        }
    }
    assert forall|first: int, second: int|
        #![trigger origins[first], origins[second]]
        0 < first < second < grown.len() implies origins[first] <= origins[second] && (
    origins[first] == origins[second] ==> grown[first] < grown[second]) by {
        if second < order.len() {
            assert(parents[first] <= parents[second]);
        } else {
            assert(parents[first] <= head);
        }
    }
    assert forall|position: int, node: u64|
        #![trigger hops(grown[position], node)]
        0 <= position < head && hops(grown[position], node) implies found_by(
        grown,
        origins,
        node,
        position,
    ) by {
        assert(hops(order[position], node));
        let index = choose|index: int|
            0 <= index < order.len() && #[trigger] order[index] == node && (index == 0
                || parents[index] <= position);
        assert(grown[index] == node);
    }
}

fn walk_back(order: &Vec<u64>, parents: &Vec<usize>, start: usize) -> (path: Vec<u64>)
    requires
        start < order@.len(),
        order@.len() == parents@.len(),
        forall|index: int| 0 < index < order@.len() ==> #[trigger] parents@[index] < index,
    ensures
        path@ == trail(order@, parents@, start as int),
{
    let mut reversed: Vec<u64> = Vec::new();
    let mut index: usize = start;
    let ghost whole = trail(order@, parents@, start as int);
    assert(whole =~= trail(order@, parents@, index as int) + reversed@.reverse());
    while index != 0
        invariant
            index < order@.len(),
            order@.len() == parents@.len(),
            forall|index: int| 0 < index < order@.len() ==> #[trigger] parents@[index] < index,
            whole == trail(order@, parents@, index as int) + reversed@.reverse(),
        decreases index,
    {
        let ghost before = reversed@;
        let ghost here = index as int;
        assert(parents@[here] < here);
        reversed.push(order[index]);
        index = parents[index];
        assert(whole =~= trail(order@, parents@, index as int) + reversed@.reverse()) by {
            assert(reversed@.reverse() =~= seq![order@[here]] + before.reverse());
        }
    }
    let mut path: Vec<u64> = Vec::new();
    path.push(order[0]);
    let mut left: usize = reversed.len();
    while left > 0
        invariant
            left <= reversed@.len(),
            order@.len() > 0,
            path@ == seq![order@[0]] + reversed@.reverse().take(reversed@.len() - left),
        decreases left,
    {
        left -= 1;
        path.push(reversed[left]);
        assert(path@ =~= seq![order@[0]] + reversed@.reverse().take(reversed@.len() - left));
    }
    assert(path@ =~= whole);
    path
}

/// Undirected neighbor graph.
#[derive(Debug, Clone)]
pub struct MeshGraph {
    nodes: BTreeMap<u64, NodeState>,
    links: BTreeMap<u128, LinkHealth>,
    adjacency: BTreeMap<u64, KeySet<u64>>,
}

impl View for MeshGraph {
    type V = GraphView;

    closed spec fn view(&self) -> GraphView {
        GraphView { nodes: self.nodes@, links: self.links@ }
    }
}

impl Default for MeshGraph {
    fn default() -> (graph: Self)
        ensures
            graph.well_formed(),
            graph@ == GraphView::empty(),
    {
        MeshGraph { nodes: BTreeMap::new(), links: BTreeMap::new(), adjacency: BTreeMap::new() }
    }
}

impl MeshGraph {
    /// Every node stands under its own number, every link joins two different
    /// nodes and holds a ratio, and the neighbor lists say what the links say.
    pub closed spec fn well_formed(&self) -> bool {
        &&& forall|node: u64| #[trigger]
            self.nodes@.contains_key(node) ==> self.nodes@[node].id.number() == node
        &&& forall|key: u128| #[trigger]
            self.links@.contains_key(key) ==> smaller(key) < larger(key)
                && self.nodes@.contains_key(smaller(key)) && self.nodes@.contains_key(larger(key))
                && is_ratio(self.links@[key].reliability)
        &&& forall|node: u64| #[trigger]
            self.adjacency@.contains_key(node) <==> self.nodes@.contains_key(node)
        &&& forall|node: u64, neighbor: u64|
            self.adjacency@.contains_key(node) ==> (
            #[trigger] self.adjacency@[node]@.contains_key(neighbor) <==> self.links@.contains_key(
                pair(node, neighbor),
            ))
    }

    /// Every node stands under its own number, and every link joins two
    /// different nodes and holds a ratio.
    pub proof fn lemma_links_join_nodes(&self)
        requires
            self.well_formed(),
        ensures
            forall|node: u64| #[trigger]
                self@.nodes.contains_key(node) ==> self@.nodes[node].id.number() == node,
            forall|key: u128| #[trigger]
                self@.links.contains_key(key) ==> smaller(key) < larger(key)
                    && self@.nodes.contains_key(smaller(key)) && self@.nodes.contains_key(
                    larger(key),
                ) && is_ratio(self@.links[key].reliability),
    {
    }

    /// Adds or updates a node.
    pub fn upsert_node(&mut self, node: NodeState) -> (previous: Option<NodeState>)
        requires
            old(self).well_formed(),
        ensures
            final(self).well_formed(),
            final(self)@ == (GraphView {
                nodes: old(self)@.nodes.insert(node.id.number(), node),
                ..old(self)@
            }),
            previous == lookup(old(self)@.nodes, node.id.number()),
    {
        let key: u64 = node.id.key();
        if !holds(&self.adjacency, key) {
            put(&mut self.adjacency, key, BTreeMap::new());
            assert forall|neighbor: u64| !old(self).links@.contains_key(#[trigger] pair(key, neighbor)) by {
                lemma_pair(key, neighbor);
            }
        }
        let previous = put(&mut self.nodes, key, node);
        assert forall|at: u64, neighbor: u64| self.adjacency@.contains_key(at) implies (
        #[trigger] self.adjacency@[at]@.contains_key(neighbor) <==> self.links@.contains_key(
            pair(at, neighbor),
        )) by {
            if at != key {
                assert(old(self).adjacency@.contains_key(at));
                assert(old(self).adjacency@[at]@.contains_key(neighbor)
                    == self.adjacency@[at]@.contains_key(neighbor));
            } else if old(self).adjacency@.contains_key(key) {
                assert(old(self).adjacency@[at]@.contains_key(neighbor)
                    == self.adjacency@[at]@.contains_key(neighbor));
            }
        }
        previous
    }

    /// Removes a node and all of its links.
    pub fn remove_node(&mut self, id: DeviceId) -> (previous: Option<NodeState>)
        requires
            old(self).well_formed(),
        ensures
            final(self).well_formed(),
            final(self)@ == old(self)@.without(id.number()),
            previous == lookup(old(self)@.nodes, id.number()),
    {
        let key: u64 = id.key();
        let ghost before = *old(self);
        match take(&mut self.adjacency, key) {
            None => {
                assert(!before.nodes@.contains_key(key));
                assert(self.adjacency@ =~= before.adjacency@);
                assert(before@.without(key).nodes =~= before.nodes@);
                assert(before@.without(key).links =~= before.links@);
                return None;
            },
            Some(neighbors) => {
                self.forget_neighbor(&neighbors, key);
            },
        }
        self.forget_links(key);
        let previous = take(&mut self.nodes, key);
        assert(self@ =~= before@.without(key));
        assert forall|node: u64, neighbor: u64| self.adjacency@.contains_key(node) implies (
        #[trigger] self.adjacency@[node]@.contains_key(neighbor) <==> self.links@.contains_key(
            pair(node, neighbor),
        )) by {
            lemma_pair(node, neighbor);
            assert(before.adjacency@.contains_key(node));
            assert(before.adjacency@[node]@.contains_key(neighbor) <==> before.links@.contains_key(
                pair(node, neighbor),
            ));
        }
        previous
    }

    fn forget_neighbor(&mut self, neighbors: &KeySet<u64>, key: u64)
        ensures
            final(self).nodes == old(self).nodes,
            final(self).links == old(self).links,
            final(self).adjacency@.dom() == old(self).adjacency@.dom(),
            forall|node: u64|
                old(self).adjacency@.contains_key(node) ==> (
                #[trigger] final(self).adjacency@[node])@ == if neighbors@.contains_key(node) {
                    old(self).adjacency@[node]@.remove(key)
                } else {
                    old(self).adjacency@[node]@
                },
    {
        let ghost before = *old(self);
        let keys = keys_of(neighbors);
        let mut index: usize = 0;
        while index < keys.len()
            invariant
                index <= keys@.len(),
                ascending_keys(keys@, neighbors@),
                self.nodes == before.nodes,
                self.links == before.links,
                self.adjacency@.dom() == before.adjacency@.dom(),
                forall|node: u64|
                    before.adjacency@.contains_key(node) ==> (
                    #[trigger] self.adjacency@[node])@ == if keys@.take(index as int).contains(
                        node,
                    ) {
                        before.adjacency@[node]@.remove(key)
                    } else {
                        before.adjacency@[node]@
                    },
            decreases keys@.len() - index,
        {
            let neighbor: u64 = keys[index];
            let ghost current = self.adjacency@;
            let ghost done = keys@.take(index as int);
            assert(keys@.take(index + 1) =~= done.push(neighbor));
            assert(!done.contains(neighbor)) by {
                if done.contains(neighbor) {
                    let at = choose|at: int| 0 <= at < done.len() && done[at] == neighbor;
                    assert(keys@[at] < keys@[index as int]);
                }
            }
            if let Some(entries) = take(&mut self.adjacency, neighbor) {
                let mut entries = entries;
                take(&mut entries, key);
                put(&mut self.adjacency, neighbor, entries);
                assert(self.adjacency@.dom() =~= before.adjacency@.dom());
            } else {
                assert(self.adjacency@ =~= current);
            }
            assert forall|node: u64| before.adjacency@.contains_key(node) implies (
            #[trigger] self.adjacency@[node])@ == if done.push(neighbor).contains(node) {
                before.adjacency@[node]@.remove(key)
            } else {
                before.adjacency@[node]@
            } by {
                assert(current.contains_key(node));
                let held = current[node]@;
                if node == neighbor {
                    assert(done.push(neighbor)[done.len() as int] == neighbor);
                } else if done.contains(node) {
                    let at = choose|at: int| 0 <= at < done.len() && done[at] == node;
                    assert(done.push(neighbor)[at] == node);
                } else if done.push(neighbor).contains(node) {
                    let at = choose|at: int|
                        0 <= at < done.push(neighbor).len() && done.push(neighbor)[at] == node;
                    assert(done[at] == node);
                }
            }
            index += 1;
        }
        assert(keys@.take(index as int) =~= keys@);
        assert forall|node: u64| before.adjacency@.contains_key(node) implies (
        #[trigger] self.adjacency@[node])@ == if neighbors@.contains_key(node) {
            before.adjacency@[node]@.remove(key)
        } else {
            before.adjacency@[node]@
        } by {
            if keys@.contains(node) {
                let at = choose|at: int| 0 <= at < keys@.len() && keys@[at] == node;
                assert(neighbors@.contains_key(keys@[at]));
            }
        }
    }

    fn forget_links(&mut self, key: u64)
        ensures
            final(self).nodes == old(self).nodes,
            final(self).adjacency == old(self).adjacency,
            final(self).links@ == old(self).links@.remove_keys(
                Set::new(|pair: u128| smaller(pair) == key || larger(pair) == key),
            ),
    {
        let ghost before = *old(self);
        let ghost gone = Set::new(|pair: u128| smaller(pair) == key || larger(pair) == key);
        let keys = keys_of(&self.links);
        let mut index: usize = 0;
        while index < keys.len()
            invariant
                index <= keys@.len(),
                ascending_keys(keys@, before.links@),
                self.nodes == before.nodes,
                self.adjacency == before.adjacency,
                gone == Set::new(|pair: u128| smaller(pair) == key || larger(pair) == key),
                forall|pair: u128| #[trigger]
                    self.links@.contains_key(pair) <==> before.links@.contains_key(pair) && !(
                    gone.contains(pair) && keys@.take(index as int).contains(pair)),
                forall|pair: u128| #[trigger]
                    self.links@.contains_key(pair) ==> self.links@[pair] == before.links@[pair],
            decreases keys@.len() - index,
        {
            let link: u128 = keys[index];
            let ghost done = keys@.take(index as int);
            let ghost current = self.links@;
            assert(keys@.take(index + 1) =~= done.push(link));
            let first: u64 = (link / 0x1_0000_0000_0000_0000) as u64;
            let second: u64 = (link % 0x1_0000_0000_0000_0000) as u64;
            if first == key || second == key {
                take(&mut self.links, link);
            }
            assert forall|pair: u128| #[trigger]
                self.links@.contains_key(pair) <==> before.links@.contains_key(pair) && !(
                gone.contains(pair) && done.push(link).contains(pair)) by {
                assert(current.contains_key(pair) <==> before.links@.contains_key(pair) && !(
                gone.contains(pair) && done.contains(pair)));
                if done.contains(pair) {
                    let at = choose|at: int| 0 <= at < done.len() && done[at] == pair;
                    assert(done.push(link)[at] == pair);
                }
                if pair == link {
                    assert(done.push(link)[done.len() as int] == link);
                } else if done.push(link).contains(pair) {
                    let at = choose|at: int|
                        0 <= at < done.push(link).len() && done.push(link)[at] == pair;
                    assert(done[at] == pair);
                }
            }
            index += 1;
        }
        assert(keys@.take(index as int) =~= keys@);
        assert(self.links@ =~= before.links@.remove_keys(gone));
    }

    /// Updates the symmetric link between two existing nodes.
    pub fn update_link(&mut self, left: DeviceId, right: DeviceId, health: LinkHealth) -> (updated:
        bool)
        requires
            old(self).well_formed(),
        ensures
            final(self).well_formed(),
            updated == (left != right && is_ratio(health.reliability)
                && old(self)@.nodes.contains_key(left.number())
                && old(self)@.nodes.contains_key(right.number())),
            final(self)@ == if updated {
                GraphView {
                    links: old(self)@.links.insert(pair(left.number(), right.number()), health),
                    ..old(self)@
                }
            } else {
                old(self)@
            },
    {
        let first: u64 = left.key();
        let second: u64 = right.key();
        if left.same(right) || !ratio(health.reliability) || !holds(&self.nodes, first) || !holds(
            &self.nodes,
            second,
        ) {
            return false;
        }
        proof {
            if first == second {
                DeviceId::lemma_number_is_injective(left, right);
            }
            lemma_pair(first, second);
        }
        let ghost before = *old(self);
        put(&mut self.links, pair_key(first, second), health);
        self.join(first, second);
        self.join(second, first);
        assert forall|node: u64, neighbor: u64| self.adjacency@.contains_key(node) implies (
        #[trigger] self.adjacency@[node]@.contains_key(neighbor) <==> self.links@.contains_key(
            pair(node, neighbor),
        )) by {
            lemma_pair(node, neighbor);
            assert(before.adjacency@.contains_key(node));
            assert(before.adjacency@[node]@.contains_key(neighbor) <==> before.links@.contains_key(
                pair(node, neighbor),
            ));
        }
        true
    }

    fn join(&mut self, node: u64, neighbor: u64)
        requires
            old(self).adjacency@.contains_key(node),
        ensures
            final(self).nodes == old(self).nodes,
            final(self).links == old(self).links,
            final(self).adjacency@.dom() == old(self).adjacency@.dom(),
            final(self).adjacency@[node]@ == old(self).adjacency@[node]@.insert(neighbor, ()),
            forall|other: u64|
                other != node ==> #[trigger] final(self).adjacency@[other] == old(self).adjacency@[other],
    {
        if let Some(entries) = take(&mut self.adjacency, node) {
            let mut entries = entries;
            put(&mut entries, neighbor, ());
            put(&mut self.adjacency, node, entries);
        }
        assert(self.adjacency@.dom() =~= old(self).adjacency@.dom());
    }

    /// Builds a minimum-hop route subject to a reliability threshold. Of
    /// several such routes it takes the one that goes to the smallest
    /// identifier wherever they part.
    pub fn route(
        &self,
        source: DeviceId,
        destination: DeviceId,
        minimum_reliability: Float32,
    ) -> (result: Option<Route>)
        requires
            self.well_formed(),
        ensures
            match result {
                Some(route) => is_ratio(minimum_reliability) && self@.active(source.number())
                    && best_path(
                    self@.hops(minimum_reliability),
                    source.number(),
                    destination.number(),
                    numbers(route.hops@),
                ),
                None => !is_ratio(minimum_reliability) || forall|path: Seq<u64>|
                    !#[trigger] self@.reaches(
                        minimum_reliability,
                        source.number(),
                        destination.number(),
                        path,
                    ),
            },
    {
        if !ratio(minimum_reliability) {
            return None;
        }
        let first: u64 = source.key();
        let last: u64 = destination.key();
        let ghost hops = self@.hops(minimum_reliability);
        if !self.is_active(first) {
            return None;
        }
        if !self.is_active(last) {
            assert forall|path: Seq<u64>| !#[trigger]
                self@.reaches(minimum_reliability, first, last, path) by {
                if self@.reaches(minimum_reliability, first, last, path) {
                    if path.len() > 1 {
                        assert(crate::mesh::route::hop_into(hops, path, path.len() - 1));
                    }
                }
            }
            return None;
        }
        if source.same(destination) {
            let mut ids: Vec<DeviceId> = Vec::new();
            ids.push(source);
            assert(numbers(ids@) =~= seq![first]);
            assert forall|other: Seq<u64>| #[trigger]
                connects(hops, first, last, other) implies 1 <= other.len() && (1 == other.len()
                ==> crate::mesh::route::precedes(seq![first], other)) by {
                if other.len() == 1 {
                    assert(other =~= seq![first]);
                }
            }
            return Some(Route { hops: ids });
        }
        proof {
            if first == last {
                DeviceId::lemma_number_is_injective(source, destination);
            }
        }
        match self.search(first, last, minimum_reliability) {
            None => {
                assert forall|path: Seq<u64>| !#[trigger]
                    self@.reaches(minimum_reliability, first, last, path) by {
                    assert(!connects(hops, first, last, path));
                }
                None
            },
            Some(path) => {
                assert forall|index: int| 0 <= index < path@.len() implies self@.nodes.contains_key(
                    #[trigger] path@[index],
                ) by {
                    if index > 0 {
                        assert(crate::mesh::route::hop_into(hops, path@, index));
                    }
                }
                Some(Route { hops: self.identifiers(&path) })
            },
        }
    }

    fn is_active(&self, node: u64) -> (active: bool)
        ensures
            active == self@.active(node),
    {
        match find(&self.nodes, node) {
            Some(state) => state.active,
            None => false,
        }
    }

    fn is_hop(&self, minimum: Float32, from: u64, to: u64) -> (allowed: bool)
        ensures
            allowed == self@.hop(minimum, from, to),
    {
        match find(&self.links, pair_key(from, to)) {
            Some(health) => health.reliability.is_at_least(minimum) && self.is_active(to),
            None => false,
        }
    }

    fn identifiers(&self, path: &Vec<u64>) -> (ids: Vec<DeviceId>)
        requires
            self.well_formed(),
            forall|index: int|
                0 <= index < path@.len() ==> self@.nodes.contains_key(#[trigger] path@[index]),
        ensures
            numbers(ids@) == path@,
    {
        let mut ids: Vec<DeviceId> = Vec::new();
        let mut index: usize = 0;
        while index < path.len()
            invariant
                index <= path@.len(),
                self.well_formed(),
                forall|index: int|
                    0 <= index < path@.len() ==> self@.nodes.contains_key(#[trigger] path@[index]),
                ids@.len() == index,
                forall|at: int| 0 <= at < index ==> (#[trigger] ids@[at]).number() == path@[at],
            decreases path@.len() - index,
        {
            let node: u64 = path[index];
            assert(self@.nodes.contains_key(path@[index as int]));
            if let Some(state) = find(&self.nodes, node) {
                ids.push(state.id);
            }
            index += 1;
        }
        assert(numbers(ids@) =~= path@);
        ids
    }

    #[verifier::spinoff_prover]
    #[verifier::rlimit(30)]
    fn search(&self, source: u64, destination: u64, minimum: Float32) -> (path: Option<Vec<u64>>)
        requires
            self.well_formed(),
            self@.active(source),
            source != destination,
        ensures
            match path {
                Some(found) => best_path(self@.hops(minimum), source, destination, found@),
                None => forall|path: Seq<u64>|
                    !#[trigger] connects(self@.hops(minimum), source, destination, path),
            },
    {
        let ghost hops = self@.hops(minimum);
        let total: usize = size(&self.nodes);
        let mut order: Vec<u64> = Vec::with_capacity(total);
        let mut parents: Vec<usize> = Vec::with_capacity(total);
        let mut visited: KeySet<u64> = BTreeMap::new();
        order.push(source);
        parents.push(0);
        put(&mut visited, source, ());
        let mut head: usize = 0;
        assert(order@[0] == source);
        while head < order.len()
            invariant
                self.well_formed(),
                hops == self@.hops(minimum),
                discovery(hops, source, order@, parents@),
                closed_below(hops, order@, parents@, head as int),
                head <= order@.len(),
                forall|node: u64| #[trigger]
                    visited@.contains_key(node) <==> order@.contains(node),
                forall|node: u64| #[trigger]
                    visited@.contains_key(node) ==> self.nodes@.contains_key(node),
                forall|index: int| 0 < index < order@.len() ==> #[trigger] parents@[index] < head,
                !order@.contains(destination),
                visited@.dom().finite(),
                order@.len() == visited@.len(),
                visited@.dom().subset_of(self.nodes@.dom()),
                self.nodes@.dom().finite(),
            decreases self.nodes@.len() - head,
        {
            let current: u64 = order[head];
            assert(order@.contains(current));
            assert(self.adjacency@.contains_key(current));
            proof {
                vstd::set_lib::lemma_len_subset(visited@.dom(), self.nodes@.dom());
            }
            if let Some(neighbors) = find(&self.adjacency, current) {
                let candidates = keys_of(neighbors);
                let mut next: usize = 0;
                while next < candidates.len()
                    invariant
                        self.well_formed(),
                        hops == self@.hops(minimum),
                        next <= candidates@.len(),
                        ascending_keys(candidates@, neighbors@),
                        self.adjacency@.contains_key(current),
                        *neighbors == self.adjacency@[current],
                        head < order@.len(),
                        current == order@[head as int],
                        discovery(hops, source, order@, parents@),
                        closed_below(hops, order@, parents@, head as int),
                        forall|node: u64| #[trigger]
                            visited@.contains_key(node) <==> order@.contains(node),
                        forall|node: u64| #[trigger]
                            visited@.contains_key(node) ==> self.nodes@.contains_key(node),
                        forall|index: int|
                            0 < index < order@.len() ==> #[trigger] parents@[index] <= head,
                        forall|index: int|
                            0 < index < order@.len() && #[trigger] parents@[index] == head
                                ==> exists|at: int|
                                0 <= at < next && order@[index] == #[trigger] candidates@[at],
                        forall|at: int|
                            0 <= at < next && hops(current, #[trigger] candidates@[at])
                                ==> order@.contains(candidates@[at]),
                        !order@.contains(destination),
                        visited@.dom().finite(),
                        order@.len() == visited@.len(),
                        visited@.dom().subset_of(self.nodes@.dom()),
                    decreases candidates@.len() - next,
                {
                    let candidate: u64 = candidates[next];
                    let ghost known = order@;
                    let ghost origins = parents@;
                    if self.is_hop(minimum, current, candidate) && !holds(&visited, candidate) {
                        assert(hops(order@[head as int], candidate));
                        if candidate == destination {
                            proof {
                                crate::mesh::route::lemma_discovered_by_best_path(
                                    hops,
                                    source,
                                    order@,
                                    parents@,
                                    head as int,
                                    destination,
                                );
                            }
                            let mut path = walk_back(&order, &parents, head);
                            path.push(destination);
                            return Some(path);
                        }
                        put(&mut visited, candidate, ());
                        order.push(candidate);
                        parents.push(head);
                        proof {
                            assert forall|index: int|
                                0 < index < known.len() && #[trigger] origins[index]
                                    == head implies known[index] < candidate by {
                                let at = choose|at: int|
                                    0 <= at < next && known[index] == #[trigger] candidates@[at];
                                assert(candidates@[at] < candidates@[next as int]);
                            }
                            lemma_discovery_grows(
                                hops,
                                source,
                                known,
                                origins,
                                head,
                                candidate,
                            );
                        }
                    }
                    next += 1;
                }
                assert forall|node: u64| #[trigger] hops(order@[head as int], node) implies found_by(
                    order@,
                    parents@,
                    node,
                    head as int,
                ) by {
                    assert(neighbors@.contains_key(node));
                    let at = choose|at: int| 0 <= at < candidates@.len() && candidates@[at] == node;
                    assert(order@.contains(candidates@[at]));
                    let index = choose|index: int|
                        0 <= index < order@.len() && order@[index] == node;
                    if index > 0 {
                        assert(parents@[index] <= head);
                    }
                    assert(order@[index] == node);
                }
            }
            head += 1;
        }
        proof {
            crate::mesh::route::lemma_undiscovered_is_unreachable(
                hops,
                source,
                order@,
                parents@,
                destination,
            );
        }
        None
    }

    /// Returns the node count.
    pub fn node_count(&self) -> (count: usize)
        ensures
            count == self@.nodes.len(),
    {
        size(&self.nodes)
    }

    /// Counts the nodes that may transmit.
    pub(crate) fn active_count(&self) -> (count: usize)
        ensures
            count == self@.active_nodes().len(),
    {
        let keys = keys_of(&self.nodes);
        let mut count: usize = 0;
        let mut index: usize = 0;
        let ghost mut seen: Set<u64> = Set::empty();
        while index < keys.len()
            invariant
                index <= keys@.len(),
                count <= index,
                ascending_keys(keys@, self.nodes@),
                seen.finite(),
                seen.len() == count,
                forall|node: u64| #[trigger]
                    seen.contains(node) <==> keys@.take(index as int).contains(node)
                        && self.nodes@[node].active,
            decreases keys@.len() - index,
        {
            let key: u64 = keys[index];
            let ghost done = keys@.take(index as int);
            assert(keys@.take(index + 1) =~= done.push(key));
            assert(!done.contains(key)) by {
                if done.contains(key) {
                    let at = choose|at: int| 0 <= at < done.len() && done[at] == key;
                    assert(keys@[at] < keys@[index as int]);
                }
            }
            assert(self.nodes@.contains_key(keys@[index as int]));
            if let Some(node) = find(&self.nodes, key) {
                if node.active {
                    count += 1;
                    proof {
                        seen = seen.insert(key);
                    }
                }
            }
            assert forall|node: u64| #[trigger] seen.contains(node) <==> done.push(key).contains(
                node,
            ) && self.nodes@[node].active by {
                if done.contains(node) {
                    let at = choose|at: int| 0 <= at < done.len() && done[at] == node;
                    assert(done.push(key)[at] == node);
                }
                assert(done.push(key)[done.len() as int] == key);
                if done.push(key).contains(node) && node != key {
                    let at = choose|at: int|
                        0 <= at < done.push(key).len() && done.push(key)[at] == node;
                    assert(done[at] == node);
                }
            }
            index += 1;
        }
        assert(keys@.take(index as int) =~= keys@);
        assert forall|node: u64| seen.contains(node) <==> self@.active_nodes().contains(node) by {
            if keys@.contains(node) {
                let at = choose|at: int| 0 <= at < keys@.len() && keys@[at] == node;
                assert(self.nodes@.contains_key(keys@[at]));
            }
        }
        assert(seen =~= self@.active_nodes());
        count
    }

    /// Returns the link count.
    pub fn link_count(&self) -> (count: usize)
        ensures
            count == self@.links.len(),
    {
        size(&self.links)
    }

    /// Returns a node by its unique identifier.
    pub fn node(&self, id: DeviceId) -> (node: Option<&NodeState>)
        ensures
            node == match lookup(self@.nodes, id.number()) {
                Some(found) => Some(&found),
                None => None,
            },
    {
        find(&self.nodes, id.key())
    }
}

/// Node sequence from source through destination, inclusive.
#[derive(Debug, Clone, PartialEq, Eq)]
pub struct Route {
    /// Path in transmission order.
    pub hops: Vec<DeviceId>,
}

} // verus!
