use std::collections::BTreeMap;

use vstd::prelude::*;

use crate::mesh::schedule::{Schedule, ScheduleError, ScheduleView};
use crate::mesh::security::{KeyMaterial, ReplayWindow, SecurityError, WindowView};
use crate::mesh::topology::{DeviceId, GraphView, MeshGraph, NodeState};
use crate::ordered::{find, holds, put, take, KeySet};

verus! {

/// WirelessHART network identifier.
#[derive(Debug, Clone, Copy, PartialEq, Eq, PartialOrd, Ord, Hash, Structural)]
pub struct NetworkId(pub u16);

/// Field-device join request.
#[derive(Debug, Clone, Copy, PartialEq, Eq)]
pub struct JoinRequest {
    /// Unique device identifier.
    pub device: DeviceId,
    /// Claimed network identifier.
    pub network: NetworkId,
    /// Request security counter.
    pub security_counter: u32,
}

/// Network-manager decision.
#[derive(Debug, Clone, Copy, PartialEq, Eq, Structural)]
pub enum JoinDecision {
    /// The device was admitted and assigned a short address.
    Accepted {
        /// Assigned short address.
        nickname: u16,
    },
    /// The device is absent from the allow list.
    NotAllowed,
    /// The device requested a different network.
    WrongNetwork,
    /// The caller-supplied cryptographic verifier rejected the request.
    AuthenticationFailed,
}

/// Network-manager state summary.
#[derive(Debug, Clone, Copy, PartialEq, Eq, Structural)]
pub struct MeshSnapshot {
    /// Number of active nodes.
    pub nodes: usize,
    /// Number of measured links.
    pub links: usize,
    /// Number of schedule cells.
    pub cells: usize,
}

/// Network-manager error.
#[derive(Debug, Clone, Copy, PartialEq, Eq, Structural)]
pub enum MeshManagerError {
    /// Schedule error.
    Schedule(ScheduleError),
    /// Replay protection was violated.
    Security(SecurityError),
    /// The short-address space was exhausted.
    AddressSpace,
}

/// What a network manager holds.
#[verifier::ext_equal]
pub struct ManagerView {
    /// Managed network.
    pub network: NetworkId,
    /// Nodes and links.
    pub graph: GraphView,
    /// Cells.
    pub schedule: ScheduleView,
    /// Numbers of the devices that may join.
    pub allowed: Set<u64>,
    /// Keys by the number of the device.
    pub keys: Map<u64, Seq<u8>>,
    /// Replay windows by the number of the device.
    pub replay: Map<u64, WindowView>,
    /// Short address of the next new node; zero when none is left.
    pub next_nickname: u16,
}

impl ManagerView {
    /// A manager that knows no device.
    pub open spec fn fresh(network: NetworkId, superframe_size: u16) -> ManagerView {
        ManagerView {
            network,
            graph: GraphView::empty(),
            schedule: ScheduleView { superframe_size, cells: Seq::empty() },
            allowed: Set::empty(),
            keys: Map::empty(),
            replay: Map::empty(),
            next_nickname: 1,
        }
    }

    /// The replay window of a device.
    pub open spec fn window(self, device: u64) -> WindowView {
        if self.replay.contains_key(device) {
            self.replay[device]
        } else {
            WindowView::fresh()
        }
    }

    /// The manager without what a device has built up by joining.
    pub open spec fn detached(self, device: DeviceId) -> ManagerView {
        ManagerView {
            graph: self.graph.without(device.number()),
            schedule: self.schedule.without(device),
            replay: self.replay.remove(device.number()),
            ..self
        }
    }

    /// The manager after a device was allowed with a key.
    pub open spec fn allowing(self, device: DeviceId, key: Seq<u8>) -> ManagerView {
        let admitted = ManagerView {
            allowed: self.allowed.insert(device.number()),
            keys: self.keys.insert(device.number(), key),
            ..self
        };
        if self.keys.contains_key(device.number()) {
            admitted.detached(device)
        } else {
            admitted
        }
    }

    /// The manager after a device was revoked.
    pub open spec fn revoking(self, device: DeviceId) -> ManagerView {
        ManagerView {
            allowed: self.allowed.remove(device.number()),
            keys: self.keys.remove(device.number()),
            ..self.detached(device)
        }
    }

    /// Whether a request is refused before its authentication, and how.
    pub open spec fn rejection(self, request: JoinRequest) -> Option<JoinDecision> {
        if request.network != self.network {
            Some(JoinDecision::WrongNetwork)
        } else if !self.keys.contains_key(request.device.number()) || !self.allowed.contains(
            request.device.number(),
        ) {
            Some(JoinDecision::NotAllowed)
        } else {
            None
        }
    }

    /// The manager after an authentic request, and what the request is answered.
    pub open spec fn joining(self, request: JoinRequest) -> (ManagerView, Result<
        JoinDecision,
        MeshManagerError,
    >) {
        let device = request.device.number();
        let window = self.window(device);
        if !self.graph.active(device) && self.next_nickname == 0 {
            (self, Err(MeshManagerError::AddressSpace))
        } else {
            match window.refusal(request.security_counter) {
                Some(error) => (self, Err(MeshManagerError::Security(error))),
                None => {
                    let noted = ManagerView {
                        replay: self.replay.insert(
                            device,
                            window.accepting(request.security_counter),
                        ),
                        ..self
                    };
                    if self.graph.active(device) {
                        (
                            noted,
                            Ok(
                                JoinDecision::Accepted {
                                    nickname: self.graph.nodes[device].nickname,
                                },
                            ),
                        )
                    } else {
                        let node = NodeState {
                            id: request.device,
                            nickname: self.next_nickname,
                            active: true,
                        };
                        (
                            ManagerView {
                                graph: GraphView {
                                    nodes: self.graph.nodes.insert(device, node),
                                    ..self.graph
                                },
                                next_nickname: if self.next_nickname == u16::MAX {
                                    0
                                } else {
                                    (self.next_nickname + 1) as u16
                                },
                                ..noted
                            },
                            Ok(JoinDecision::Accepted { nickname: self.next_nickname }),
                        )
                    }
                },
            }
        }
    }

    /// The manager after a request with a verdict on its authenticity, and
    /// what the request is answered.
    pub open spec fn answering(self, request: JoinRequest, authentic: bool) -> (
        ManagerView,
        Result<JoinDecision, MeshManagerError>,
    ) {
        match self.rejection(request) {
            Some(decision) => (self, Ok(decision)),
            None => if authentic {
                self.joining(request)
            } else {
                (self, Ok(JoinDecision::AuthenticationFailed))
            },
        }
    }
}

/// A request that was not authenticated changes nothing.
pub proof fn lemma_failed_authentication_changes_nothing(
    manager: ManagerView,
    request: JoinRequest,
)
    ensures
        manager.answering(request, false).0 == manager,
        !(manager.answering(request, false).1 matches Ok(JoinDecision::Accepted { .. })),
{
}

/// A request that is not accepted changes nothing.
pub proof fn lemma_only_acceptance_changes_state(
    manager: ManagerView,
    request: JoinRequest,
    authentic: bool,
)
    ensures
        !(manager.answering(request, authentic).1 matches Ok(JoinDecision::Accepted { .. }))
            ==> manager.answering(request, authentic).0 == manager,
{
}

/// No join request with one security counter is accepted twice in a row.
pub proof fn lemma_join_is_not_replayed(manager: ManagerView, request: JoinRequest)
    requires
        manager.answering(request, true).1 matches Ok(JoinDecision::Accepted { .. }),
    ensures
        manager.answering(request, true).0.answering(request, true).1 is Err,
{
}

/// Nothing of a revoked device is left, and the device cannot join.
pub proof fn lemma_revoked_device_is_gone(
    manager: ManagerView,
    device: DeviceId,
    request: JoinRequest,
    authentic: bool,
)
    requires
        request.device == device,
        request.network == manager.network,
    ensures
        ({
            let after = manager.revoking(device);
            &&& !after.allowed.contains(device.number())
            &&& !after.keys.contains_key(device.number())
            &&& !after.replay.contains_key(device.number())
            &&& !after.graph.nodes.contains_key(device.number())
            &&& forall|other: u64|
                !after.graph.links.contains_key(
                    #[trigger] crate::mesh::topology::pair(device.number(), other),
                )
            &&& forall|cell: crate::mesh::schedule::Cell| #[trigger]
                after.schedule.cells.contains(cell) ==> !cell.involves(device)
            &&& after.answering(request, authentic).1 == Ok::<JoinDecision, MeshManagerError>(
                JoinDecision::NotAllowed,
            )
        }),
{
    crate::mesh::schedule::lemma_removed_device_has_no_cells(manager.schedule, device);
    let after = manager.revoking(device);
    assert forall|other: u64|
        !after.graph.links.contains_key(
            #[trigger] crate::mesh::topology::pair(device.number(), other),
        ) by {
        crate::mesh::topology::lemma_pair(device.number(), other);
    }
}

/// A device whose key is replaced must join anew: it has no node, and its next
/// authentic request gets the next short address.
pub proof fn lemma_replaced_key_needs_a_fresh_join(
    manager: ManagerView,
    key: Seq<u8>,
    request: JoinRequest,
)
    requires
        manager.keys.contains_key(request.device.number()),
        manager.next_nickname != 0,
        request.network == manager.network,
    ensures
        ({
            let after = manager.allowing(request.device, key);
            &&& !after.graph.active(request.device.number())
            &&& after.answering(request, true).1 == Ok::<JoinDecision, MeshManagerError>(
                JoinDecision::Accepted { nickname: manager.next_nickname },
            )
        }),
{
}

/// A device that is active already and sends an acceptable counter keeps its
/// short address, and the network stays as it is.
pub proof fn lemma_active_device_keeps_its_nickname(manager: ManagerView, request: JoinRequest)
    requires
        manager.rejection(request) is None,
        manager.graph.active(request.device.number()),
        manager.window(request.device.number()).refusal(request.security_counter) is None,
    ensures
        ({
            let (after, answer) = manager.answering(request, true);
            &&& answer == Ok::<JoinDecision, MeshManagerError>(
                JoinDecision::Accepted {
                    nickname: manager.graph.nodes[request.device.number()].nickname,
                },
            )
            &&& after.graph == manager.graph
            &&& after.schedule == manager.schedule
            &&& after.next_nickname == manager.next_nickname
        }),
{
}

/// A request with a counter that was seen or is too old is answered with an
/// error, changes nothing and uses up no short address.
pub proof fn lemma_refused_counter_uses_no_nickname(manager: ManagerView, request: JoinRequest)
    requires
        manager.rejection(request) is None,
        manager.window(request.device.number()).refusal(request.security_counter) is Some,
    ensures
        manager.answering(request, true).1 is Err,
        manager.answering(request, true).0 == manager,
        manager.giving(ManagerStep::Join(request, true)) is None,
{
}

/// A change of the devices of a network.
pub enum ManagerStep {
    /// A device is allowed with a key.
    Allow(DeviceId, Seq<u8>),
    /// A device is revoked.
    Revoke(DeviceId),
    /// A device asks to join, and its request is authentic or not.
    Join(JoinRequest, bool),
}

impl ManagerView {
    /// The manager after a change.
    pub open spec fn stepping(self, step: ManagerStep) -> ManagerView {
        match step {
            ManagerStep::Allow(device, key) => self.allowing(device, key),
            ManagerStep::Revoke(device) => self.revoking(device),
            ManagerStep::Join(request, authentic) => self.answering(request, authentic).0,
        }
    }

    /// The short address that a change gives to a device without one.
    pub open spec fn giving(self, step: ManagerStep) -> Option<u16> {
        match step {
            ManagerStep::Join(request, authentic) => if self.graph.active(
                request.device.number(),
            ) {
                None
            } else {
                match self.answering(request, authentic).1 {
                    Ok(JoinDecision::Accepted { nickname }) => Some(nickname),
                    _ => None,
                }
            },
            _ => None,
        }
    }

    /// The manager after changes, and the short addresses that they gave, in order.
    pub open spec fn running(self, steps: Seq<ManagerStep>) -> (ManagerView, Seq<u16>)
        decreases steps.len(),
    {
        if steps.len() == 0 {
            (self, Seq::empty())
        } else {
            let (before, given) = self.running(steps.drop_last());
            (
                before.stepping(steps.last()),
                match before.giving(steps.last()) {
                    Some(nickname) => given.push(nickname),
                    None => given,
                },
            )
        }
    }
}

/// A manager gives the short addresses one, two, three and so on, none of them
/// twice; every node of its network is active and has one of them; and once
/// all are given, a device without one is answered that none is left.
pub proof fn lemma_nicknames_are_given_once(
    network: NetworkId,
    superframe_size: u16,
    steps: Seq<ManagerStep>,
)
    ensures
        ({
            let (manager, given) = ManagerView::fresh(network, superframe_size).running(steps);
            &&& given.len() <= 65535
            &&& forall|index: int| 0 <= index < given.len() ==> #[trigger] given[index] == index + 1
            &&& manager.next_nickname == (if given.len() == 65535 {
                0
            } else {
                given.len() + 1
            })
            &&& forall|node: u64| #[trigger]
                manager.graph.nodes.contains_key(node) ==> manager.graph.nodes[node].active
                    && 1 <= manager.graph.nodes[node].nickname <= given.len()
            &&& forall|request: JoinRequest|
                given.len() == 65535 && manager.rejection(request) is None
                    && !manager.graph.nodes.contains_key(request.device.number())
                    ==> #[trigger] manager.answering(request, true) == (
                    manager,
                    Err::<JoinDecision, MeshManagerError>(MeshManagerError::AddressSpace),
                )
        }),
    decreases steps.len(),
{
    let start = ManagerView::fresh(network, superframe_size);
    if steps.len() > 0 {
        lemma_nicknames_are_given_once(network, superframe_size, steps.drop_last());
        let (before, earlier) = start.running(steps.drop_last());
        let (manager, given) = start.running(steps);
        assert forall|node: u64| #[trigger] manager.graph.nodes.contains_key(node) implies
            manager.graph.nodes[node].active && 1 <= manager.graph.nodes[node].nickname
            <= given.len() by {
            if before.graph.nodes.contains_key(node) {
                assert(before.graph.nodes[node].active);
            }
        }
    }
}

/// Host-side network-manager state.
pub struct MeshManager {
    network: NetworkId,
    graph: MeshGraph,
    schedule: Schedule,
    allowlist: KeySet<u64>,
    join_keys: BTreeMap<u64, KeyMaterial>,
    replay: BTreeMap<u64, ReplayWindow>,
    next_nickname: u16,
}

impl View for MeshManager {
    type V = ManagerView;

    closed spec fn view(&self) -> ManagerView {
        ManagerView {
            network: self.network,
            graph: self.graph@,
            schedule: self.schedule@,
            allowed: self.allowlist@.dom(),
            keys: self.join_keys@.map_values(|key: KeyMaterial| key@),
            replay: self.replay@.map_values(|window: ReplayWindow| window@),
            next_nickname: self.next_nickname,
        }
    }
}

impl MeshManager {
    /// Graph and schedule are well formed.
    pub closed spec fn well_formed(&self) -> bool {
        self.graph.well_formed() && self.schedule.well_formed()
    }

    /// Creates a manager for the specified network and superframe.
    pub fn new(network: NetworkId, superframe_size: u16) -> (result: Result<Self, MeshManagerError>)
        ensures
            if superframe_size == 0 {
                result matches Err(error) && error == MeshManagerError::Schedule(
                    ScheduleError::EmptySuperframe,
                )
            } else {
                result matches Ok(manager) && manager.well_formed() && manager@
                    == ManagerView::fresh(network, superframe_size)
            },
    {
        match Schedule::new(superframe_size) {
            Err(error) => Err(MeshManagerError::Schedule(error)),
            Ok(schedule) => {
                let manager = MeshManager {
                    network,
                    graph: MeshGraph::default(),
                    schedule,
                    allowlist: BTreeMap::new(),
                    join_keys: BTreeMap::new(),
                    replay: BTreeMap::new(),
                    next_nickname: 1,
                };
                assert(manager@ =~= ManagerView::fresh(network, superframe_size));
                Ok(manager)
            },
        }
    }

    /// Allows a device to join and stores its individual key.
    ///
    /// Replacing an existing key invalidates replay, graph, and schedule state so the device
    /// must authenticate a fresh join with the new material.
    pub fn allow(&mut self, device: DeviceId, join_key: KeyMaterial)
        requires
            old(self).well_formed(),
        ensures
            final(self).well_formed(),
            final(self)@ == old(self)@.allowing(device, join_key@),
    {
        let ghost before = self@;
        let ghost key = join_key@;
        let number: u64 = device.key();
        put(&mut self.allowlist, number, ());
        let replaced = holds(&self.join_keys, number);
        put(&mut self.join_keys, number, join_key);
        if replaced {
            self.detach(device);
        }
        assert(self@ =~= before.allowing(device, key));
    }

    /// Permanently removes device admission, key material, and active state.
    pub fn revoke(&mut self, device: DeviceId)
        requires
            old(self).well_formed(),
        ensures
            final(self).well_formed(),
            final(self)@ == old(self)@.revoking(device),
    {
        let ghost before = self@;
        let number: u64 = device.key();
        take(&mut self.allowlist, number);
        take(&mut self.join_keys, number);
        self.detach(device);
        assert(self@ =~= before.revoking(device));
    }

    fn detach(&mut self, device: DeviceId)
        requires
            old(self).well_formed(),
        ensures
            final(self).well_formed(),
            final(self)@ == old(self)@.detached(device),
    {
        let ghost before = self@;
        take(&mut self.replay, device.key());
        self.graph.remove_node(device);
        self.schedule.remove_device(device);
        assert(self@ =~= before.detached(device));
    }

    fn apply_join(&mut self, request: JoinRequest) -> (result: Result<
        JoinDecision,
        MeshManagerError,
    >)
        requires
            old(self).well_formed(),
            old(self)@.rejection(request) is None,
        ensures
            final(self).well_formed(),
            final(self)@ == old(self)@.joining(request).0,
            result == old(self)@.joining(request).1,
    {
        let ghost before = self@;
        let number: u64 = request.device.key();
        let known: Option<u16> = match self.graph.node(request.device) {
            Some(node) => if node.active {
                Some(node.nickname)
            } else {
                None
            },
            None => None,
        };
        if known.is_none() && self.next_nickname == 0 {
            return Err(MeshManagerError::AddressSpace);
        }
        let mut window = match find(&self.replay, number) {
            Some(window) => *window,
            None => ReplayWindow::default(),
        };
        assert(window@ == before.window(number));
        match window.accept(request.security_counter) {
            Err(error) => return Err(MeshManagerError::Security(error)),
            Ok(()) => {},
        }
        put(&mut self.replay, number, window);
        assert(self@.replay =~= before.replay.insert(
            number,
            before.window(number).accepting(request.security_counter),
        ));
        if let Some(nickname) = known {
            return Ok(JoinDecision::Accepted { nickname });
        }
        let nickname: u16 = self.next_nickname;
        self.next_nickname = if nickname == u16::MAX {
            0
        } else {
            nickname + 1
        };
        self.graph.upsert_node(NodeState { id: request.device, nickname, active: true });
        Ok(JoinDecision::Accepted { nickname })
    }

    /// Answers a join request on whose authenticity a verdict has been given.
    ///
    /// A request that was not authenticated leaves replay, graph, and nickname
    /// state unchanged.
    pub fn join_with_verdict(&mut self, request: JoinRequest, authentic: bool) -> (result: Result<
        JoinDecision,
        MeshManagerError,
    >)
        requires
            old(self).well_formed(),
        ensures
            final(self).well_formed(),
            final(self)@ == old(self)@.answering(request, authentic).0,
            result == old(self)@.answering(request, authentic).1,
    {
        if request.network != self.network {
            return Ok(JoinDecision::WrongNetwork);
        }
        let number: u64 = request.device.key();
        if !holds(&self.join_keys, number) || !holds(&self.allowlist, number) {
            return Ok(JoinDecision::NotAllowed);
        }
        if !authentic {
            return Ok(JoinDecision::AuthenticationFailed);
        }
        self.apply_join(request)
    }

    /// Authenticates a join with the provisioned per-device key before changing network state.
    ///
    /// The verifier owns the exact WirelessHART cryptographic implementation and receives the
    /// request plus temporary read-only key bytes. Returning `false` leaves replay, graph, and
    /// nickname state unchanged.
    pub fn join_authenticated<F: FnOnce(&JoinRequest, &[u8; 16]) -> bool>(
        &mut self,
        request: JoinRequest,
        authenticate: F,
    ) -> (result: Result<JoinDecision, MeshManagerError>)
        requires
            old(self).well_formed(),
            forall|key: &[u8; 16]| call_requires(authenticate, (&request, key)),
        ensures
            final(self).well_formed(),
            match old(self)@.rejection(request) {
                Some(decision) => result == Ok::<JoinDecision, MeshManagerError>(decision)
                    && final(self)@ == old(self)@,
                None => exists|key: [u8; 16], authentic: bool| #[trigger]
                    call_ensures(authenticate, (&request, &key), authentic) && key@
                        == old(self)@.keys[request.device.number()]
                            && final(self)@ == old(self)@.answering(request, authentic).0
                            && result == old(self)@.answering(
                        request,
                        authentic,
                    ).1,
            },
    {
        if request.network != self.network {
            return Ok(JoinDecision::WrongNetwork);
        }
        let number: u64 = request.device.key();
        let authentic = match find(&self.join_keys, number) {
            None => return Ok(JoinDecision::NotAllowed),
            Some(join_key) => {
                if !holds(&self.allowlist, number) {
                    return Ok(JoinDecision::NotAllowed);
                }
                authenticate(&request, join_key.expose())
            },
        };
        self.join_with_verdict(request, authentic)
    }

    /// Provides mutable graph access for loading neighbor reports.
    pub fn graph_mut(&mut self) -> (graph: &mut MeshGraph)
        requires
            old(self).well_formed(),
        ensures
            graph.well_formed(),
            graph@ == old(self)@.graph,
            final(graph).well_formed() ==> final(self).well_formed(),
            final(self)@ == (ManagerView { graph: final(graph)@, ..old(self)@ }),
    {
        &mut self.graph
    }

    /// Provides mutable schedule access.
    pub fn schedule_mut(&mut self) -> (schedule: &mut Schedule)
        requires
            old(self).well_formed(),
        ensures
            schedule.well_formed(),
            schedule@ == old(self)@.schedule,
            final(schedule).well_formed() ==> final(self).well_formed(),
            final(self)@ == (ManagerView { schedule: final(schedule)@, ..old(self)@ }),
    {
        &mut self.schedule
    }

    /// Returns a safe summary without key material.
    pub fn snapshot(&self) -> (snapshot: MeshSnapshot)
        ensures
            snapshot.nodes == self@.graph.active_nodes().len(),
            snapshot.links == self@.graph.links.len(),
            snapshot.cells == self@.schedule.cells.len(),
    {
        MeshSnapshot {
            nodes: self.graph.active_count(),
            links: self.graph.link_count(),
            cells: self.schedule.cells().len(),
        }
    }
}

} // verus!
