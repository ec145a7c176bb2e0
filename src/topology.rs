//! The authoritative sets of nodes and RPC providers: registration, status
//! updates, availability queries, provider selection and health tracking.
use vstd::prelude::*;
use crate::types::{
    Node, NodeId, NodeRole, NodeStatus, NodeView, ProviderId, ProviderView, RpcProvider, RATE_SCALE,
};

verus! {

/// A node that can be chosen for a hop of the role.
pub open spec fn is_available(n: NodeView, role: NodeRole) -> bool {
    n.status == NodeStatus::Online && n.role == role
}

/// The nodes available for the role, in registration order.
pub open spec fn available(nodes: Seq<NodeView>, role: NodeRole) -> Seq<NodeView>
    decreases nodes.len(),
{
    if nodes.len() == 0 {
        Seq::empty()
    } else {
        let rest = available(nodes.drop_last(), role);
        if is_available(nodes.last(), role) {
            rest.push(nodes.last())
        } else {
            rest
        }
    }
}

/// Every node that `available` keeps is an available node of the sequence,
/// and it is empty exactly when no node of the sequence is available.
pub proof fn lemma_available(nodes: Seq<NodeView>, role: NodeRole)
    ensures
        forall|j: int|
            0 <= j < available(nodes, role).len() ==> is_available(#[trigger] available(nodes, role)[j], role)
                && nodes.contains(available(nodes, role)[j]),
        available(nodes, role).len() == 0 <==> forall|i: int| 0 <= i < nodes.len() ==> !is_available(#[trigger] nodes[i], role),
        node_ids_distinct(nodes) ==> node_ids_distinct(available(nodes, role)),
    decreases nodes.len(),
{
    if nodes.len() > 0 {
        let init = nodes.drop_last();
        lemma_available(init, role);
        if node_ids_distinct(nodes) {
            assert(node_ids_distinct(init)) by {
                assert forall|i: int, j: int| 0 <= i < init.len() && 0 <= j < init.len() && i != j implies init[i].id != init[j].id by {
                    assert(init[i] == nodes[i] && init[j] == nodes[j]);
                }
            }
            let a = available(init, role);
            assert forall|j: int| 0 <= j < a.len() implies (#[trigger] a[j]).id != nodes.last().id by {
                let k = choose|k: int| 0 <= k < init.len() && init[k] == a[j];
                assert(nodes[k] == init[k]);
                assert(nodes[nodes.len() - 1] == nodes.last());
            }
        }
        assert forall|j: int| 0 <= j < available(nodes, role).len() implies nodes.contains(
            #[trigger] available(nodes, role)[j],
        ) by {
            if j < available(init, role).len() {
                let k = choose|k: int| 0 <= k < init.len() && init[k] == available(init, role)[j];
                assert(nodes[k] == init[k]);
            } else {
                assert(nodes[nodes.len() - 1] == nodes.last());
            }
        }
        if available(nodes, role).len() == 0 {
            assert forall|i: int| 0 <= i < nodes.len() implies !is_available(#[trigger] nodes[i], role) by {
                if i < nodes.len() - 1 {
                    assert(init[i] == nodes[i]);
                }
            }
        }
        if forall|i: int| 0 <= i < nodes.len() ==> !is_available(#[trigger] nodes[i], role) {
            assert(!is_available(nodes[nodes.len() - 1], role));
            assert forall|i: int| 0 <= i < init.len() implies !is_available(#[trigger] init[i], role) by {
                assert(init[i] == nodes[i]);
            }
        }
    }
}

/// Node ids are pairwise distinct.
pub open spec fn node_ids_distinct(nodes: Seq<NodeView>) -> bool {
    forall|i: int, j: int| 0 <= i < nodes.len() && 0 <= j < nodes.len() && i != j ==> nodes[i].id != nodes[j].id
}

/// The node with the id is registered.
pub open spec fn has_node(nodes: Seq<NodeView>, id: u128) -> bool {
    exists|i: int| 0 <= i < nodes.len() && nodes[i].id == id
}

/// The position of the node with the id.
pub open spec fn node_position(nodes: Seq<NodeView>, id: u128) -> int {
    choose|i: int| 0 <= i < nodes.len() && nodes[i].id == id
}

/// The nodes after registering `node`: it replaces the node with its id, or
/// else joins at the end.
pub open spec fn upsert_node(nodes: Seq<NodeView>, node: NodeView) -> Seq<NodeView> {
    if has_node(nodes, node.id) {
        nodes.update(node_position(nodes, node.id), node)
    } else {
        nodes.push(node)
    }
}

/// The status a node has after a probe, given its consecutive failures after
/// that probe: a failure streak reaching the threshold demotes it to
/// `Offline`; one answered probe restores an `Offline` node to `Online`.
pub open spec fn status_after_probe(status: NodeStatus, alive: bool, failures: u32, threshold: u32) -> NodeStatus {
    if alive {
        if status == NodeStatus::Offline {
            NodeStatus::Online
        } else {
            status
        }
    } else if failures >= threshold {
        NodeStatus::Offline
    } else {
        status
    }
}

/// Consecutive failures after a probe.
pub open spec fn failures_after_probe(failures: u32, alive: bool) -> u32 {
    if alive {
        0
    } else if failures == u32::MAX {
        failures
    } else {
        (failures + 1) as u32
    }
}

/// The registered nodes, with each node's count of consecutive failed probes.
pub struct NodeRegistry {
    nodes: Vec<Node>,
    failures: Vec<u32>,
    failure_threshold: u32,
}

impl NodeRegistry {
    /// The registered nodes, in registration order.
    pub closed spec fn view(&self) -> Seq<NodeView> {
        self.nodes@.map_values(|n: Node| n@)
    }

    /// Each registered node's count of consecutive failed probes.
    pub closed spec fn failures(&self) -> Seq<u32> {
        self.failures@
    }

    /// Consecutive failed probes that demote a node to `Offline`.
    pub closed spec fn threshold(&self) -> u32 {
        self.failure_threshold
    }

    pub closed spec fn well_formed(&self) -> bool {
        &&& self.failures@.len() == self.nodes@.len()
        &&& self.failure_threshold >= 1
        &&& node_ids_distinct(self.view())
    }

    /// An empty registry that demotes a node after `failure_threshold`
    /// consecutive failed probes (at least one).
    pub fn new(failure_threshold: u32) -> (r: NodeRegistry)
        ensures
            r.well_formed(),
            r.view() == Seq::<NodeView>::empty(),
            r.threshold() == if failure_threshold == 0 { 1 } else { failure_threshold },
    {
        let t: u32 = if failure_threshold == 0 { 1 } else { failure_threshold };
        let r = NodeRegistry { nodes: Vec::new(), failures: Vec::new(), failure_threshold: t };
        assert(r.view() =~= Seq::<NodeView>::empty());
        r
    }

    fn find(&self, id: NodeId) -> (r: Option<usize>)
        requires
            self.well_formed(),
        ensures
            r is Some <==> has_node(self.view(), id.0),
            r matches Some(i) ==> i == node_position(self.view(), id.0) && i < self.view().len(),
    {
        let mut i: usize = 0;
        while i < self.nodes.len()
            invariant
                self.well_formed(),
                i <= self.nodes@.len(),
                forall|k: int| 0 <= k < i ==> self.nodes@[k].id.0 != id.0,
            decreases self.nodes@.len() - i,
        {
            if self.nodes[i].id.0 == id.0 {
                assert(self.view()[i as int].id == id.0);
                proof {
                    assert(has_node(self.view(), id.0));
                    let j = node_position(self.view(), id.0);
                    assert(0 <= j < self.view().len() && self.view()[j].id == id.0);
                    assert(node_ids_distinct(self.view()));
                    assert(j == i);
                }
                return Some(i);
            }
            i = i + 1;
        }
        assert forall|k: int| 0 <= k < self.view().len() implies self.view()[k].id != id.0 by {
            assert(self.view()[k] == self.nodes@[k]@);
        }
        None
    }

    /// Registers a node; one registered under the same id is replaced.
    pub fn register_node(&mut self, node: Node)
        requires
            old(self).well_formed(),
        ensures
            final(self).well_formed(),
            final(self).view() == upsert_node(old(self).view(), node@),
            final(self).threshold() == old(self).threshold(),
    {
        let ghost v = node@;
        match self.find(node.id) {
            Some(i) => {
                self.nodes.set(i, node);
                self.failures.set(i, 0);
                assert(self.view() =~= old(self).view().update(i as int, v));
            },
            None => {
                self.nodes.push(node);
                self.failures.push(0);
                assert(self.view() =~= old(self).view().push(v));
            },
        }
    }

    /// Sets the status of the node with the id; `false` where none is
    /// registered, and then nothing changes.
    pub fn update_node_status(&mut self, node_id: &NodeId, status: NodeStatus) -> (found: bool)
        requires
            old(self).well_formed(),
        ensures
            final(self).well_formed(),
            found == has_node(old(self).view(), node_id.0),
            final(self).threshold() == old(self).threshold(),
            final(self).failures() == old(self).failures(),
            found ==> final(self).view() == old(self).view().update(
                node_position(old(self).view(), node_id.0),
                NodeView { status, ..old(self).view()[node_position(old(self).view(), node_id.0)] },
            ),
            !found ==> final(self).view() == old(self).view(),
    {
        match self.find(*node_id) {
            Some(i) => {
                let mut n = self.nodes[i].duplicate();
                n.status = status;
                self.nodes.set(i, n);
                assert(self.view() =~= old(self).view().update(
                    i as int,
                    NodeView { status, ..old(self).view()[i as int] },
                ));
                true
            },
            None => false,
        }
    }

    /// The online nodes of the role, in registration order.
    pub fn get_available_nodes(&self, role: NodeRole) -> (r: Vec<Node>)
        ensures
            r@.map_values(|n: Node| n@) == available(self.view(), role),
    {
        let mut out: Vec<Node> = Vec::new();
        let mut i: usize = 0;
        while i < self.nodes.len()
            invariant
                i <= self.nodes@.len(),
                out@.map_values(|n: Node| n@) == available(self.view().take(i as int), role),
            decreases self.nodes@.len() - i,
        {
            let ghost before = out@.map_values(|n: Node| n@);
            assert(self.view().take(i + 1).drop_last() =~= self.view().take(i as int));
            assert(self.view().take(i + 1).last() == self.nodes@[i as int]@);
            if self.nodes[i].status == NodeStatus::Online && self.nodes[i].role == role {
                out.push(self.nodes[i].duplicate());
                assert(out@.map_values(|n: Node| n@) =~= before.push(self.nodes@[i as int]@));
            }
            i = i + 1;
        }
        assert(self.view().take(self.nodes@.len() as int) =~= self.view());
        out
    }

    /// The node with the id, if one is registered.
    pub fn get_node(&self, node_id: &NodeId) -> (r: Option<Node>)
        requires
            self.well_formed(),
        ensures
            r is Some <==> has_node(self.view(), node_id.0),
            r matches Some(n) ==> n@ == self.view()[node_position(self.view(), node_id.0)],
    {
        match self.find(*node_id) {
            Some(i) => Some(self.nodes[i].duplicate()),
            None => None,
        }
    }

    /// Records the outcome of a liveness probe of the node with the id at
    /// time `now`; `false` where none is registered, and then nothing changes.
    pub fn record_probe(&mut self, node_id: &NodeId, alive: bool, now: u64) -> (found: bool)
        requires
            old(self).well_formed(),
        ensures
            final(self).well_formed(),
            found == has_node(old(self).view(), node_id.0),
            final(self).threshold() == old(self).threshold(),
            !found ==> final(self).view() == old(self).view() && final(self).failures() == old(self).failures(),
            found ==> {
                let i = node_position(old(self).view(), node_id.0);
                let n = old(self).view()[i];
                let f = failures_after_probe(old(self).failures()[i], alive);
                &&& final(self).failures() == old(self).failures().update(i, f)
                &&& final(self).view() == old(self).view().update(
                    i,
                    NodeView {
                        status: status_after_probe(n.status, alive, f, old(self).threshold()),
                        last_seen: if alive { now } else { n.last_seen },
                        ..n
                    },
                )
            },
    {
        match self.find(*node_id) {
            Some(i) => {
                let f: u32 = if alive {
                    0
                } else if self.failures[i] == u32::MAX {
                    self.failures[i]
                } else {
                    self.failures[i] + 1
                };
                let mut n = self.nodes[i].duplicate();
                if alive {
                    n.last_seen = now;
                    if n.status == NodeStatus::Offline {
                        n.status = NodeStatus::Online;
                    }
                } else if f >= self.failure_threshold {
                    n.status = NodeStatus::Offline;
                }
                let ghost nv = n@;
                self.nodes.set(i, n);
                self.failures.set(i, f);
                assert(self.view() =~= old(self).view().update(i as int, nv));
                true
            },
            None => false,
        }
    }
}

/// Provider `a` is preferred over `b`: a higher success rate, then a lower
/// average latency, then a lower id.
pub open spec fn better(a: ProviderView, b: ProviderView) -> bool {
    ||| a.success_rate > b.success_rate
    ||| a.success_rate == b.success_rate && a.avg_latency < b.avg_latency
    ||| a.success_rate == b.success_rate && a.avg_latency == b.avg_latency && a.id < b.id
}

/// The id is among the excluded ones.
pub open spec fn excluded(tried: Seq<ProviderId>, id: u128) -> bool {
    exists|j: int| 0 <= j < tried.len() && tried[j].0 == id
}

/// A provider that may be chosen: active and not excluded.
pub open spec fn eligible(p: ProviderView, tried: Seq<ProviderId>) -> bool {
    p.active && !excluded(tried, p.id)
}

/// `p` is a registered eligible provider that no eligible provider is
/// preferred over.
pub open spec fn is_best(providers: Seq<ProviderView>, tried: Seq<ProviderId>, p: ProviderView) -> bool {
    &&& providers.contains(p)
    &&& eligible(p, tried)
    &&& forall|k: int| 0 <= k < providers.len() && eligible(#[trigger] providers[k], tried) ==> !better(providers[k], p)
}

/// Provider ids are pairwise distinct.
pub open spec fn provider_ids_distinct(ps: Seq<ProviderView>) -> bool {
    forall|i: int, j: int| 0 <= i < ps.len() && 0 <= j < ps.len() && i != j ==> ps[i].id != ps[j].id
}

/// Selection is deterministic: among providers with distinct ids at most one
/// is best.
pub proof fn lemma_best_unique(providers: Seq<ProviderView>, tried: Seq<ProviderId>, p: ProviderView, q: ProviderView)
    requires
        provider_ids_distinct(providers),
        is_best(providers, tried, p),
        is_best(providers, tried, q),
    ensures
        p == q,
{
    let i = choose|i: int| 0 <= i < providers.len() && providers[i] == p;
    let j = choose|j: int| 0 <= j < providers.len() && providers[j] == q;
    assert(!better(providers[i], q));
    assert(!better(providers[j], p));
    if i != j {
        assert(p.id != q.id);
    }
}

/// The providers that `get_active_providers` returns, in registration order.
pub open spec fn active(ps: Seq<ProviderView>) -> Seq<ProviderView>
    decreases ps.len(),
{
    if ps.len() == 0 {
        Seq::empty()
    } else if ps.last().active {
        active(ps.drop_last()).push(ps.last())
    } else {
        active(ps.drop_last())
    }
}

/// Weight of the moving averages: each probe counts for a fifth.
pub const EWMA_WEIGHT: u64 = 5;

/// The exponentially weighted moving average after one more sample.
pub open spec fn ewma(average: int, sample: int) -> int {
    (average * (EWMA_WEIGHT - 1) + sample) / EWMA_WEIGHT as int
}

/// What a provider holds after a probe at `now` that succeeded or not, in
/// `latency` milliseconds: the success rate moves toward 100% or 0%, the
/// latency toward the probe's round trip where it succeeded.
pub open spec fn after_probe(p: ProviderView, success: bool, latency: u64, now: u64) -> ProviderView {
    ProviderView {
        success_rate: ewma(p.success_rate as int, if success { RATE_SCALE as int } else { 0 }) as u32,
        avg_latency: if success { ewma(p.avg_latency as int, latency as int) as u64 } else { p.avg_latency },
        last_checked: now,
        ..p
    }
}

/// The providers after registering `p`: it replaces the provider with its
/// id, or else joins at the end.
pub open spec fn upsert_provider(ps: Seq<ProviderView>, p: ProviderView) -> Seq<ProviderView> {
    if exists|i: int| 0 <= i < ps.len() && ps[i].id == p.id {
        ps.update(provider_position(ps, p.id), p)
    } else {
        ps.push(p)
    }
}

/// The provider with the id is registered.
pub open spec fn has_provider(ps: Seq<ProviderView>, id: u128) -> bool {
    exists|i: int| 0 <= i < ps.len() && ps[i].id == id
}

/// The position of the provider with the id.
pub open spec fn provider_position(ps: Seq<ProviderView>, id: u128) -> int {
    choose|i: int| 0 <= i < ps.len() && ps[i].id == id
}

/// Whether `a` is preferred over `b`.
pub fn prefers(a: &RpcProvider, b: &RpcProvider) -> (r: bool)
    ensures
        r == better(a@, b@),
{
    a.success_rate > b.success_rate || (a.success_rate == b.success_rate && (a.avg_latency < b.avg_latency || (
    a.avg_latency == b.avg_latency && a.id.0 < b.id.0)))
}

/// Whether the id is among the excluded ones.
pub fn is_excluded(tried: &Vec<ProviderId>, id: ProviderId) -> (r: bool)
    ensures
        r == excluded(tried@, id.0),
{
    let mut i: usize = 0;
    while i < tried.len()
        invariant
            i <= tried@.len(),
            forall|k: int| 0 <= k < i ==> tried@[k].0 != id.0,
        decreases tried@.len() - i,
    {
        if tried[i].0 == id.0 {
            return true;
        }
        i = i + 1;
    }
    false
}

/// The registered RPC providers.
pub struct ProviderRegistry {
    providers: Vec<RpcProvider>,
}

impl ProviderRegistry {
    /// The registered providers, in registration order.
    pub closed spec fn view(&self) -> Seq<ProviderView> {
        self.providers@.map_values(|p: RpcProvider| p@)
    }

    pub closed spec fn well_formed(&self) -> bool {
        provider_ids_distinct(self.view())
    }

    /// An empty registry.
    pub fn new() -> (r: ProviderRegistry)
        ensures
            r.well_formed(),
            r.view() == Seq::<ProviderView>::empty(),
    {
        let r = ProviderRegistry { providers: Vec::new() };
        assert(r.view() =~= Seq::<ProviderView>::empty());
        r
    }

    fn find(&self, id: ProviderId) -> (r: Option<usize>)
        requires
            self.well_formed(),
        ensures
            r is Some <==> has_provider(self.view(), id.0),
            r matches Some(i) ==> i == provider_position(self.view(), id.0) && i < self.view().len(),
    {
        let mut i: usize = 0;
        while i < self.providers.len()
            invariant
                self.well_formed(),
                i <= self.providers@.len(),
                forall|k: int| 0 <= k < i ==> self.providers@[k].id.0 != id.0,
            decreases self.providers@.len() - i,
        {
            if self.providers[i].id.0 == id.0 {
                proof {
                    assert(self.view()[i as int].id == id.0);
                    assert(has_provider(self.view(), id.0));
                    let j = provider_position(self.view(), id.0);
                    assert(0 <= j < self.view().len() && self.view()[j].id == id.0);
                    assert(j == i);
                }
                return Some(i);
            }
            i = i + 1;
        }
        assert forall|k: int| 0 <= k < self.view().len() implies self.view()[k].id != id.0 by {
            assert(self.view()[k] == self.providers@[k]@);
        }
        None
    }

    /// Registers a provider; one registered under the same id is replaced.
    pub fn register_provider(&mut self, provider: RpcProvider)
        requires
            old(self).well_formed(),
        ensures
            final(self).well_formed(),
            final(self).view() == upsert_provider(old(self).view(), provider@),
    {
        let ghost v = provider@;
        match self.find(provider.id) {
            Some(i) => {
                self.providers.set(i, provider);
                assert(self.view() =~= old(self).view().update(i as int, v));
            },
            None => {
                self.providers.push(provider);
                assert(self.view() =~= old(self).view().push(v));
            },
        }
    }

    /// Switches the provider with the id on or off; `false` where none is
    /// registered, and then nothing changes.
    pub fn update_provider_status(&mut self, provider_id: ProviderId, active: bool) -> (found: bool)
        requires
            old(self).well_formed(),
        ensures
            final(self).well_formed(),
            found == has_provider(old(self).view(), provider_id.0),
            found ==> final(self).view() == old(self).view().update(
                provider_position(old(self).view(), provider_id.0),
                ProviderView { active, ..old(self).view()[provider_position(old(self).view(), provider_id.0)] },
            ),
            !found ==> final(self).view() == old(self).view(),
    {
        match self.find(provider_id) {
            Some(i) => {
                let mut p = self.providers[i].duplicate();
                p.active = active;
                self.providers.set(i, p);
                assert(self.view() =~= old(self).view().update(
                    i as int,
                    ProviderView { active, ..old(self).view()[i as int] },
                ));
                true
            },
            None => false,
        }
    }

    /// The active providers, in registration order.
    pub fn get_active_providers(&self) -> (r: Vec<RpcProvider>)
        ensures
            r@.map_values(|p: RpcProvider| p@) == active(self.view()),
    {
        let mut out: Vec<RpcProvider> = Vec::new();
        let mut i: usize = 0;
        while i < self.providers.len()
            invariant
                i <= self.providers@.len(),
                out@.map_values(|p: RpcProvider| p@) == active(self.view().take(i as int)),
            decreases self.providers@.len() - i,
        {
            let ghost before = out@.map_values(|p: RpcProvider| p@);
            assert(self.view().take(i + 1).drop_last() =~= self.view().take(i as int));
            assert(self.view().take(i + 1).last() == self.providers@[i as int]@);
            if self.providers[i].active {
                out.push(self.providers[i].duplicate());
                assert(out@.map_values(|p: RpcProvider| p@) =~= before.push(self.providers@[i as int]@));
            }
            i = i + 1;
        }
        assert(self.view().take(self.providers@.len() as int) =~= self.view());
        out
    }

    /// The preferred active provider whose id is not in `tried`; `None`
    /// exactly when there is none.
    pub fn get_best_provider_excluding(&self, tried: &Vec<ProviderId>) -> (r: Option<RpcProvider>)
        ensures
            r is None <==> forall|k: int| 0 <= k < self.view().len() ==> !eligible(#[trigger] self.view()[k], tried@),
            r matches Some(p) ==> is_best(self.view(), tried@, p@),
    {
        let mut best: Option<usize> = None;
        let mut i: usize = 0;
        while i < self.providers.len()
            invariant
                i <= self.providers@.len(),
                best matches Some(b) ==> b < i && eligible(self.view()[b as int], tried@) && forall|k: int|
                    0 <= k < i && eligible(#[trigger] self.view()[k], tried@) ==> !better(
                        self.view()[k],
                        self.view()[b as int],
                    ),
                best is None ==> forall|k: int| 0 <= k < i ==> !eligible(#[trigger] self.view()[k], tried@),
            decreases self.providers@.len() - i,
        {
            assert(self.view()[i as int] == self.providers@[i as int]@);
            if self.providers[i].active && !is_excluded(tried, self.providers[i].id) {
                match best {
                    None => {
                        best = Some(i);
                    },
                    Some(b) => {
                        assert(self.view()[b as int] == self.providers@[b as int]@);
                        if prefers(&self.providers[i], &self.providers[b]) {
                            best = Some(i);
                        }
                    },
                }
            }
            i = i + 1;
        }
        match best {
            Some(b) => {
                assert(self.view()[b as int] == self.providers@[b as int]@);
                Some(self.providers[b].duplicate())
            },
            None => None,
        }
    }

    /// The preferred active provider; `None` exactly when none is active.
    pub fn get_best_provider(&self) -> (r: Option<RpcProvider>)
        ensures
            r is None <==> forall|k: int| 0 <= k < self.view().len() ==> !(#[trigger] self.view()[k]).active,
            r matches Some(p) ==> is_best(self.view(), Seq::empty(), p@),
    {
        let none: Vec<ProviderId> = Vec::new();
        assert(none@ =~= Seq::<ProviderId>::empty());
        let r = self.get_best_provider_excluding(&none);
        assert forall|k: int| 0 <= k < self.view().len() implies (eligible(
            #[trigger] self.view()[k],
            none@,
        ) <==> self.view()[k].active) by {}
        r
    }

    /// Records a probe of the provider with the id at `now`: whether it
    /// answered, and its round trip in milliseconds. `false` where none is
    /// registered, and then nothing changes.
    pub fn record_probe(&mut self, provider_id: ProviderId, success: bool, latency: u64, now: u64) -> (found: bool)
        requires
            old(self).well_formed(),
        ensures
            final(self).well_formed(),
            found == has_provider(old(self).view(), provider_id.0),
            found ==> final(self).view() == old(self).view().update(
                provider_position(old(self).view(), provider_id.0),
                after_probe(old(self).view()[provider_position(old(self).view(), provider_id.0)], success, latency, now),
            ),
            !found ==> final(self).view() == old(self).view(),
    {
        match self.find(provider_id) {
            Some(i) => {
                let mut p = self.providers[i].duplicate();
                let sample: u64 = if success { RATE_SCALE as u64 } else { 0 };
                let rate: u64 = (p.success_rate as u64 * (EWMA_WEIGHT - 1) + sample) / EWMA_WEIGHT;
                assert(rate <= u32::MAX) by (nonlinear_arith)
                    requires
                        rate == (p.success_rate as u64 * 4 + sample) / 5,
                        p.success_rate <= u32::MAX,
                        sample <= 10000,
                ;
                p.success_rate = rate as u32;
                if success {
                    let lat: u128 = (p.avg_latency as u128 * (EWMA_WEIGHT - 1) as u128 + latency as u128)
                        / EWMA_WEIGHT as u128;
                    assert(lat <= u64::MAX) by (nonlinear_arith)
                        requires
                            lat == (p.avg_latency as u128 * 4 + latency as u128) / 5,
                            p.avg_latency <= u64::MAX,
                            latency <= u64::MAX,
                    ;
                    p.avg_latency = lat as u64;
                }
                p.last_checked = now;
                let ghost pv = p@;
                assert(pv == after_probe(old(self).view()[i as int], success, latency, now));
                self.providers.set(i, p);
                assert(self.view() =~= old(self).view().update(i as int, pv));
                true
            },
            None => false,
        }
    }
}

/// Storage of the authoritative node set.
pub trait NodeManager {
    /// The registered nodes, in registration order.
    spec fn nodes(&self) -> Seq<NodeView>;

    /// The store's own consistency.
    spec fn valid(&self) -> bool;

    /// Registers a node; one registered under the same id is replaced.
    fn register_node(&mut self, node: Node)
        requires
            old(self).valid(),
        ensures
            final(self).valid(),
            final(self).nodes() == upsert_node(old(self).nodes(), node@),
    ;

    /// Sets the status of the node with the id; `false` where none is
    /// registered, and then nothing changes.
    fn update_node_status(&mut self, node_id: &NodeId, status: NodeStatus) -> (found: bool)
        requires
            old(self).valid(),
        ensures
            final(self).valid(),
            found == has_node(old(self).nodes(), node_id.0),
            found ==> final(self).nodes() == old(self).nodes().update(
                node_position(old(self).nodes(), node_id.0),
                NodeView { status, ..old(self).nodes()[node_position(old(self).nodes(), node_id.0)] },
            ),
            !found ==> final(self).nodes() == old(self).nodes(),
    ;

    /// The online nodes of the role, in registration order.
    fn get_available_nodes(&self, role: NodeRole) -> (r: Vec<Node>)
        ensures
            r@.map_values(|n: Node| n@) == available(self.nodes(), role),
    ;

    /// The node with the id, if one is registered.
    fn get_node(&self, node_id: &NodeId) -> (r: Option<Node>)
        requires
            self.valid(),
        ensures
            r is Some <==> has_node(self.nodes(), node_id.0),
            r matches Some(n) ==> n@ == self.nodes()[node_position(self.nodes(), node_id.0)],
    ;
}

impl NodeManager for NodeRegistry {
    open spec fn nodes(&self) -> Seq<NodeView> {
        self.view()
    }

    open spec fn valid(&self) -> bool {
        self.well_formed()
    }

    fn register_node(&mut self, node: Node) {
        NodeRegistry::register_node(self, node)
    }

    fn update_node_status(&mut self, node_id: &NodeId, status: NodeStatus) -> (found: bool) {
        NodeRegistry::update_node_status(self, node_id, status)
    }

    fn get_available_nodes(&self, role: NodeRole) -> (r: Vec<Node>) {
        NodeRegistry::get_available_nodes(self, role)
    }

    fn get_node(&self, node_id: &NodeId) -> (r: Option<Node>) {
        NodeRegistry::get_node(self, node_id)
    }
}

/// Storage of the authoritative provider set.
pub trait RpcManager {
    /// The registered providers, in registration order.
    spec fn providers(&self) -> Seq<ProviderView>;

    /// The store's own consistency.
    spec fn valid(&self) -> bool;

    /// Registers a provider; one registered under the same id is replaced.
    fn register_provider(&mut self, provider: RpcProvider)
        requires
            old(self).valid(),
        ensures
            final(self).valid(),
            final(self).providers() == upsert_provider(old(self).providers(), provider@),
    ;

    /// Switches the provider with the id on or off; `false` where none is
    /// registered, and then nothing changes.
    fn update_provider_status(&mut self, provider_id: ProviderId, active: bool) -> (found: bool)
        requires
            old(self).valid(),
        ensures
            final(self).valid(),
            found == has_provider(old(self).providers(), provider_id.0),
            found ==> final(self).providers() == old(self).providers().update(
                provider_position(old(self).providers(), provider_id.0),
                ProviderView { active, ..old(self).providers()[provider_position(old(self).providers(), provider_id.0)] },
            ),
            !found ==> final(self).providers() == old(self).providers(),
    ;

    /// The active providers, in registration order.
    fn get_active_providers(&self) -> (r: Vec<RpcProvider>)
        ensures
            r@.map_values(|p: RpcProvider| p@) == active(self.providers()),
    ;

    /// The preferred active provider; `None` exactly when none is active.
    fn get_best_provider(&self) -> (r: Option<RpcProvider>)
        ensures
            r is None <==> forall|k: int| 0 <= k < self.providers().len() ==> !(#[trigger] self.providers()[k]).active,
            r matches Some(p) ==> is_best(self.providers(), Seq::empty(), p@),
    ;
}

impl RpcManager for ProviderRegistry {
    open spec fn providers(&self) -> Seq<ProviderView> {
        self.view()
    }

    open spec fn valid(&self) -> bool {
        self.well_formed()
    }

    fn register_provider(&mut self, provider: RpcProvider) {
        ProviderRegistry::register_provider(self, provider)
    }

    fn update_provider_status(&mut self, provider_id: ProviderId, active: bool) -> (found: bool) {
        ProviderRegistry::update_provider_status(self, provider_id, active)
    }

    fn get_active_providers(&self) -> (r: Vec<RpcProvider>) {
        ProviderRegistry::get_active_providers(self)
    }

    fn get_best_provider(&self) -> (r: Option<RpcProvider>) {
        ProviderRegistry::get_best_provider(self)
    }
}

} // verus!
