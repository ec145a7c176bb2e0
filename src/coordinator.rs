//! The coordinator: applies the results of health probes of nodes and
//! providers to the authoritative sets, in the order they were taken.
use vstd::prelude::*;
use crate::topology::{
    NodeRegistry, ProviderRegistry, after_probe, failures_after_probe, has_node, has_provider, node_position,
    provider_position, status_after_probe,
};
use crate::types::{NodeId, NodeView, ProviderId, ProviderView};

verus! {

/// The result of probing a node's liveness.
#[derive(Debug, Clone, Copy, PartialEq, Eq, Structural)]
pub struct NodeProbe {
    pub node_id: NodeId,
    pub alive: bool,
}

/// The result of probing a provider: whether it answered, and its round
/// trip in milliseconds.
#[derive(Debug, Clone, Copy, PartialEq, Eq, Structural)]
pub struct ProviderProbe {
    pub provider_id: ProviderId,
    pub success: bool,
    pub latency: u64,
}

/// The nodes and failure counts after one probe at `now`.
pub open spec fn node_probe_step(
    nodes: Seq<NodeView>,
    failures: Seq<u32>,
    threshold: u32,
    probe: NodeProbe,
    now: u64,
) -> (Seq<NodeView>, Seq<u32>) {
    if has_node(nodes, probe.node_id.0) {
        let i = node_position(nodes, probe.node_id.0);
        let n = nodes[i];
        let f = failures_after_probe(failures[i], probe.alive);
        (
            nodes.update(
                i,
                NodeView {
                    status: status_after_probe(n.status, probe.alive, f, threshold),
                    last_seen: if probe.alive { now } else { n.last_seen },
                    ..n
                },
            ),
            failures.update(i, f),
        )
    } else {
        (nodes, failures)
    }
}

/// The nodes and failure counts after the probes, in order.
pub open spec fn apply_node_probes(
    nodes: Seq<NodeView>,
    failures: Seq<u32>,
    threshold: u32,
    probes: Seq<NodeProbe>,
    now: u64,
) -> (Seq<NodeView>, Seq<u32>)
    decreases probes.len(),
{
    if probes.len() == 0 {
        (nodes, failures)
    } else {
        let before = apply_node_probes(nodes, failures, threshold, probes.drop_last(), now);
        node_probe_step(before.0, before.1, threshold, probes.last(), now)
    }
}

/// The providers after one probe at `now`.
pub open spec fn provider_probe_step(providers: Seq<ProviderView>, probe: ProviderProbe, now: u64) -> Seq<ProviderView> {
    if has_provider(providers, probe.provider_id.0) {
        let i = provider_position(providers, probe.provider_id.0);
        providers.update(i, after_probe(providers[i], probe.success, probe.latency, now))
    } else {
        providers
    }
}

/// The providers after the probes, in order.
pub open spec fn apply_provider_probes(providers: Seq<ProviderView>, probes: Seq<ProviderProbe>, now: u64) -> Seq<
    ProviderView,
>
    decreases probes.len(),
{
    if probes.len() == 0 {
        providers
    } else {
        provider_probe_step(apply_provider_probes(providers, probes.drop_last(), now), probes.last(), now)
    }
}

/// The coordinator service.
pub struct CoordinatorService {
    pub node_manager: NodeRegistry,
    pub rpc_manager: ProviderRegistry,
}

impl CoordinatorService {
    pub fn new(node_manager: NodeRegistry, rpc_manager: ProviderRegistry) -> (r: CoordinatorService)
        ensures
            r.node_manager == node_manager,
            r.rpc_manager == rpc_manager,
    {
        CoordinatorService { node_manager, rpc_manager }
    }

    /// Applies the liveness probes taken at `now`, in order: a node is
    /// demoted to `Offline` once its failure streak reaches the threshold,
    /// and an `Offline` node is restored after one answered probe.
    pub fn update_topology(&mut self, probes: &Vec<NodeProbe>, now: u64)
        requires
            old(self).node_manager.well_formed(),
        ensures
            final(self).node_manager.well_formed(),
            final(self).rpc_manager == old(self).rpc_manager,
            final(self).node_manager.threshold() == old(self).node_manager.threshold(),
            (final(self).node_manager.view(), final(self).node_manager.failures()) == apply_node_probes(
                old(self).node_manager.view(),
                old(self).node_manager.failures(),
                old(self).node_manager.threshold(),
                probes@,
                now,
            ),
    {
        let mut i: usize = 0;
        while i < probes.len()
            invariant
                i <= probes@.len(),
                self.node_manager.well_formed(),
                self.rpc_manager == old(self).rpc_manager,
                self.node_manager.threshold() == old(self).node_manager.threshold(),
                (self.node_manager.view(), self.node_manager.failures()) == apply_node_probes(
                    old(self).node_manager.view(),
                    old(self).node_manager.failures(),
                    old(self).node_manager.threshold(),
                    probes@.take(i as int),
                    now,
                ),
            decreases probes@.len() - i,
        {
            assert(probes@.take(i + 1).drop_last() =~= probes@.take(i as int));
            assert(probes@.take(i + 1).last() == probes@[i as int]);
            let probe = probes[i];
            self.node_manager.record_probe(&probe.node_id, probe.alive, now);
            i = i + 1;
        }
        assert(probes@.take(probes@.len() as int) =~= probes@);
    }

    /// Applies the provider probes taken at `now`, in order: each moves the
    /// provider's success rate and latency averages and stamps the time.
    pub fn check_rpc_health(&mut self, probes: &Vec<ProviderProbe>, now: u64)
        requires
            old(self).rpc_manager.well_formed(),
        ensures
            final(self).rpc_manager.well_formed(),
            final(self).node_manager == old(self).node_manager,
            final(self).rpc_manager.view() == apply_provider_probes(old(self).rpc_manager.view(), probes@, now),
    {
        let mut i: usize = 0;
        while i < probes.len()
            invariant
                i <= probes@.len(),
                self.rpc_manager.well_formed(),
                self.node_manager == old(self).node_manager,
                self.rpc_manager.view() == apply_provider_probes(old(self).rpc_manager.view(), probes@.take(i as int), now),
            decreases probes@.len() - i,
        {
            assert(probes@.take(i + 1).drop_last() =~= probes@.take(i as int));
            assert(probes@.take(i + 1).last() == probes@[i as int]);
            let probe = probes[i];
            self.rpc_manager.record_probe(probe.provider_id, probe.success, probe.latency, now);
            i = i + 1;
        }
        assert(probes@.take(probes@.len() as int) =~= probes@);
    }
}

} // verus!
