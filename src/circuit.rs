//! Circuit construction: one entry node, a fixed number of routing nodes and
//! one exit node chosen from the online nodes, and one fresh key per hop.
use vstd::prelude::*;
use crate::crypto::{Crypto, CryptoImpl, KEY_LEN, fresh_id};
use crate::topology::{NodeRegistry, available, lemma_available};
use crate::types::{
    Circuit, CircuitId, CryptoKey, DarkNodeError, Node, NodeId, NodeRole, NodeView, key_bytes, all_distinct,
};

verus! {

/// Routing nodes in every circuit.
pub const ROUTING_HOPS: usize = 2;

/// Seconds a circuit stays usable after it is built.
pub const CIRCUIT_TTL_SECS: u64 = 3600;

/// Latest time at which a circuit can be built: its expiry must fit in 64 bits.
pub const LATEST_BUILD_TIME: u64 = 18446744073709548015;

/// Some node of the pool lies outside the region.
pub open spec fn has_other_region(pool: Seq<NodeView>, region: Seq<char>) -> bool {
    exists|q: NodeView| pool.contains(q) && q.region != region
}

/// A hop that follows a node of region `prev` leaves that region whenever
/// the pool allows it.
#[verifier::opaque]
pub open spec fn spread(pool: Seq<NodeView>, prev: Seq<char>, chosen: NodeView) -> bool {
    has_other_region(pool, prev) ==> chosen.region != prev
}

/// The path chosen for a circuit from the registered nodes: online nodes of
/// the right roles, with routing hops that avoid following a node of their
/// own region whenever an alternative exists.
#[verifier::opaque]
pub open spec fn valid_path(nodes: Seq<NodeView>, entry: NodeView, routing: Seq<NodeView>, exit: NodeView) -> bool {
    &&& available(nodes, NodeRole::Entry).contains(entry)
    &&& available(nodes, NodeRole::Exit).contains(exit)
    &&& routing.len() == ROUTING_HOPS
    &&& forall|i: int| 0 <= i < routing.len() ==> available(nodes, NodeRole::Routing).contains(#[trigger] routing[i])
    &&& forall|i: int|
        0 <= i < routing.len() ==> spread(
            available(nodes, NodeRole::Routing),
            if i == 0 { entry.region } else { routing[i - 1].region },
            #[trigger] routing[i],
        )
}

/// The circuit runs along the path.
pub open spec fn follows(c: Circuit, entry: NodeView, routing: Seq<NodeView>, exit: NodeView) -> bool {
    &&& c@.entry_node == entry.id
    &&& c@.exit_node == exit.id
    &&& c@.routing_nodes == routing.map_values(|n: NodeView| n.id)
}

/// Picks a hop from a non-empty pool: the first node outside `prev`'s
/// region, or, where every node shares it, the node at `fallback` (wrapping).
fn pick_hop(pool: &Vec<Node>, prev: &String, fallback: usize) -> (r: usize)
    requires
        pool@.len() > 0,
    ensures
        r < pool@.len(),
        spread(pool@.map_values(|n: Node| n@), prev@, pool@[r as int]@),
{
    let ghost pv = pool@.map_values(|n: Node| n@);
    let mut j: usize = 0;
    while j < pool.len()
        invariant
            j <= pool@.len(),
            pv == pool@.map_values(|n: Node| n@),
            forall|k: int| 0 <= k < j ==> (#[trigger] pool@[k]).region@ == prev@,
        decreases pool@.len() - j,
    {
        if pool[j].region != *prev {
            proof {
                reveal(spread);
            }
            return j;
        }
        j = j + 1;
    }
    proof {
        reveal(spread);
        assert forall|q: NodeView| pv.contains(q) implies q.region == prev@ by {
            let k = choose|k: int| 0 <= k < pv.len() && pv[k] == q;
            assert(pool@[k].region@ == prev@);
        }
    }
    fallback % pool.len()
}

/// Builds circuits from the registered nodes.
pub struct RouterImpl {
    pub node_manager: NodeRegistry,
    pub crypto: CryptoImpl,
}

impl RouterImpl {
    pub fn new(node_manager: NodeRegistry, crypto: CryptoImpl) -> (r: RouterImpl)
        ensures
            r.node_manager == node_manager,
    {
        RouterImpl { node_manager, crypto }
    }

    /// Builds a circuit at time `now`. It fails with `NoAvailableNodes` for
    /// the first of the roles entry, routing, exit that has no online node;
    /// where every role has one it fails only where the random source does.
    #[verifier::rlimit(40)]
    pub fn create_circuit(&self, now: u64) -> (r: Result<Circuit, DarkNodeError>)
        requires
            self.node_manager.well_formed(),
            now <= LATEST_BUILD_TIME,
        ensures
            circuit_outcome(self.node_manager.view(), now, r),
    {
        let ghost nodes = self.node_manager.view();
        proof {
            lemma_available(nodes, NodeRole::Entry);
            lemma_available(nodes, NodeRole::Routing);
            lemma_available(nodes, NodeRole::Exit);
        }
        let entries = self.node_manager.get_available_nodes(NodeRole::Entry);
        if entries.len() == 0 {
            return Err(DarkNodeError::NoAvailableNodes(NodeRole::Entry));
        }
        let routing_pool = self.node_manager.get_available_nodes(NodeRole::Routing);
        if routing_pool.len() == 0 {
            return Err(DarkNodeError::NoAvailableNodes(NodeRole::Routing));
        }
        let exits = self.node_manager.get_available_nodes(NodeRole::Exit);
        if exits.len() == 0 {
            return Err(DarkNodeError::NoAvailableNodes(NodeRole::Exit));
        }
        let entry = &entries[0];
        assert(entries@.map_values(|n: Node| n@)[0] == entry@);
        let (routing, Ghost(chosen)) = select_routing(&routing_pool, &entry.region);
        let exit = &exits[0];
        assert(exits@.map_values(|n: Node| n@)[0] == exit@);
        let keys = match generate_hop_keys(&self.crypto, ROUTING_HOPS + 2) {
            Ok(k) => k,
            Err(e) => {
                return Err(e);
            },
        };
        let id = match fresh_id() {
            Some(id) => id,
            None => {
                return Err(DarkNodeError::RandomnessUnavailable);
            },
        };
        let c = Circuit {
            id: CircuitId(id),
            entry_node: entry.id,
            routing_nodes: routing,
            exit_node: exit.id,
            symmetric_keys: keys,
            created_at: now,
            expires_at: now + CIRCUIT_TTL_SECS,
        };
        assert(valid_path(nodes, entry@, chosen, exit@)) by {
            reveal(valid_path);
        }
        assert(follows(c, entry@, chosen, exit@));
        assert(built_from(nodes, now, c));
        Ok(c)
    }
}

/// The first of the roles entry, routing, exit with no online node.
pub open spec fn missing_role(nodes: Seq<NodeView>) -> Option<NodeRole> {
    if available(nodes, NodeRole::Entry).len() == 0 {
        Some(NodeRole::Entry)
    } else if available(nodes, NodeRole::Routing).len() == 0 {
        Some(NodeRole::Routing)
    } else if available(nodes, NodeRole::Exit).len() == 0 {
        Some(NodeRole::Exit)
    } else {
        None
    }
}

/// A circuit built at `now` from the registered nodes.
pub open spec fn built_from(nodes: Seq<NodeView>, now: u64, c: Circuit) -> bool {
    &&& c.well_formed()
    &&& c@.routing_nodes.len() == ROUTING_HOPS
    &&& c@.created_at == now
    &&& c@.expires_at == now + CIRCUIT_TTL_SECS
    &&& forall|i: int| 0 <= i < c@.keys.len() ==> (#[trigger] c@.keys[i]).len() == KEY_LEN
    &&& exists|e: NodeView, rs: Seq<NodeView>, x: NodeView| valid_path(nodes, e, rs, x) && follows(c, e, rs, x)
}

/// What `create_circuit` may return on the registered nodes at `now`.
pub open spec fn circuit_outcome(nodes: Seq<NodeView>, now: u64, r: Result<Circuit, DarkNodeError>) -> bool {
    &&& missing_role(nodes) matches Some(role) ==> r == Err::<Circuit, DarkNodeError>(DarkNodeError::NoAvailableNodes(role))
    &&& missing_role(nodes) is None ==> (r is Ok || r == Err::<Circuit, DarkNodeError>(
        DarkNodeError::RandomnessUnavailable,
    ))
    &&& r matches Ok(c) ==> built_from(nodes, now, c)
}

/// Chooses the routing hops from a non-empty pool; the first follows a node
/// of region `entry_region`.
#[verifier::rlimit(60)]
fn select_routing(pool: &Vec<Node>, entry_region: &String) -> (r: (Vec<NodeId>, Ghost<Seq<NodeView>>))
    requires
        pool@.len() > 0,
    ensures
        r.1@.len() == ROUTING_HOPS,
        r.0@.map_values(|n: NodeId| n.0) == r.1@.map_values(|n: NodeView| n.id),
        forall|i: int| 0 <= i < ROUTING_HOPS ==> pool@.map_values(|n: Node| n@).contains(#[trigger] r.1@[i]),
        forall|i: int|
            0 <= i < ROUTING_HOPS ==> spread(
                pool@.map_values(|n: Node| n@),
                if i == 0 { entry_region@ } else { r.1@[i - 1].region },
                #[trigger] r.1@[i],
            ),
{
    let ghost pv = pool@.map_values(|n: Node| n@);
    let mut routing: Vec<NodeId> = Vec::new();
    let ghost mut chosen: Seq<NodeView> = Seq::empty();
    let mut prev: String = entry_region.clone();
    let mut h: usize = 0;
    while h < ROUTING_HOPS
        invariant
            h <= ROUTING_HOPS,
            pool@.len() > 0,
            pv == pool@.map_values(|n: Node| n@),
            chosen.len() == h,
            routing@.len() == h,
            forall|i: int| 0 <= i < h ==> (#[trigger] routing@[i]).0 == chosen[i].id,
            prev@ == if h == 0 { entry_region@ } else { chosen[h - 1].region },
            forall|i: int| 0 <= i < h ==> pv.contains(#[trigger] chosen[i]),
            forall|i: int|
                0 <= i < h ==> spread(pv, if i == 0 { entry_region@ } else { chosen[i - 1].region }, #[trigger] chosen[i]),
        decreases ROUTING_HOPS - h,
    {
        let k = pick_hop(pool, &prev, h);
        let node = &pool[k];
        assert(pv[k as int] == node@);
        proof {
            let old_chosen = chosen;
            chosen = old_chosen.push(node@);
            assert forall|i: int| 0 <= i < h + 1 implies spread(
                pv,
                if i == 0 { entry_region@ } else { chosen[i - 1].region },
                #[trigger] chosen[i],
            ) by {
                if i < h {
                    assert(chosen[i] == old_chosen[i]);
                    if i > 0 {
                        assert(chosen[i - 1] == old_chosen[i - 1]);
                    }
                }
            }
            assert forall|i: int| 0 <= i < h + 1 implies pv.contains(#[trigger] chosen[i]) by {
                if i < h {
                    assert(chosen[i] == old_chosen[i]);
                }
            }
        }
        routing.push(node.id);
        prev = node.region.clone();
        h = h + 1;
    }
    assert(routing@.map_values(|n: NodeId| n.0) =~= chosen.map_values(|n: NodeView| n.id));
    (routing, Ghost(chosen))
}

/// `count` fresh public keys, pairwise distinct; where a fresh key repeats
/// an earlier one the random source is deemed broken.
fn generate_hop_keys(crypto: &CryptoImpl, count: usize) -> (r: Result<Vec<CryptoKey>, DarkNodeError>)
    ensures
        r matches Ok(keys) ==> keys@.len() == count && all_distinct(key_bytes(keys@)) && forall|i: int|
            0 <= i < keys@.len() ==> (#[trigger] keys@[i])@.len() == KEY_LEN,
        r matches Err(e) ==> e == DarkNodeError::RandomnessUnavailable,
{
    let mut keys: Vec<CryptoKey> = Vec::new();
    while keys.len() < count
        invariant
            keys@.len() <= count,
            all_distinct(key_bytes(keys@)),
            forall|i: int| 0 <= i < keys@.len() ==> (#[trigger] keys@[i])@.len() == KEY_LEN,
        decreases count - keys@.len(),
    {
        let (public, _secret) = crypto.generate_keypair()?;
        let mut j: usize = 0;
        while j < keys.len()
            invariant
                j <= keys@.len(),
                forall|k: int| 0 <= k < j ==> (#[trigger] keys@[k])@ != public@,
            decreases keys@.len() - j,
        {
            if bytes_equal(&keys[j].0, &public.0) {
                return Err(DarkNodeError::RandomnessUnavailable);
            }
            j = j + 1;
        }
        let ghost before = keys@;
        keys.push(public);
        proof {
            assert forall|a: int, b: int|
                0 <= a < keys@.len() && 0 <= b < keys@.len() && a != b implies key_bytes(keys@)[a]
                    != key_bytes(keys@)[b] by {
                if a < before.len() && b < before.len() {
                    assert(key_bytes(before)[a] != key_bytes(before)[b]);
                }
            }
        }
    }
    Ok(keys)
}

/// Whether two byte strings are equal.
pub fn bytes_equal(a: &Vec<u8>, b: &Vec<u8>) -> (r: bool)
    ensures
        r == (a@ == b@),
{
    if a.len() != b.len() {
        return false;
    }
    let mut i: usize = 0;
    while i < a.len()
        invariant
            a@.len() == b@.len(),
            i <= a@.len(),
            forall|k: int| 0 <= k < i ==> a@[k] == b@[k],
        decreases a@.len() - i,
    {
        if a[i] != b[i] {
            return false;
        }
        i = i + 1;
    }
    assert(a@ =~= b@);
    true
}

} // verus!
