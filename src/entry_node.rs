//! The entry node: authenticates clients, keeps one circuit per client until
//! it expires, onion-wraps outbound requests, and correlates and unwraps the
//! responses that come back.
use vstd::prelude::*;
use crate::circuit::{ROUTING_HOPS, RouterImpl, LATEST_BUILD_TIME, circuit_outcome, missing_role, built_from};
use crate::correlation::{
    CorrelationTable, Delivery, delivery_outcome, ids_distinct, lemma_table_push, lemma_table_remove,
    lemma_table_value, pending_in, table_map,
};
use crate::crypto::MAX_PLAINTEXT_LEN;
use crate::onion::{LAYER_OVERHEAD, decode_layer, encode_layer, is_onion, peel_layers, wrap_layers};
use crate::topology::NodeRegistry;
use crate::types::{NodeView, Circuit, CircuitId, CircuitView, DarkNodeError, NodeId, Request, Response, User, key_bytes};
use crate::crypto::fresh_id;

verus! {

/// Seconds the entry node waits for the response to a request.
pub const REQUEST_TIMEOUT_SECS: u64 = 30;

/// The cache as plain values.
pub open spec fn cache_view(s: Seq<(String, Circuit)>) -> Seq<(Seq<char>, CircuitView)> {
    s.map_values(|e: (String, Circuit)| (e.0@, e.1@))
}

/// Circuit ids are pairwise distinct across the cache.
pub open spec fn circuit_ids_distinct(s: Seq<(Seq<char>, CircuitView)>) -> bool {
    forall|i: int, j: int| 0 <= i < s.len() && 0 <= j < s.len() && i != j ==> s[i].1.id != s[j].1.id
}

/// The outcome of authenticating a client from the user that its API key
/// names, if any.
pub open spec fn auth_outcome(user: Option<User>) -> Option<DarkNodeError> {
    match user {
        None => Some(DarkNodeError::InvalidApiKey),
        Some(u) => if u.active {
            None
        } else {
            Some(DarkNodeError::SubscriptionInactive)
        },
    }
}

/// The cache holds, for the client, a circuit that is still valid at `now`.
pub open spec fn has_valid(cache: Map<Seq<char>, CircuitView>, client: Seq<char>, now: u64) -> bool {
    cache.contains_key(client) && cache[client].expires_at > now
}

/// The entry node service.
pub struct EntryNodeService {
    node_id: NodeId,
    router: RouterImpl,
    circuits: Vec<(String, Circuit)>,
    pending: CorrelationTable,
}

impl EntryNodeService {
    /// The cached circuit of each client, by API key.
    pub closed spec fn circuits(&self) -> Map<Seq<char>, CircuitView> {
        table_map(cache_view(self.circuits@))
    }

    /// The nodes that circuits are built from.
    pub closed spec fn nodes(&self) -> Seq<NodeView> {
        self.router.node_manager.view()
    }

    /// The requests awaiting a response, with their deadlines.
    pub closed spec fn pending(&self) -> Map<u128, u64> {
        self.pending.view()
    }

    pub closed spec fn well_formed(&self) -> bool {
        &&& ids_distinct(cache_view(self.circuits@))
        &&& circuit_ids_distinct(cache_view(self.circuits@))
        &&& forall|i: int|
            0 <= i < self.circuits@.len() ==> (#[trigger] self.circuits@[i]).1.well_formed()
                && self.circuits@[i].1@.routing_nodes.len() == ROUTING_HOPS
        &&& self.pending.well_formed()
        &&& self.router.node_manager.well_formed()
    }

    pub fn new(node_id: NodeId, router: RouterImpl) -> (r: EntryNodeService)
        requires
            router.node_manager.well_formed(),
        ensures
            r.well_formed(),
            r.circuits() == Map::<Seq<char>, CircuitView>::empty(),
            r.pending() == Map::<u128, u64>::empty(),
            r.nodes() == router.node_manager.view(),
            r.id() == node_id,
    {
        let r = EntryNodeService { node_id, router, circuits: Vec::new(), pending: CorrelationTable::new() };
        assert(cache_view(r.circuits@) =~= Seq::<(Seq<char>, CircuitView)>::empty());
        assert(r.circuits() =~= Map::<Seq<char>, CircuitView>::empty());
        r
    }

    /// This node's id.
    pub closed spec fn id(&self) -> NodeId {
        self.node_id
    }

    /// This node's id.
    pub fn node_id(&self) -> (r: NodeId)
        ensures
            r == self.id(),
    {
        self.node_id
    }

    /// Replaces the nodes that circuits are built from, as the coordinator
    /// reports them.
    pub fn update_nodes(&mut self, nodes: NodeRegistry)
        requires
            old(self).well_formed(),
            nodes.well_formed(),
        ensures
            final(self).well_formed(),
            final(self).nodes() == nodes.view(),
            final(self).circuits() == old(self).circuits(),
            final(self).pending() == old(self).pending(),
    {
        self.router.node_manager = nodes;
    }

    fn find_client(&self, client: &String) -> (r: Option<usize>)
        requires
            self.well_formed(),
        ensures
            r is Some <==> self.circuits().contains_key(client@),
            r matches Some(i) ==> i < self.circuits@.len() && self.circuits@[i as int].0@ == client@
                && self.circuits()[client@] == self.circuits@[i as int].1@,
    {
        let ghost s = cache_view(self.circuits@);
        let mut i: usize = 0;
        while i < self.circuits.len()
            invariant
                self.well_formed(),
                s == cache_view(self.circuits@),
                i <= self.circuits@.len(),
                forall|k: int| 0 <= k < i ==> (#[trigger] self.circuits@[k]).0@ != client@,
            decreases self.circuits@.len() - i,
        {
            if self.circuits[i].0 == *client {
                proof {
                    assert(s[i as int].0 == client@);
                    lemma_table_value(s, i as int);
                }
                return Some(i);
            }
            i = i + 1;
        }
        proof {
            if pending_in(s, client@) {
                let k = choose|k: int| 0 <= k < s.len() && s[k].0 == client@;
                assert(self.circuits@[k].0@ == s[k].0);
            }
        }
        None
    }

    /// The position of the cached circuit with the id.
    fn find_circuit(&self, id: CircuitId) -> (r: Option<usize>)
        requires
            self.well_formed(),
        ensures
            r is None <==> forall|k: int| 0 <= k < self.circuits@.len() ==> (#[trigger] self.circuits@[k]).1.id != id,
            r matches Some(i) ==> i < self.circuits@.len() && self.circuits@[i as int].1.id == id,
    {
        let mut i: usize = 0;
        while i < self.circuits.len()
            invariant
                i <= self.circuits@.len(),
                forall|k: int| 0 <= k < i ==> (#[trigger] self.circuits@[k]).1.id != id,
            decreases self.circuits@.len() - i,
        {
            if self.circuits[i].1.id.0 == id.0 {
                return Some(i);
            }
            i = i + 1;
        }
        None
    }

    /// The client's cached circuit while it is valid at `now`; else a new
    /// circuit, which replaces it in the cache. Where building fails the
    /// cache is left as it was.
    #[verifier::rlimit(40)]
    pub fn get_or_create_circuit(&mut self, api_key: &String, now: u64) -> (r: Result<Circuit, DarkNodeError>)
        requires
            old(self).well_formed(),
            now <= LATEST_BUILD_TIME,
        ensures
            final(self).well_formed(),
            final(self).pending() == old(self).pending(),
            final(self).nodes() == old(self).nodes(),
            has_valid(old(self).circuits(), api_key@, now) ==> r is Ok && r->Ok_0@ == old(self).circuits()[api_key@]
                && final(self).circuits() == old(self).circuits(),
            !has_valid(old(self).circuits(), api_key@, now) ==> {
                &&& missing_role(old(self).nodes()) matches Some(role) ==> r
                    == Err::<Circuit, DarkNodeError>(DarkNodeError::NoAvailableNodes(role))
                &&& missing_role(old(self).nodes()) is None ==> (r is Ok || r
                    == Err::<Circuit, DarkNodeError>(DarkNodeError::RandomnessUnavailable))
                &&& r matches Ok(c) ==> built_from(old(self).nodes(), now, c)
                    && final(self).circuits() == old(self).circuits().insert(api_key@, c@)
                &&& r is Err ==> final(self).circuits() == old(self).circuits()
            },
            r matches Ok(c) ==> c@.expires_at > now && c.well_formed() && c@.routing_nodes.len() == ROUTING_HOPS,
    {
        let found = self.find_client(api_key);
        if let Some(i) = found {
            if self.circuits[i].1.expires_at > now {
                return Ok(self.circuits[i].1.duplicate());
            }
        }
        let c = match self.router.create_circuit(now) {
            Ok(c) => c,
            Err(e) => {
                return Err(e);
            },
        };
        assert(circuit_outcome(self.router.node_manager.view(), now, Ok::<Circuit, DarkNodeError>(c)));
        if self.find_circuit(c.id).is_some() {
            return Err(DarkNodeError::RandomnessUnavailable);
        }
        if let Some(i) = found {
            proof {
                lemma_table_remove(cache_view(self.circuits@), i as int);
                assert(cache_view(self.circuits@).remove(i as int) =~= cache_view(self.circuits@.remove(i as int)));
            }
            let ghost before = self.circuits@;
            self.circuits.remove(i);
            proof {
                assert(circuit_ids_distinct(cache_view(self.circuits@))) by {
                    assert forall|a: int, b: int|
                        0 <= a < self.circuits@.len() && 0 <= b < self.circuits@.len() && a != b implies cache_view(
                        self.circuits@,
                    )[a].1.id != cache_view(self.circuits@)[b].1.id by {
                        let a2 = if a < i { a } else { a + 1 };
                        let b2 = if b < i { b } else { b + 1 };
                        assert(self.circuits@[a] == before[a2] && self.circuits@[b] == before[b2]);
                    }
                }
                assert forall|k: int| 0 <= k < self.circuits@.len() implies (#[trigger] self.circuits@[k]).1.well_formed()
                    && self.circuits@[k].1@.routing_nodes.len() == ROUTING_HOPS by {
                    let k2 = if k < i { k } else { k + 1 };
                    assert(self.circuits@[k] == before[k2]);
                }
            }
        }
        assert(!self.circuits().contains_key(api_key@));
        let ghost before = self.circuits@;
        let ghost cv = c@;
        proof {
            lemma_table_push(cache_view(self.circuits@), api_key@, cv);
        }
        self.circuits.push((api_key.clone(), c.duplicate()));
        proof {
            assert(cache_view(self.circuits@) =~= cache_view(before).push((api_key@, cv)));
            assert forall|a: int, b: int|
                0 <= a < self.circuits@.len() && 0 <= b < self.circuits@.len() && a != b implies cache_view(
                self.circuits@,
            )[a].1.id != cache_view(self.circuits@)[b].1.id by {
                if a < before.len() && b < before.len() {
                    assert(self.circuits@[a] == before[a] && self.circuits@[b] == before[b]);
                } else if a < before.len() {
                    assert(self.circuits@[a] == before[a]);
                } else {
                    assert(self.circuits@[b] == before[b]);
                }
            }
            assert forall|k: int| 0 <= k < self.circuits@.len() implies (#[trigger] self.circuits@[k]).1.well_formed()
                    && self.circuits@[k].1@.routing_nodes.len() == ROUTING_HOPS by {
                if k < before.len() {
                    assert(self.circuits@[k] == before[k]);
                }
            }
        }
        Ok(c)
    }
}

impl EntryNodeService {
    /// Handles a client request at `now`: authenticates the client from the
    /// user that its API key names, takes its circuit (cached or new),
    /// onion-wraps the sanitized request for the circuit's routing and exit
    /// hops, and starts awaiting the response under a fresh request id.
    /// The returned request goes to the circuit's first routing node.
    #[verifier::rlimit(60)]
    pub fn handle_request(&mut self, user: &Option<User>, api_key: &String, request: &Vec<u8>, now: u64) -> (r: Result<
        Request,
        DarkNodeError,
    >)
        requires
            old(self).well_formed(),
            now <= LATEST_BUILD_TIME,
        ensures
            final(self).well_formed(),
            final(self).nodes() == old(self).nodes(),
            auth_outcome(*user) matches Some(e) ==> r == Err::<Request, DarkNodeError>(e) && final(self).circuits()
                == old(self).circuits() && final(self).pending() == old(self).pending(),
            auth_outcome(*user) is None && !has_valid(old(self).circuits(), api_key@, now) ==> (missing_role(
                old(self).nodes(),
            ) matches Some(role) ==> r == Err::<Request, DarkNodeError>(DarkNodeError::NoAvailableNodes(role))),
            r matches Ok(req) ==> {
                let c = final(self).circuits()[api_key@];
                &&& auth_outcome(*user) is None
                &&& final(self).circuits().contains_key(api_key@)
                &&& c.expires_at > now
                &&& req.circuit_id.0 == c.id
                &&& is_onion(c.layer_keys(), req.payload.nonce@ + req.payload.data@, request@)
                &&& !old(self).pending().contains_key(req.id)
                &&& final(self).pending() == old(self).pending().insert(req.id, (now + REQUEST_TIMEOUT_SECS) as u64)
                &&& req.created_at == now
            },
            r matches Err(e) ==> final(self).pending() == old(self).pending() && (e is NoAvailableNodes || e
                == DarkNodeError::RandomnessUnavailable || e == DarkNodeError::PayloadTooLarge || auth_outcome(*user)
                == Some(e)),
            r matches Err(DarkNodeError::NoAvailableNodes(role)) ==> !has_valid(old(self).circuits(), api_key@, now)
                && missing_role(old(self).nodes()) == Some(role),
            r matches Err(DarkNodeError::PayloadTooLarge) ==> request@.len() + LAYER_OVERHEAD * 3
                > MAX_PLAINTEXT_LEN + LAYER_OVERHEAD,
    {
        match user {
            None => {
                return Err(DarkNodeError::InvalidApiKey);
            },
            Some(u) => {
                if !u.active {
                    return Err(DarkNodeError::SubscriptionInactive);
                }
            },
        }
        let circuit = self.get_or_create_circuit(api_key, now)?;
        let keys = circuit.layer_keys();
        assert(key_bytes(keys@).len() == keys@.len());
        assert(keys@.len() == 3);
        let outer = match wrap_layers(&keys, request) {
            Ok(o) => o,
            Err(e) => {
                return Err(e);
            },
        };
        let payload = match decode_layer(&outer) {
            Ok(p) => p,
            Err(e) => {
                return Err(e);
            },
        };
        assert(payload.nonce@ + payload.data@ =~= outer@);
        let id = match fresh_id() {
            Some(id) => id,
            None => {
                return Err(DarkNodeError::RandomnessUnavailable);
            },
        };
        if !self.pending.register(id, now + REQUEST_TIMEOUT_SECS) {
            return Err(DarkNodeError::RandomnessUnavailable);
        }
        Ok(Request { id, circuit_id: circuit.id, payload, created_at: now })
    }

    /// Handles the response that came back for a request at `now`: the
    /// request stops being awaited; where it was awaited in time, the
    /// response's layers are removed with the keys of the circuit it names.
    #[verifier::rlimit(60)]
    pub fn complete_request(&mut self, response: &Response, now: u64) -> (r: Result<Vec<u8>, DarkNodeError>)
        requires
            old(self).well_formed(),
        ensures
            final(self).well_formed(),
            final(self).nodes() == old(self).nodes(),
            final(self).circuits() == old(self).circuits(),
            final(self).pending() == old(self).pending().remove(response.request_id),
            delivery_outcome(old(self).pending(), response.request_id, now) == Delivery::Discarded ==> r == Err::<
                Vec<u8>,
                DarkNodeError,
            >(DarkNodeError::UnknownRequest),
            delivery_outcome(old(self).pending(), response.request_id, now) == Delivery::Expired ==> r == Err::<
                Vec<u8>,
                DarkNodeError,
            >(DarkNodeError::RequestTimeout),
            delivery_outcome(old(self).pending(), response.request_id, now) == Delivery::Delivered ==> {
                let cache = old(self).circuits();
                let bytes = response.payload.nonce@ + response.payload.data@;
                &&& (forall|k: Seq<char>| #[trigger] cache.contains_key(k) ==> cache[k].id != response.circuit_id.0)
                    ==> r == Err::<Vec<u8>, DarkNodeError>(DarkNodeError::UnknownCircuit)
                &&& r matches Ok(p) ==> exists|k: Seq<char>|
                    #[trigger] cache.contains_key(k) && cache[k].id == response.circuit_id.0 && is_onion(
                        cache[k].layer_keys(),
                        bytes,
                        p@,
                    )
                &&& forall|k: Seq<char>, p: Seq<u8>|
                    #[trigger] cache.contains_key(k) && cache[k].id == response.circuit_id.0 && bytes.len()
                        <= MAX_PLAINTEXT_LEN && #[trigger] is_onion(cache[k].layer_keys(), bytes, p) ==> r is Ok
                        && r->Ok_0@ == p
                &&& r matches Err(e) ==> e == DarkNodeError::UnknownCircuit || e == DarkNodeError::LayerDecryptFailure
            },
    {
        let ghost cache = self.circuits();
        let ghost s = cache_view(self.circuits@);
        match self.pending.deliver(response.request_id, now) {
            Delivery::Discarded => {
                return Err(DarkNodeError::UnknownRequest);
            },
            Delivery::Expired => {
                return Err(DarkNodeError::RequestTimeout);
            },
            Delivery::Delivered => {},
        }
        let i = match self.find_circuit(response.circuit_id) {
            Some(i) => i,
            None => {
                proof {
                    assert forall|k: Seq<char>| #[trigger] cache.contains_key(k) implies cache[k].id
                        != response.circuit_id.0 by {
                        let j = choose|j: int| 0 <= j < s.len() && s[j].0 == k;
                        lemma_table_value(s, j);
                        assert(self.circuits@[j].1.id != response.circuit_id);
                    }
                }
                return Err(DarkNodeError::UnknownCircuit);
            },
        };
        let keys = self.circuits[i].1.layer_keys();
        let bytes = encode_layer(&response.payload);
        let r = peel_layers(&keys, &bytes);
        proof {
            lemma_table_value(s, i as int);
            let ki = s[i as int].0;
            assert(cache.contains_key(ki) && cache[ki] == self.circuits@[i as int].1@);
            assert forall|k: Seq<char>, p: Seq<u8>|
                #[trigger] cache.contains_key(k) && cache[k].id == response.circuit_id.0 && bytes@.len()
                    <= MAX_PLAINTEXT_LEN && #[trigger] is_onion(cache[k].layer_keys(), bytes@, p) implies r is Ok
                    && r->Ok_0@ == p by {
                let j = choose|j: int| 0 <= j < s.len() && s[j].0 == k;
                lemma_table_value(s, j);
                assert(j == i as int);
            }
        }
        r
    }

    /// Stops awaiting every request whose deadline is `now` or earlier and
    /// returns their ids, so that their callers can be told they timed out.
    pub fn expire_requests(&mut self, now: u64) -> (expired: Vec<u128>)
        requires
            old(self).well_formed(),
        ensures
            final(self).well_formed(),
            final(self).nodes() == old(self).nodes(),
            final(self).circuits() == old(self).circuits(),
            forall|id: u128|
                #[trigger] final(self).pending().contains_key(id) <==> old(self).pending().contains_key(id)
                    && old(self).pending()[id] > now,
            forall|id: u128|
                #[trigger] expired@.contains(id) <==> old(self).pending().contains_key(id) && old(self).pending()[id]
                    <= now,
    {
        self.pending.sweep(now)
    }
}

} // verus!
