//! The hop forwarder. Forward, a hop peels exactly one layer with its own
//! key and passes the rest on; backward, it adds one layer with that key.
use vstd::prelude::*;
use crate::correlation::{ids_distinct, lemma_table_push, lemma_table_remove, lemma_table_value, pending_in, table_map};
use crate::crypto::{MAX_PLAINTEXT_LEN, NONCE_LEN};
use crate::onion::{
    add_layer, decode_layer, encode_layer, layer_of, opens_to, peel_layer,
};
use crate::types::{CircuitId, CryptoKey, DarkNodeError, NodeId, Request, Response};

verus! {

/// The key table as plain values.
pub open spec fn keys_view(s: Seq<(u128, CryptoKey)>) -> Seq<(u128, Seq<u8>)> {
    s.map_values(|e: (u128, CryptoKey)| (e.0, e.1@))
}

/// The wire form of an encrypted payload.
pub open spec fn wire(nonce: Seq<u8>, data: Seq<u8>) -> Seq<u8> {
    nonce + data
}

/// The key that this node holds for each circuit it serves as a hop of.
pub struct HopKeys {
    entries: Vec<(u128, CryptoKey)>,
}

impl HopKeys {
    /// The key of each circuit, by circuit id.
    pub closed spec fn view(&self) -> Map<u128, Seq<u8>> {
        table_map(keys_view(self.entries@))
    }

    pub closed spec fn well_formed(&self) -> bool {
        ids_distinct(keys_view(self.entries@))
    }

    /// An empty table.
    pub fn new() -> (r: HopKeys)
        ensures
            r.well_formed(),
            r.view() == Map::<u128, Seq<u8>>::empty(),
    {
        let r = HopKeys { entries: Vec::new() };
        assert(keys_view(r.entries@) =~= Seq::<(u128, Seq<u8>)>::empty());
        assert(r.view() =~= Map::<u128, Seq<u8>>::empty());
        r
    }

    fn position(&self, circuit_id: CircuitId) -> (r: Option<usize>)
        requires
            self.well_formed(),
        ensures
            r is Some <==> self.view().contains_key(circuit_id.0),
            r matches Some(i) ==> i < self.entries@.len() && self.entries@[i as int].0 == circuit_id.0
                && self.view()[circuit_id.0] == self.entries@[i as int].1@,
    {
        let ghost s = keys_view(self.entries@);
        let mut i: usize = 0;
        while i < self.entries.len()
            invariant
                self.well_formed(),
                s == keys_view(self.entries@),
                i <= self.entries@.len(),
                forall|k: int| 0 <= k < i ==> (#[trigger] self.entries@[k]).0 != circuit_id.0,
            decreases self.entries@.len() - i,
        {
            if self.entries[i].0 == circuit_id.0 {
                proof {
                    assert(s[i as int].0 == circuit_id.0);
                    lemma_table_value(s, i as int);
                }
                return Some(i);
            }
            i = i + 1;
        }
        proof {
            if pending_in(s, circuit_id.0) {
                let k = choose|k: int| 0 <= k < s.len() && s[k].0 == circuit_id.0;
                assert(self.entries@[k].0 == s[k].0);
            }
        }
        None
    }

    /// Installs the key handed to this hop for the circuit, replacing any
    /// earlier one.
    pub fn install(&mut self, circuit_id: CircuitId, key: CryptoKey)
        requires
            old(self).well_formed(),
        ensures
            final(self).well_formed(),
            final(self).view() == old(self).view().insert(circuit_id.0, key@),
    {
        let ghost kv = key@;
        if let Some(i) = self.position(circuit_id) {
            proof {
                lemma_table_remove(keys_view(self.entries@), i as int);
                assert(keys_view(self.entries@).remove(i as int) =~= keys_view(self.entries@.remove(i as int)));
            }
            self.entries.remove(i);
        }
        proof {
            assert(!pending_in(keys_view(self.entries@), circuit_id.0));
            lemma_table_push(keys_view(self.entries@), circuit_id.0, kv);
        }
        let ghost before = self.entries@;
        self.entries.push((circuit_id.0, key));
        assert(keys_view(self.entries@) =~= keys_view(before).push((circuit_id.0, kv)));
        assert(old(self).view().insert(circuit_id.0, kv) =~= old(self).view().remove(circuit_id.0).insert(circuit_id.0, kv));
    }

    /// The key for the circuit, if one is installed.
    pub fn get(&self, circuit_id: CircuitId) -> (r: Option<&CryptoKey>)
        requires
            self.well_formed(),
        ensures
            r is Some <==> self.view().contains_key(circuit_id.0),
            r matches Some(k) ==> k@ == self.view()[circuit_id.0],
    {
        match self.position(circuit_id) {
            Some(i) => Some(&self.entries[i].1),
            None => None,
        }
    }
}

/// A routing node: one hop of many circuits.
pub struct RoutingNodeService {
    pub node_id: NodeId,
    pub keys: HopKeys,
}

impl RoutingNodeService {
    pub fn new(node_id: NodeId) -> (r: RoutingNodeService)
        ensures
            r.keys.well_formed(),
            r.keys.view() == Map::<u128, Seq<u8>>::empty(),
            r.node_id == node_id,
    {
        RoutingNodeService { node_id, keys: HopKeys::new() }
    }

    /// Forward direction: removes this hop's layer from the request. The
    /// result carries the same ids and the layer for the next hop: exactly
    /// the bytes that this hop's layer was sealed around.
    pub fn handle_request(&self, request: &Request) -> (r: Result<Request, DarkNodeError>)
        requires
            self.keys.well_formed(),
        ensures
            !self.keys.view().contains_key(request.circuit_id.0) ==> r == Err::<Request, DarkNodeError>(
                DarkNodeError::UnknownCircuit,
            ),
            self.keys.view().contains_key(request.circuit_id.0) ==> {
                let key = self.keys.view()[request.circuit_id.0];
                let bytes = wire(request.payload.nonce@, request.payload.data@);
                &&& r matches Ok(next) ==> next.id == request.id && next.circuit_id == request.circuit_id
                    && next.created_at == request.created_at && opens_to(key, bytes, wire(next.payload.nonce@, next.payload.data@))
                &&& forall|inner: Seq<u8>|
                    bytes.len() <= MAX_PLAINTEXT_LEN && inner.len() >= NONCE_LEN && #[trigger] opens_to(key, bytes, inner)
                        ==> r is Ok && wire(r->Ok_0.payload.nonce@, r->Ok_0.payload.data@) == inner
                &&& r matches Err(e) ==> e == DarkNodeError::LayerDecryptFailure
            },
    {
        let key = match self.keys.get(request.circuit_id) {
            Some(k) => k,
            None => {
                return Err(DarkNodeError::UnknownCircuit);
            },
        };
        let bytes = encode_layer(&request.payload);
        let inner = peel_layer(&bytes, key)?;
        let payload = decode_layer(&inner)?;
        assert(wire(payload.nonce@, payload.data@) =~= inner@);
        Ok(Request { id: request.id, circuit_id: request.circuit_id, payload, created_at: request.created_at })
    }

    /// Backward direction: adds this hop's layer around the response, for
    /// the previous hop.
    pub fn handle_response(&self, response: &Response) -> (r: Result<Response, DarkNodeError>)
        requires
            self.keys.well_formed(),
        ensures
            !self.keys.view().contains_key(response.circuit_id.0) ==> r == Err::<Response, DarkNodeError>(
                DarkNodeError::UnknownCircuit,
            ),
            self.keys.view().contains_key(response.circuit_id.0) ==> {
                let key = self.keys.view()[response.circuit_id.0];
                let bytes = wire(response.payload.nonce@, response.payload.data@);
                &&& r matches Ok(prev) ==> prev.request_id == response.request_id && prev.circuit_id
                    == response.circuit_id && prev.created_at == response.created_at && wire(prev.payload.nonce@, prev.payload.data@)
                    == layer_of(key, prev.payload.nonce@, bytes) && prev.payload.nonce@.len() == NONCE_LEN
                &&& r matches Err(e) ==> (e == DarkNodeError::PayloadTooLarge <==> bytes.len() > MAX_PLAINTEXT_LEN)
                    && (e == DarkNodeError::PayloadTooLarge || e == DarkNodeError::RandomnessUnavailable)
            },
    {
        let key = match self.keys.get(response.circuit_id) {
            Some(k) => k,
            None => {
                return Err(DarkNodeError::UnknownCircuit);
            },
        };
        let bytes = encode_layer(&response.payload);
        let outer = add_layer(&bytes, key)?;
        let payload = match decode_layer(&outer) {
            Ok(p) => p,
            Err(e) => {
                return Err(e);
            },
        };
        assert(wire(payload.nonce@, payload.data@) =~= outer@);
        Ok(Response {
            request_id: response.request_id,
            circuit_id: response.circuit_id,
            payload,
            created_at: response.created_at,
        })
    }
}

} // verus!
