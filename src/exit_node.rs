//! The exit gateway: removes the innermost layer, chooses the provider to
//! dispatch to (the best one first, then the next best on failure, within a
//! bounded number of retries), and wraps the provider's answer as the first
//! layer of the way back.
use vstd::prelude::*;
use crate::crypto::{MAX_PLAINTEXT_LEN, NONCE_LEN};
use crate::onion::{add_layer, decode_layer, encode_layer, layer_of, opens_to, peel_layer};
use crate::routing_node::{HopKeys, wire};
use crate::topology::{ProviderRegistry, eligible, is_best, has_provider, provider_position, after_probe};
use crate::types::{DarkNodeError, NodeId, ProviderId, Request, Response, RpcProvider};

verus! {

/// Further providers tried after the first one fails.
pub const MAX_PROVIDER_RETRIES: usize = 2;

/// The exit node service.
pub struct ExitNodeService {
    pub node_id: NodeId,
    pub keys: HopKeys,
    pub rpc_manager: ProviderRegistry,
}

impl ExitNodeService {
    pub fn new(node_id: NodeId, rpc_manager: ProviderRegistry) -> (r: ExitNodeService)
        requires
            rpc_manager.well_formed(),
        ensures
            r.keys.well_formed(),
            r.keys.view() == Map::<u128, Seq<u8>>::empty(),
            r.rpc_manager == rpc_manager,
            r.node_id == node_id,
    {
        ExitNodeService { node_id, keys: HopKeys::new(), rpc_manager }
    }

    /// Removes the innermost layer of the request and chooses the best
    /// active provider to dispatch the plaintext to.
    pub fn handle_request(&self, request: &Request) -> (r: Result<(Vec<u8>, RpcProvider), DarkNodeError>)
        requires
            self.keys.well_formed(),
        ensures
            !self.keys.view().contains_key(request.circuit_id.0) ==> r == Err::<(Vec<u8>, RpcProvider), DarkNodeError>(
                DarkNodeError::UnknownCircuit,
            ),
            self.keys.view().contains_key(request.circuit_id.0) ==> {
                let key = self.keys.view()[request.circuit_id.0];
                let bytes = wire(request.payload.nonce@, request.payload.data@);
                let none_active = forall|k: int|
                    0 <= k < self.rpc_manager.view().len() ==> !(#[trigger] self.rpc_manager.view()[k]).active;
                &&& r matches Ok((p, prov)) ==> opens_to(key, bytes, p@) && is_best(
                    self.rpc_manager.view(),
                    Seq::empty(),
                    prov@,
                )
                &&& forall|inner: Seq<u8>|
                    bytes.len() <= MAX_PLAINTEXT_LEN && #[trigger] opens_to(key, bytes, inner) ==> if none_active {
                        r == Err::<(Vec<u8>, RpcProvider), DarkNodeError>(DarkNodeError::NoAvailableProviders)
                    } else {
                        r is Ok && r->Ok_0.0@ == inner
                    }
                &&& r matches Err(e) ==> e == DarkNodeError::LayerDecryptFailure || e
                    == DarkNodeError::NoAvailableProviders && none_active
            },
    {
        let key = match self.keys.get(request.circuit_id) {
            Some(k) => k,
            None => {
                return Err(DarkNodeError::UnknownCircuit);
            },
        };
        let bytes = encode_layer(&request.payload);
        let payload = peel_layer(&bytes, key)?;
        match self.rpc_manager.get_best_provider() {
            Some(p) => Ok((payload, p)),
            None => Err(DarkNodeError::NoAvailableProviders),
        }
    }

    /// The provider to try after the ones in `tried` failed: the best active
    /// one not tried yet, while retries remain.
    pub fn next_provider(&self, tried: &Vec<ProviderId>) -> (r: Result<RpcProvider, DarkNodeError>)
        ensures
            tried@.len() > MAX_PROVIDER_RETRIES ==> r == Err::<RpcProvider, DarkNodeError>(
                DarkNodeError::ProviderUnavailable,
            ),
            tried@.len() <= MAX_PROVIDER_RETRIES ==> {
                let none_left = forall|k: int|
                    0 <= k < self.rpc_manager.view().len() ==> !eligible(#[trigger] self.rpc_manager.view()[k], tried@);
                &&& none_left && tried@.len() == 0 ==> r == Err::<RpcProvider, DarkNodeError>(
                    DarkNodeError::NoAvailableProviders,
                )
                &&& none_left && tried@.len() > 0 ==> r == Err::<RpcProvider, DarkNodeError>(
                    DarkNodeError::ProviderUnavailable,
                )
                &&& !none_left ==> r is Ok && is_best(self.rpc_manager.view(), tried@, r->Ok_0@)
            },
    {
        if tried.len() > MAX_PROVIDER_RETRIES {
            return Err(DarkNodeError::ProviderUnavailable);
        }
        match self.rpc_manager.get_best_provider_excluding(tried) {
            Some(p) => Ok(p),
            None => {
                if tried.len() == 0 {
                    Err(DarkNodeError::NoAvailableProviders)
                } else {
                    Err(DarkNodeError::ProviderUnavailable)
                }
            },
        }
    }

    /// Feeds the outcome of a dispatch attempt at `now` into the provider's
    /// health statistics.
    pub fn record_attempt(&mut self, provider_id: ProviderId, success: bool, latency: u64, now: u64) -> (found: bool)
        requires
            old(self).rpc_manager.well_formed(),
        ensures
            final(self).rpc_manager.well_formed(),
            final(self).keys == old(self).keys,
            found == has_provider(old(self).rpc_manager.view(), provider_id.0),
            found ==> final(self).rpc_manager.view() == old(self).rpc_manager.view().update(
                provider_position(old(self).rpc_manager.view(), provider_id.0),
                after_probe(
                    old(self).rpc_manager.view()[provider_position(old(self).rpc_manager.view(), provider_id.0)],
                    success,
                    latency,
                    now,
                ),
            ),
            !found ==> final(self).rpc_manager.view() == old(self).rpc_manager.view(),
    {
        self.rpc_manager.record_probe(provider_id, success, latency, now)
    }

    /// Wraps the provider's answer to the request as the first layer of the
    /// way back, sealed with this hop's key.
    pub fn wrap_response(&self, request: &Request, answer: &Vec<u8>, now: u64) -> (r: Result<Response, DarkNodeError>)
        requires
            self.keys.well_formed(),
        ensures
            !self.keys.view().contains_key(request.circuit_id.0) ==> r == Err::<Response, DarkNodeError>(
                DarkNodeError::UnknownCircuit,
            ),
            self.keys.view().contains_key(request.circuit_id.0) ==> {
                let key = self.keys.view()[request.circuit_id.0];
                &&& r matches Ok(resp) ==> resp.request_id == request.id && resp.circuit_id == request.circuit_id
                    && resp.created_at == now && resp.payload.nonce@.len() == NONCE_LEN && wire(
                    resp.payload.nonce@,
                    resp.payload.data@,
                ) == layer_of(key, resp.payload.nonce@, answer@)
                &&& r matches Err(e) ==> (e == DarkNodeError::PayloadTooLarge <==> answer@.len() > MAX_PLAINTEXT_LEN)
                    && (e == DarkNodeError::PayloadTooLarge || e == DarkNodeError::RandomnessUnavailable)
            },
    {
        let key = match self.keys.get(request.circuit_id) {
            Some(k) => k,
            None => {
                return Err(DarkNodeError::UnknownCircuit);
            },
        };
        let outer = add_layer(answer, key)?;
        let payload = match decode_layer(&outer) {
            Ok(p) => p,
            Err(e) => {
                return Err(e);
            },
        };
        assert(wire(payload.nonce@, payload.data@) =~= outer@);
        Ok(Response { request_id: request.id, circuit_id: request.circuit_id, payload, created_at: now })
    }
}

} // verus!
