use darknode_backend::circuit::{CIRCUIT_TTL_SECS, ROUTING_HOPS, RouterImpl};
use darknode_backend::correlation::{CorrelationTable, Delivery};
use darknode_backend::crypto::CryptoImpl;
use darknode_backend::entry_node::{EntryNodeService, REQUEST_TIMEOUT_SECS};
use darknode_backend::exit_node::ExitNodeService;
use darknode_backend::routing_node::RoutingNodeService;
use darknode_backend::sanitizer::{PassThroughSanitizer, RequestSanitizer};
use darknode_backend::topology::{NodeRegistry, ProviderRegistry};
use darknode_backend::types::{
    CryptoKey, DarkNodeError, Node, NodeId, NodeRole, NodeStatus, ProviderId, Response, RpcProvider, User,
};

fn node(id: u128, role: NodeRole, region: &str) -> Node {
    Node {
        id: NodeId(id),
        role,
        status: NodeStatus::Online,
        public_key: CryptoKey(vec![id as u8; 32]),
        ip_address: format!("10.0.0.{}", id),
        port: 4000,
        last_seen: 0,
        region: region.to_string(),
        load: 100,
    }
}

fn full_registry() -> NodeRegistry {
    let mut reg = NodeRegistry::new(3);
    reg.register_node(node(1, NodeRole::Entry, "eu"));
    reg.register_node(node(11, NodeRole::Routing, "us"));
    reg.register_node(node(12, NodeRole::Routing, "asia"));
    reg.register_node(node(21, NodeRole::Exit, "eu"));
    reg
}

fn user(active: bool) -> Option<User> {
    Some(User {
        id: 1,
        wallet_address: "wallet".to_string(),
        api_key: "key-1".to_string(),
        active,
        expires_at: None,
        rpc_mappings: Vec::new(),
    })
}

fn provider(id: u128, rate: u32) -> RpcProvider {
    RpcProvider {
        id: ProviderId(id),
        url: "https://rpc.example".to_string(),
        provider_type: "solana".to_string(),
        active: true,
        success_rate: rate,
        avg_latency: 100,
        last_checked: 0,
    }
}

#[test]
fn circuit_has_one_distinct_key_per_hop() {
    let router = RouterImpl::new(full_registry(), CryptoImpl);
    for _ in 0..5 {
        let c = router.create_circuit(1000).unwrap();
        assert_eq!(c.routing_nodes.len(), ROUTING_HOPS);
        assert_eq!(c.symmetric_keys.len(), c.routing_nodes.len() + 2);
        for i in 0..c.symmetric_keys.len() {
            assert_eq!(c.symmetric_keys[i].0.len(), 32);
            for j in 0..c.symmetric_keys.len() {
                if i != j {
                    assert_ne!(c.symmetric_keys[i].0, c.symmetric_keys[j].0);
                }
            }
        }
        assert_eq!(c.entry_node, NodeId(1));
        assert_eq!(c.exit_node, NodeId(21));
        assert_eq!(c.created_at, 1000);
        assert_eq!(c.expires_at, 1000 + CIRCUIT_TTL_SECS);
    }
}

#[test]
fn routing_hops_avoid_repeating_a_region() {
    let mut reg = NodeRegistry::new(3);
    reg.register_node(node(1, NodeRole::Entry, "eu"));
    reg.register_node(node(11, NodeRole::Routing, "eu"));
    reg.register_node(node(12, NodeRole::Routing, "eu"));
    reg.register_node(node(13, NodeRole::Routing, "us"));
    reg.register_node(node(21, NodeRole::Exit, "eu"));
    let c = RouterImpl::new(reg, CryptoImpl).create_circuit(0).unwrap();
    // first hop leaves the entry's region; the second leaves the first's
    assert_eq!(c.routing_nodes, vec![NodeId(13), NodeId(11)]);
}

#[test]
fn routing_hops_fall_back_when_one_region_only() {
    let mut reg = NodeRegistry::new(3);
    reg.register_node(node(1, NodeRole::Entry, "eu"));
    reg.register_node(node(11, NodeRole::Routing, "eu"));
    reg.register_node(node(12, NodeRole::Routing, "eu"));
    reg.register_node(node(21, NodeRole::Exit, "eu"));
    let c = RouterImpl::new(reg, CryptoImpl).create_circuit(0).unwrap();
    assert_eq!(c.routing_nodes, vec![NodeId(11), NodeId(12)]);
}

#[test]
fn missing_roles_are_reported_in_order() {
    let mut reg = NodeRegistry::new(3);
    reg.register_node(node(21, NodeRole::Exit, "eu"));
    let router = RouterImpl::new(reg, CryptoImpl);
    assert_eq!(router.create_circuit(0).err(), Some(DarkNodeError::NoAvailableNodes(NodeRole::Entry)));
    let mut reg = NodeRegistry::new(3);
    reg.register_node(node(1, NodeRole::Entry, "eu"));
    reg.register_node(node(21, NodeRole::Exit, "eu"));
    let router = RouterImpl::new(reg, CryptoImpl);
    assert_eq!(router.create_circuit(0).err(), Some(DarkNodeError::NoAvailableNodes(NodeRole::Routing)));
}

#[test]
fn no_online_exit_fails_without_caching() {
    let mut reg = NodeRegistry::new(3);
    reg.register_node(node(1, NodeRole::Entry, "eu"));
    reg.register_node(node(11, NodeRole::Routing, "us"));
    reg.register_node(node(21, NodeRole::Exit, "eu"));
    reg.update_node_status(&NodeId(21), NodeStatus::Offline);
    let mut entry = EntryNodeService::new(NodeId(1), RouterImpl::new(reg, CryptoImpl));
    let key = "key-1".to_string();
    assert_eq!(entry.get_or_create_circuit(&key, 10).err(), Some(DarkNodeError::NoAvailableNodes(NodeRole::Exit)));
    assert_eq!(
        entry.handle_request(&user(true), &key, &b"{}".to_vec(), 10).err(),
        Some(DarkNodeError::NoAvailableNodes(NodeRole::Exit))
    );
    // once an exit is online a circuit is built from scratch
    entry.update_nodes(full_registry());
    let c = entry.get_or_create_circuit(&key, 10).unwrap();
    assert_eq!(c.exit_node, NodeId(21));
}

#[test]
fn cached_circuit_reused_until_it_expires() {
    let mut entry = EntryNodeService::new(NodeId(1), RouterImpl::new(full_registry(), CryptoImpl));
    let key = "key-1".to_string();
    let c1 = entry.get_or_create_circuit(&key, 100).unwrap();
    let c2 = entry.get_or_create_circuit(&key, 100 + CIRCUIT_TTL_SECS - 1).unwrap();
    assert_eq!(c1.id, c2.id);
    assert_eq!(c1.symmetric_keys[0].0, c2.symmetric_keys[0].0);
    // at expires_at the circuit is no longer returned
    let c3 = entry.get_or_create_circuit(&key, 100 + CIRCUIT_TTL_SECS).unwrap();
    assert_ne!(c3.id, c1.id);
    assert!(c3.expires_at > 100 + CIRCUIT_TTL_SECS);
    let c4 = entry.get_or_create_circuit(&key, 100 + CIRCUIT_TTL_SECS).unwrap();
    assert_eq!(c4.id, c3.id);
    // another client gets its own circuit
    let other = entry.get_or_create_circuit(&"key-2".to_string(), 100).unwrap();
    assert_ne!(other.id, c3.id);
}

#[test]
fn authentication_errors() {
    let mut entry = EntryNodeService::new(NodeId(1), RouterImpl::new(full_registry(), CryptoImpl));
    let key = "key-1".to_string();
    assert_eq!(entry.handle_request(&None, &key, &b"{}".to_vec(), 1).err(), Some(DarkNodeError::InvalidApiKey));
    assert_eq!(
        entry.handle_request(&user(false), &key, &b"{}".to_vec(), 1).err(),
        Some(DarkNodeError::SubscriptionInactive)
    );
}

#[test]
fn correlation_delivers_exactly_once() {
    let mut table = CorrelationTable::new();
    assert!(table.register(7, 100));
    assert!(!table.register(7, 200));
    assert_eq!(table.deliver(7, 50), Delivery::Delivered);
    assert_eq!(table.deliver(7, 51), Delivery::Discarded);
    assert!(!table.is_pending(7));
}

#[test]
fn correlation_deadline_and_sweep() {
    let mut table = CorrelationTable::new();
    table.register(1, 10);
    table.register(2, 20);
    table.register(3, 30);
    assert_eq!(table.deliver(1, 10), Delivery::Expired);
    let mut expired = table.sweep(20);
    expired.sort();
    assert_eq!(expired, vec![2]);
    assert!(table.is_pending(3));
    assert_eq!(table.deliver(2, 15), Delivery::Discarded);
    assert_eq!(table.deliver(3, 29), Delivery::Delivered);
    assert!(table.sweep(1000).is_empty());
}

/// Hands each hop the key of its position in the circuit.
fn hops(c: &darknode_backend::types::Circuit, providers: ProviderRegistry) -> (RoutingNodeService, RoutingNodeService, ExitNodeService) {
    let mut r1 = RoutingNodeService::new(c.routing_nodes[0]);
    r1.keys.install(c.id, c.symmetric_keys[1].duplicate());
    let mut r2 = RoutingNodeService::new(c.routing_nodes[1]);
    r2.keys.install(c.id, c.symmetric_keys[2].duplicate());
    let mut exit = ExitNodeService::new(c.exit_node, providers);
    exit.keys.install(c.id, c.symmetric_keys[3].duplicate());
    (r1, r2, exit)
}

#[test]
fn end_to_end_get_balance() {
    let mut providers = ProviderRegistry::new();
    providers.register_provider(provider(0xB, 9800));
    providers.register_provider(provider(0xA, 9900));
    let mut entry = EntryNodeService::new(NodeId(1), RouterImpl::new(full_registry(), CryptoImpl));
    let key = "key-1".to_string();
    let raw = b"{\"jsonrpc\":\"2.0\",\"method\":\"getBalance\",\"params\":[\"addr\"],\"id\":1}".to_vec();
    let sanitized = PassThroughSanitizer.sanitize_request(&raw);
    let now = 5000;
    let req = entry.handle_request(&user(true), &key, &sanitized, now).unwrap();
    assert_eq!(req.created_at, now);
    let circuit = entry.get_or_create_circuit(&key, now).unwrap();
    assert_eq!(req.circuit_id, circuit.id);
    let (r1, r2, exit) = hops(&circuit, providers);

    let at_r2 = r1.handle_request(&req).unwrap();
    let at_exit = r2.handle_request(&at_r2).unwrap();
    assert_eq!(at_exit.id, req.id);
    let (payload, chosen) = exit.handle_request(&at_exit).unwrap();
    assert_eq!(payload, sanitized);
    assert_eq!(chosen.id, ProviderId(0xA));

    let answer = b"{\"jsonrpc\":\"2.0\",\"id\":1,\"result\":\"0x123456\"}".to_vec();
    let back = exit.wrap_response(&at_exit, &answer, now + 1).unwrap();
    assert_eq!(back.request_id, req.id);
    let back = r2.handle_response(&back).unwrap();
    let back = r1.handle_response(&back).unwrap();
    let plain = entry.complete_request(&back, now + 2).unwrap();
    let prepared = PassThroughSanitizer.prepare_response(&plain);
    assert_eq!(prepared, answer);
    let value: serde_json::Value = serde_json::from_slice(&prepared).unwrap();
    assert_eq!(value["id"], serde_json::Value::from(1));
    assert_eq!(value["result"], serde_json::Value::from("0x123456"));
    assert!(value["error"].is_null());

    // a second delivery of the same response is discarded
    assert_eq!(entry.complete_request(&back, now + 3).err(), Some(DarkNodeError::UnknownRequest));
}

#[test]
fn late_response_times_out() {
    let mut entry = EntryNodeService::new(NodeId(1), RouterImpl::new(full_registry(), CryptoImpl));
    let key = "key-1".to_string();
    let req = entry.handle_request(&user(true), &key, &b"x".to_vec(), 100).unwrap();
    let response = Response { request_id: req.id, circuit_id: req.circuit_id, payload: req.payload, created_at: 0 };
    assert_eq!(
        entry.complete_request(&response, 100 + REQUEST_TIMEOUT_SECS).err(),
        Some(DarkNodeError::RequestTimeout)
    );
    assert_eq!(entry.complete_request(&response, 101).err(), Some(DarkNodeError::UnknownRequest));
}

#[test]
fn sweep_reports_requests_past_deadline() {
    let mut entry = EntryNodeService::new(NodeId(1), RouterImpl::new(full_registry(), CryptoImpl));
    let key = "key-1".to_string();
    let a = entry.handle_request(&user(true), &key, &b"a".to_vec(), 100).unwrap();
    let b = entry.handle_request(&user(true), &key, &b"b".to_vec(), 110).unwrap();
    assert_ne!(a.id, b.id);
    assert_eq!(entry.expire_requests(100 + REQUEST_TIMEOUT_SECS), vec![a.id]);
    assert_eq!(entry.expire_requests(110 + REQUEST_TIMEOUT_SECS), vec![b.id]);
}

#[test]
fn tampered_layer_dropped_at_its_hop() {
    let mut entry = EntryNodeService::new(NodeId(1), RouterImpl::new(full_registry(), CryptoImpl));
    let key = "key-1".to_string();
    let mut req = entry.handle_request(&user(true), &key, &b"payload".to_vec(), 1).unwrap();
    let circuit = entry.get_or_create_circuit(&key, 1).unwrap();
    let (r1, r2, _exit) = hops(&circuit, ProviderRegistry::new());
    let good = r1.handle_request(&req).unwrap();
    let mut bad_inner = r1.handle_request(&req).unwrap();
    bad_inner.payload.data[3] ^= 0x10;
    assert_eq!(r2.handle_request(&bad_inner).err(), Some(DarkNodeError::LayerDecryptFailure));
    assert!(r2.handle_request(&good).is_ok());
    req.payload.data[0] ^= 0x01;
    assert_eq!(r1.handle_request(&req).err(), Some(DarkNodeError::LayerDecryptFailure));
}

#[test]
fn hops_refuse_unknown_circuits() {
    let mut entry = EntryNodeService::new(NodeId(1), RouterImpl::new(full_registry(), CryptoImpl));
    let key = "key-1".to_string();
    let req = entry.handle_request(&user(true), &key, &b"payload".to_vec(), 1).unwrap();
    let r = RoutingNodeService::new(NodeId(11));
    assert_eq!(r.handle_request(&req).err(), Some(DarkNodeError::UnknownCircuit));
    let exit = ExitNodeService::new(NodeId(21), ProviderRegistry::new());
    assert_eq!(exit.handle_request(&req).err(), Some(DarkNodeError::UnknownCircuit));
}

#[test]
fn exit_without_active_provider() {
    let mut entry = EntryNodeService::new(NodeId(1), RouterImpl::new(full_registry(), CryptoImpl));
    let key = "key-1".to_string();
    let req = entry.handle_request(&user(true), &key, &b"payload".to_vec(), 1).unwrap();
    let circuit = entry.get_or_create_circuit(&key, 1).unwrap();
    let (r1, r2, exit) = hops(&circuit, ProviderRegistry::new());
    let at_exit = r2.handle_request(&r1.handle_request(&req).unwrap()).unwrap();
    assert_eq!(exit.handle_request(&at_exit).err(), Some(DarkNodeError::NoAvailableProviders));
}

#[test]
fn response_for_unknown_circuit() {
    let mut entry = EntryNodeService::new(NodeId(1), RouterImpl::new(full_registry(), CryptoImpl));
    let key = "key-1".to_string();
    let req = entry.handle_request(&user(true), &key, &b"payload".to_vec(), 1).unwrap();
    let response = Response {
        request_id: req.id,
        circuit_id: darknode_backend::types::CircuitId(req.circuit_id.0 ^ 1),
        payload: req.payload,
        created_at: 2,
    };
    assert_eq!(entry.complete_request(&response, 2).err(), Some(DarkNodeError::UnknownCircuit));
}
