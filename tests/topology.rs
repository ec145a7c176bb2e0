use darknode_backend::coordinator::{CoordinatorService, NodeProbe, ProviderProbe};
use darknode_backend::exit_node::{ExitNodeService, MAX_PROVIDER_RETRIES};
use darknode_backend::topology::{NodeRegistry, ProviderRegistry};
use darknode_backend::types::{CryptoKey, DarkNodeError, Node, NodeId, NodeRole, NodeStatus, ProviderId, RpcProvider};

fn node(id: u128, role: NodeRole, status: NodeStatus, region: &str) -> Node {
    Node {
        id: NodeId(id),
        role,
        status,
        public_key: CryptoKey(vec![id as u8; 32]),
        ip_address: "127.0.0.1".to_string(),
        port: 3000,
        last_seen: 0,
        region: region.to_string(),
        load: 0,
    }
}

fn provider(id: u128, rate: u32, latency: u64, active: bool) -> RpcProvider {
    RpcProvider {
        id: ProviderId(id),
        url: format!("https://rpc{}.example", id),
        provider_type: "solana".to_string(),
        active,
        success_rate: rate,
        avg_latency: latency,
        last_checked: 0,
    }
}

#[test]
fn available_nodes_are_online_nodes_of_the_role_in_order() {
    let mut reg = NodeRegistry::new(3);
    reg.register_node(node(1, NodeRole::Routing, NodeStatus::Online, "eu"));
    reg.register_node(node(2, NodeRole::Routing, NodeStatus::Busy, "eu"));
    reg.register_node(node(3, NodeRole::Exit, NodeStatus::Online, "us"));
    reg.register_node(node(4, NodeRole::Routing, NodeStatus::Online, "us"));
    reg.register_node(node(5, NodeRole::Routing, NodeStatus::Offline, "us"));
    let ids: Vec<u128> = reg.get_available_nodes(NodeRole::Routing).iter().map(|n| n.id.0).collect();
    assert_eq!(ids, vec![1, 4]);
    assert!(reg.get_available_nodes(NodeRole::Entry).is_empty());
    assert_eq!(reg.get_available_nodes(NodeRole::Exit).len(), 1);
}

#[test]
fn registering_an_id_again_replaces_the_node() {
    let mut reg = NodeRegistry::new(3);
    reg.register_node(node(1, NodeRole::Routing, NodeStatus::Online, "eu"));
    reg.register_node(node(1, NodeRole::Routing, NodeStatus::Online, "asia"));
    let all = reg.get_available_nodes(NodeRole::Routing);
    assert_eq!(all.len(), 1);
    assert_eq!(all[0].region, "asia");
}

#[test]
fn status_update_and_lookup() {
    let mut reg = NodeRegistry::new(3);
    reg.register_node(node(7, NodeRole::Exit, NodeStatus::Online, "eu"));
    assert!(reg.update_node_status(&NodeId(7), NodeStatus::Maintenance));
    assert_eq!(reg.get_node(&NodeId(7)).unwrap().status, NodeStatus::Maintenance);
    assert!(!reg.update_node_status(&NodeId(8), NodeStatus::Online));
    assert!(reg.get_node(&NodeId(8)).is_none());
    assert!(reg.get_available_nodes(NodeRole::Exit).is_empty());
}

#[test]
fn node_demoted_after_threshold_failures_and_restored_after_one_success() {
    let mut reg = NodeRegistry::new(2);
    reg.register_node(node(1, NodeRole::Routing, NodeStatus::Online, "eu"));
    assert!(reg.record_probe(&NodeId(1), false, 10));
    assert_eq!(reg.get_node(&NodeId(1)).unwrap().status, NodeStatus::Online);
    assert!(reg.record_probe(&NodeId(1), false, 20));
    assert_eq!(reg.get_node(&NodeId(1)).unwrap().status, NodeStatus::Offline);
    assert!(reg.record_probe(&NodeId(1), true, 30));
    let n = reg.get_node(&NodeId(1)).unwrap();
    assert_eq!(n.status, NodeStatus::Online);
    assert_eq!(n.last_seen, 30);
    // the streak starts over after a success
    assert!(reg.record_probe(&NodeId(1), false, 40));
    assert_eq!(reg.get_node(&NodeId(1)).unwrap().status, NodeStatus::Online);
    assert!(!reg.record_probe(&NodeId(9), true, 50));
}

#[test]
fn a_zero_threshold_counts_as_one() {
    let mut reg = NodeRegistry::new(0);
    reg.register_node(node(1, NodeRole::Routing, NodeStatus::Online, "eu"));
    reg.record_probe(&NodeId(1), false, 1);
    assert_eq!(reg.get_node(&NodeId(1)).unwrap().status, NodeStatus::Offline);
}

#[test]
fn maintenance_node_stays_in_maintenance_when_alive() {
    let mut reg = NodeRegistry::new(1);
    reg.register_node(node(1, NodeRole::Exit, NodeStatus::Maintenance, "eu"));
    reg.record_probe(&NodeId(1), true, 5);
    assert_eq!(reg.get_node(&NodeId(1)).unwrap().status, NodeStatus::Maintenance);
}

#[test]
fn best_provider_selection_scenario() {
    let mut reg = ProviderRegistry::new();
    reg.register_provider(provider(0xA, 9900, 100, true));
    reg.register_provider(provider(0xB, 9800, 120, true));
    assert_eq!(reg.get_best_provider().unwrap().id, ProviderId(0xA));
    assert!(reg.update_provider_status(ProviderId(0xA), false));
    assert_eq!(reg.get_best_provider().unwrap().id, ProviderId(0xB));
    assert!(reg.update_provider_status(ProviderId(0xB), false));
    assert!(reg.get_best_provider().is_none());
    assert!(reg.get_active_providers().is_empty());
}

#[test]
fn best_provider_ties_broken_by_latency_then_id() {
    let mut reg = ProviderRegistry::new();
    reg.register_provider(provider(5, 9000, 200, true));
    reg.register_provider(provider(3, 9000, 100, true));
    reg.register_provider(provider(2, 9000, 100, true));
    reg.register_provider(provider(9, 9500, 900, false));
    assert_eq!(reg.get_best_provider().unwrap().id, ProviderId(2));
    let active: Vec<u128> = reg.get_active_providers().iter().map(|p| p.id.0).collect();
    assert_eq!(active, vec![5, 3, 2]);
    let excluded = reg.get_best_provider_excluding(&vec![ProviderId(2)]).unwrap();
    assert_eq!(excluded.id, ProviderId(3));
    assert!(!reg.update_provider_status(ProviderId(42), true));
}

#[test]
fn provider_probe_moves_averages() {
    let mut reg = ProviderRegistry::new();
    reg.register_provider(provider(1, 9900, 100, true));
    assert!(reg.record_probe(ProviderId(1), false, 0, 77));
    let p = reg.get_best_provider().unwrap();
    assert_eq!(p.success_rate, 7920);
    assert_eq!(p.avg_latency, 100);
    assert_eq!(p.last_checked, 77);
    assert!(reg.record_probe(ProviderId(1), true, 200, 78));
    let p = reg.get_best_provider().unwrap();
    assert_eq!(p.success_rate, (7920 * 4 + 10000) / 5);
    assert_eq!(p.avg_latency, 120);
    assert!(!reg.record_probe(ProviderId(2), true, 1, 1));
}

#[test]
fn provider_latency_average_does_not_overflow() {
    let mut reg = ProviderRegistry::new();
    reg.register_provider(provider(1, 10000, u64::MAX, true));
    reg.record_probe(ProviderId(1), true, u64::MAX, 1);
    assert_eq!(reg.get_best_provider().unwrap().avg_latency, u64::MAX);
}

#[test]
fn coordinator_applies_probes_in_order() {
    let mut nodes = NodeRegistry::new(2);
    nodes.register_node(node(1, NodeRole::Routing, NodeStatus::Online, "eu"));
    nodes.register_node(node(2, NodeRole::Exit, NodeStatus::Online, "us"));
    let mut providers = ProviderRegistry::new();
    providers.register_provider(provider(1, 10000, 50, true));
    let mut coord = CoordinatorService::new(nodes, providers);
    coord.update_topology(
        &vec![
            NodeProbe { node_id: NodeId(1), alive: false },
            NodeProbe { node_id: NodeId(2), alive: false },
            NodeProbe { node_id: NodeId(1), alive: false },
        ],
        100,
    );
    assert_eq!(coord.node_manager.get_node(&NodeId(1)).unwrap().status, NodeStatus::Offline);
    assert_eq!(coord.node_manager.get_node(&NodeId(2)).unwrap().status, NodeStatus::Online);
    coord.check_rpc_health(
        &vec![
            ProviderProbe { provider_id: ProviderId(1), success: true, latency: 100 },
            ProviderProbe { provider_id: ProviderId(1), success: true, latency: 100 },
        ],
        200,
    );
    let p = coord.rpc_manager.get_best_provider().unwrap();
    assert_eq!(p.avg_latency, 68);
    assert_eq!(p.success_rate, 10000);
    assert_eq!(p.last_checked, 200);
}

#[test]
fn exit_retries_next_best_within_bound() {
    let mut providers = ProviderRegistry::new();
    providers.register_provider(provider(1, 9900, 100, true));
    providers.register_provider(provider(2, 9800, 100, true));
    providers.register_provider(provider(3, 9700, 100, true));
    providers.register_provider(provider(4, 9600, 100, true));
    let mut exit = ExitNodeService::new(NodeId(50), providers);
    let mut tried: Vec<ProviderId> = Vec::new();
    let mut order = Vec::new();
    loop {
        match exit.next_provider(&tried) {
            Ok(p) => {
                order.push(p.id.0);
                assert!(exit.record_attempt(p.id, false, 0, 1));
                tried.push(p.id);
            }
            Err(e) => {
                assert_eq!(e, DarkNodeError::ProviderUnavailable);
                break;
            }
        }
    }
    assert_eq!(order, vec![1, 2, 3]);
    assert_eq!(order.len(), MAX_PROVIDER_RETRIES + 1);
    let after = exit.rpc_manager.get_active_providers();
    assert_eq!(after[0].success_rate, 9900 * 4 / 5);
}

#[test]
fn exit_without_providers() {
    let exit = ExitNodeService::new(NodeId(50), ProviderRegistry::new());
    assert_eq!(exit.next_provider(&Vec::new()).err(), Some(DarkNodeError::NoAvailableProviders));
    let mut providers = ProviderRegistry::new();
    providers.register_provider(provider(1, 9900, 100, true));
    let exit = ExitNodeService::new(NodeId(50), providers);
    assert_eq!(exit.next_provider(&vec![ProviderId(1)]).err(), Some(DarkNodeError::ProviderUnavailable));
}
