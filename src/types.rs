//! Core data types of the overlay: identifiers, keys, nodes, providers,
//! circuits and the messages that travel through them.
use vstd::prelude::*;

verus! {

/// Identifier of a node of the network.
#[derive(Debug, Clone, Copy, PartialEq, Eq, Hash, Structural)]
pub struct NodeId(pub u128);

/// Identifier of a circuit through the network.
#[derive(Debug, Clone, Copy, PartialEq, Eq, Hash, Structural)]
pub struct CircuitId(pub u128);

/// Identifier of an RPC provider.
#[derive(Debug, Clone, Copy, PartialEq, Eq, Hash, Structural)]
pub struct ProviderId(pub u128);

/// A cryptographic key: public, private or symmetric by context.
#[derive(Debug)]
pub struct CryptoKey(pub Vec<u8>);

impl View for CryptoKey {
    type V = Seq<u8>;

    open spec fn view(&self) -> Seq<u8> {
        self.0@
    }
}

impl CryptoKey {
    /// A copy of this key holding the same bytes.
    pub fn duplicate(&self) -> (r: CryptoKey)
        ensures
            r@ == self@,
    {
        let bytes = self.0.clone();
        assert(bytes@ =~= self.0@);
        CryptoKey(bytes)
    }
}

/// The bytes of each key of a sequence of keys.
pub open spec fn key_bytes(keys: Seq<CryptoKey>) -> Seq<Seq<u8>> {
    keys.map_values(|k: CryptoKey| k@)
}

/// An encrypted payload: ciphertext, the nonce it was sealed with, and
/// optional associated data.
#[derive(Debug)]
pub struct EncryptedData {
    pub data: Vec<u8>,
    pub nonce: Vec<u8>,
    pub aad: Option<Vec<u8>>,
}

/// The role a node plays in the network.
#[derive(Debug, Clone, Copy, PartialEq, Eq, Structural)]
pub enum NodeRole {
    Entry,
    Routing,
    Exit,
    Coordinator,
}

/// The status of a node.
#[derive(Debug, Clone, Copy, PartialEq, Eq, Structural)]
pub enum NodeStatus {
    Online,
    Busy,
    Offline,
    Maintenance,
}

/// Largest load value: a load is given in thousandths of full capacity.
pub const LOAD_SCALE: u32 = 1000;

/// A node of the network.
#[derive(Debug)]
pub struct Node {
    pub id: NodeId,
    pub role: NodeRole,
    pub status: NodeStatus,
    pub public_key: CryptoKey,
    /// Textual IP address.
    pub ip_address: String,
    pub port: u16,
    /// Seconds since the Unix epoch.
    pub last_seen: u64,
    pub region: String,
    /// Thousandths of full capacity, at most `LOAD_SCALE`.
    pub load: u32,
}

/// What a node holds, as plain values.
pub struct NodeView {
    pub id: u128,
    pub role: NodeRole,
    pub status: NodeStatus,
    pub public_key: Seq<u8>,
    pub ip_address: Seq<char>,
    pub port: u16,
    pub last_seen: u64,
    pub region: Seq<char>,
    pub load: u32,
}

impl View for Node {
    type V = NodeView;

    open spec fn view(&self) -> NodeView {
        NodeView {
            id: self.id.0,
            role: self.role,
            status: self.status,
            public_key: self.public_key@,
            ip_address: self.ip_address@,
            port: self.port,
            last_seen: self.last_seen,
            region: self.region@,
            load: self.load,
        }
    }
}

impl Node {
    /// A copy of this node with the same contents.
    pub fn duplicate(&self) -> (r: Node)
        ensures
            r@ == self@,
    {
        Node {
            id: self.id,
            role: self.role,
            status: self.status,
            public_key: self.public_key.duplicate(),
            ip_address: self.ip_address.clone(),
            port: self.port,
            last_seen: self.last_seen,
            region: self.region.clone(),
            load: self.load,
        }
    }
}

/// Success rates are given in basis points: 10000 is always successful.
pub const RATE_SCALE: u32 = 10000;

/// An RPC provider that exit nodes dispatch requests to.
#[derive(Debug)]
pub struct RpcProvider {
    pub id: ProviderId,
    pub url: String,
    pub provider_type: String,
    pub active: bool,
    /// Basis points, at most `RATE_SCALE`.
    pub success_rate: u32,
    /// Milliseconds.
    pub avg_latency: u64,
    /// Seconds since the Unix epoch.
    pub last_checked: u64,
}

/// What a provider holds, as plain values.
pub struct ProviderView {
    pub id: u128,
    pub url: Seq<char>,
    pub provider_type: Seq<char>,
    pub active: bool,
    pub success_rate: u32,
    pub avg_latency: u64,
    pub last_checked: u64,
}

impl View for RpcProvider {
    type V = ProviderView;

    open spec fn view(&self) -> ProviderView {
        ProviderView {
            id: self.id.0,
            url: self.url@,
            provider_type: self.provider_type@,
            active: self.active,
            success_rate: self.success_rate,
            avg_latency: self.avg_latency,
            last_checked: self.last_checked,
        }
    }
}

impl RpcProvider {
    /// A copy of this provider with the same contents.
    pub fn duplicate(&self) -> (r: RpcProvider)
        ensures
            r@ == self@,
    {
        RpcProvider {
            id: self.id,
            url: self.url.clone(),
            provider_type: self.provider_type.clone(),
            active: self.active,
            success_rate: self.success_rate,
            avg_latency: self.avg_latency,
            last_checked: self.last_checked,
        }
    }
}

/// A mapping from a user's original RPC URL to the overlay's URLs.
#[derive(Debug)]
pub struct RpcMapping {
    pub id: u128,
    pub original_rpc: String,
    pub darknode_https_rpc: String,
    pub darknode_wss_rpc: String,
    pub created_at: u64,
}

/// A user of the service.
#[derive(Debug)]
pub struct User {
    pub id: u128,
    pub wallet_address: String,
    pub api_key: String,
    pub active: bool,
    pub expires_at: Option<u64>,
    pub rpc_mappings: Vec<RpcMapping>,
}

/// A circuit: the entry node, the routing nodes in order, the exit node, and
/// one key per hop, ordered from entry to exit.
#[derive(Debug)]
pub struct Circuit {
    pub id: CircuitId,
    pub entry_node: NodeId,
    pub routing_nodes: Vec<NodeId>,
    pub exit_node: NodeId,
    pub symmetric_keys: Vec<CryptoKey>,
    /// Seconds since the Unix epoch.
    pub created_at: u64,
    /// Seconds since the Unix epoch.
    pub expires_at: u64,
}

/// What a circuit holds, as plain values.
pub struct CircuitView {
    pub id: u128,
    pub entry_node: u128,
    pub routing_nodes: Seq<u128>,
    pub exit_node: u128,
    pub keys: Seq<Seq<u8>>,
    pub created_at: u64,
    pub expires_at: u64,
}

impl View for Circuit {
    type V = CircuitView;

    open spec fn view(&self) -> CircuitView {
        CircuitView {
            id: self.id.0,
            entry_node: self.entry_node.0,
            routing_nodes: self.routing_nodes@.map_values(|n: NodeId| n.0),
            exit_node: self.exit_node.0,
            keys: key_bytes(self.symmetric_keys@),
            created_at: self.created_at,
            expires_at: self.expires_at,
        }
    }
}

/// Keys of a sequence that are pairwise distinct.
pub open spec fn all_distinct(keys: Seq<Seq<u8>>) -> bool {
    forall|i: int, j: int| 0 <= i < keys.len() && 0 <= j < keys.len() && i != j ==> keys[i] != keys[j]
}

impl CircuitView {
    /// One key per hop (entry, each routing node, exit), all distinct, and at
    /// least one routing node.
    pub open spec fn well_formed(self) -> bool {
        &&& self.routing_nodes.len() >= 1
        &&& self.keys.len() == self.routing_nodes.len() + 2
        &&& all_distinct(self.keys)
    }

    /// The keys of the hops that peel a forward layer: every routing node,
    /// then the exit node. The entry node keeps its own key and adds no layer.
    pub open spec fn layer_keys(self) -> Seq<Seq<u8>> {
        self.keys.drop_first()
    }
}

impl Circuit {
    pub open spec fn well_formed(&self) -> bool {
        self@.well_formed()
    }

    /// Copies of the keys of the hops that peel a forward layer.
    pub fn layer_keys(&self) -> (r: Vec<CryptoKey>)
        requires
            self.symmetric_keys@.len() >= 1,
        ensures
            key_bytes(r@) == self@.layer_keys(),
    {
        let mut keys: Vec<CryptoKey> = Vec::new();
        let mut j: usize = 1;
        while j < self.symmetric_keys.len()
            invariant
                1 <= j <= self.symmetric_keys@.len(),
                keys@.len() == j - 1,
                forall|k: int| 0 <= k < j - 1 ==> #[trigger] keys@[k]@ == self.symmetric_keys@[k + 1]@,
            decreases self.symmetric_keys@.len() - j,
        {
            keys.push(self.symmetric_keys[j].duplicate());
            j = j + 1;
        }
        assert(key_bytes(keys@) =~= self@.layer_keys());
        keys
    }

    /// A copy of this circuit with the same contents.
    pub fn duplicate(&self) -> (r: Circuit)
        ensures
            r@ == self@,
    {
        let mut routing: Vec<NodeId> = Vec::new();
        let mut i: usize = 0;
        while i < self.routing_nodes.len()
            invariant
                i <= self.routing_nodes@.len(),
                routing@ == self.routing_nodes@.subrange(0, i as int),
            decreases self.routing_nodes@.len() - i,
        {
            routing.push(self.routing_nodes[i]);
            i = i + 1;
            assert(routing@ =~= self.routing_nodes@.subrange(0, i as int));
        }
        assert(routing@ =~= self.routing_nodes@);
        let mut keys: Vec<CryptoKey> = Vec::new();
        let mut j: usize = 0;
        while j < self.symmetric_keys.len()
            invariant
                j <= self.symmetric_keys@.len(),
                keys@.len() == j,
                forall|k: int| 0 <= k < j ==> #[trigger] keys@[k]@ == self.symmetric_keys@[k]@,
            decreases self.symmetric_keys@.len() - j,
        {
            keys.push(self.symmetric_keys[j].duplicate());
            j = j + 1;
        }
        assert(key_bytes(keys@) =~= key_bytes(self.symmetric_keys@));
        Circuit {
            id: self.id,
            entry_node: self.entry_node,
            routing_nodes: routing,
            exit_node: self.exit_node,
            symmetric_keys: keys,
            created_at: self.created_at,
            expires_at: self.expires_at,
        }
    }
}

/// What can go wrong while handling a request or a message.
#[derive(Debug, Clone, Copy, PartialEq, Eq, Structural)]
pub enum DarkNodeError {
    /// No user holds the API key.
    InvalidApiKey,
    /// The user's subscription is not active.
    SubscriptionInactive,
    /// No online node of the role is known.
    NoAvailableNodes(NodeRole),
    /// No active provider is known.
    NoAvailableProviders,
    /// A ciphertext layer failed authentication, or its framing is invalid.
    LayerDecryptFailure,
    /// A signature has the wrong length or a malformed encoding.
    InvalidSignature,
    /// A key has the wrong length.
    InvalidKey,
    /// No correlated response arrived before the deadline.
    RequestTimeout,
    /// Every provider attempt failed.
    ProviderUnavailable,
    /// A payload is larger than the cipher can seal.
    PayloadTooLarge,
    /// The operating system's random source failed.
    RandomnessUnavailable,
    /// A message names a circuit that is not known here.
    UnknownCircuit,
    /// A response names a request that is not awaited: resolved already,
    /// timed out and swept, or never sent.
    UnknownRequest,
}

/// A request travelling through a circuit.
#[derive(Debug)]
pub struct Request {
    pub id: u128,
    pub circuit_id: CircuitId,
    pub payload: EncryptedData,
    /// Seconds since the Unix epoch.
    pub created_at: u64,
}

/// A response travelling back through a circuit.
#[derive(Debug)]
pub struct Response {
    pub request_id: u128,
    pub circuit_id: CircuitId,
    pub payload: EncryptedData,
    /// Seconds since the Unix epoch.
    pub created_at: u64,
}

} // verus!
