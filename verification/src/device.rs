//! The device: what the host asks for, and what the device does about it.

use crate::config::{
    endpoint_of, mesh_has_peer, Config, FeatureDirect, PeerBase, DEFAULT_ENDPOINT_POLL_INTERVAL_SECS, EndpointMap, EndpointProvider, FeatureDerp,
    FeaturePersistentKeepalive, Features, Server, StunServer,
};
use crate::wg_controller::{allowed_ips_disjoint, desired_peers};
use crate::ip::{Endpoint, IpAddress};
use crate::keys::{PublicKey, SecretKey};
use crate::mesh::{copy_addresses, copy_nets, ExitNode, Node, NodeState, NodeView, PathType};
use crate::time::Duration;
use crate::uapi::{peer_views, Interface, InterfaceView, PeerView};
use vstd::prelude::*;
use vstd::string::StringExecFns;

verus! {

/// What went wrong in the device.
#[derive(Debug, PartialEq, Eq)]
pub enum Error {
    AlreadyStarted,
    NotStarted,
    AdapterConfig(String),
    BadPrivateKey,
    BadPublicKey,
    InvalidNode,
    EndpointNotProvided,
    InvalidDelete,
    NoMeshnetIP,
    Adapter,
    AsyncRuntime,
    WgFwmark,
    DnsResolverError(String),
    DnsNotDisabled,
    FailedToReconnect,
    FailedNatInfoRecover,
    IpNetworkError,
    ControllerError(crate::wg_controller::Error),
    ProxyError,
    ConnectivityCheckError,
    EndpointProviderError,
    MultiplexerError,
    TraversalError,
    TaskExecError,
    SessionKeeperError,
    UpgradeSyncError,
}

/// What the device tells the host.
#[derive(Clone, Debug, PartialEq, Eq)]
pub enum Event {
    /// A node changed.
    Node(Node),
    /// The relay client changed its server.
    Relay(crate::config::Server),
}

/// The host's receiver of events.
pub trait EventCb: Fn(Box<Event>) + Send + 'static {

}

impl<T> EventCb for T where T: Fn(Box<Event>) + Send + 'static {

}

/// The tunnel driver to use.
#[derive(Clone, Copy, Debug, PartialEq, Eq, Structural)]
pub enum AdapterType {
    BoringTun,
    LinuxNativeWg,
    WireguardGo,
    WindowsNativeWg,
}

/// How the interface is set up.
#[derive(Clone, Debug, PartialEq, Eq)]
pub struct DeviceConfig {
    pub private_key: SecretKey,
    pub adapter: AdapterType,
    pub fwmark: Option<u32>,
    pub name: Option<String>,
    /// Descriptor of a tunnel that the host has opened.
    pub tun: Option<i32>,
}

impl Default for DeviceConfig {
    fn default() -> (c: DeviceConfig)
        ensures
            c == (DeviceConfig {
                private_key: SecretKey { hi: 0, lo: 0 },
                adapter: AdapterType::BoringTun,
                fwmark: None,
                name: None,
                tun: None,
            }),
    {
        DeviceConfig {
            private_key: SecretKey { hi: 0, lo: 0 },
            adapter: AdapterType::BoringTun,
            fwmark: None,
            name: None,
            tun: None,
        }
    }
}

/// What the host has asked for, as it asked for it.
#[derive(Debug, PartialEq, Eq)]
pub struct RequestedState {
    /// How the interface is set up.
    pub device_config: DeviceConfig,
    /// The mesh as last configured; `None` while it is switched off.
    pub meshnet_config: Option<Config>,
    /// The mesh as configured before that.
    pub old_meshnet_config: Option<Config>,
    /// The exit node that is connected.
    pub exit_node: Option<ExitNode>,
    /// The exit node that was disconnected last, by which an event of its
    /// peer is still recognised.
    pub last_exit_node: Option<ExitNode>,
    /// The resolvers to forward to, as last passed when DNS was enabled.
    pub upstream_servers: Option<Vec<IpAddress>>,
    /// The STUN server to reach through the tunnel.
    pub wg_stun_server: Option<StunServer>,
    pub keepalive_periods: FeaturePersistentKeepalive,
}

impl Default for RequestedState {
    fn default() -> (s: RequestedState)
        ensures
            s.meshnet_config is None,
            s.old_meshnet_config is None,
            s.exit_node is None,
            s.last_exit_node is None,
            s.upstream_servers is None,
            s.wg_stun_server is None,
            s.device_config == (DeviceConfig {
                private_key: SecretKey { hi: 0, lo: 0 },
                adapter: AdapterType::BoringTun,
                fwmark: None,
                name: None,
                tun: None,
            }),
            s.keepalive_periods == (FeaturePersistentKeepalive {
                vpn: Some(15u32),
                direct: 5,
                proxying: Some(25u32),
                stun: Some(50u32),
            }),
    {
        RequestedState {
            device_config: DeviceConfig::default(),
            meshnet_config: None,
            old_meshnet_config: None,
            exit_node: None,
            last_exit_node: None,
            upstream_servers: None,
            wg_stun_server: None,
            keepalive_periods: FeaturePersistentKeepalive::default(),
        }
    }
}

/// The local resolver of the device, where one runs, and the descriptor of
/// the tunnel it is reached through.
#[derive(Debug, PartialEq, Eq)]
pub struct DNS<D> {
    pub resolver: Option<D>,
    pub virtual_host_tun_fd: Option<i32>,
}

/// What is known of the local resolver while it runs.
#[derive(Clone, Copy, Debug, PartialEq, Eq, Structural)]
pub struct LocalDnsResolver {
    /// Whether the resolver changes the servers it forwards to when an
    /// exit node is connected or disconnected.
    pub auto_switch_ips: bool,
}

/// What the parts that serve direct connections report.
#[derive(Debug, PartialEq, Eq)]
pub struct DirectEntities {
    /// Whether the provider of local interface addresses runs.
    pub local_interfaces_endpoint_provider: bool,
    /// Whether the STUN provider runs.
    pub stun_endpoint_provider: bool,
    /// Whether the UPnP provider runs.
    pub upnp_endpoint_provider: bool,
    /// The endpoints that the cross-ping check has found to answer.
    pub cross_ping_check: EndpointMap,
    /// The peers that have agreed to a direct connection.
    pub upgrade_sync: Vec<PublicKey>,
}

/// What the parts of the device report of themselves.
#[derive(Debug, PartialEq, Eq)]
pub struct Entities {
    /// The interface as the driver reports it.
    pub wireguard_interface: Interface,
    /// The local resolver, where one runs.
    pub dns: DNS<LocalDnsResolver>,
    /// Whether the telemetry component runs.
    pub nurse: bool,
    /// The local endpoint of the relay proxy for each peer.
    pub proxy: EndpointMap,
    /// The parts for direct connections, where the feature is on.
    pub direct: Option<DirectEntities>,
}

impl Entities {
    /// The endpoints that the cross-ping check has found to answer.
    pub fn cross_ping_check(&self) -> (r: Option<&EndpointMap>)
        ensures
            r == match self.direct {
                Some(d) => Some(&d.cross_ping_check),
                None => None,
            },
    {
        match &self.direct {
            Some(d) => Some(&d.cross_ping_check),
            None => None,
        }
    }

    /// The peers that have agreed to a direct connection.
    pub fn upgrade_sync(&self) -> (r: Option<&Vec<PublicKey>>)
        ensures
            r == match self.direct {
                Some(d) => Some(&d.upgrade_sync),
                None => None,
            },
    {
        match &self.direct {
            Some(d) => Some(&d.upgrade_sync),
            None => None,
        }
    }

    /// The endpoint providers that run.
    pub fn endpoint_providers(&self) -> (r: Vec<EndpointProvider>)
        ensures
            r@ == providers_running(self.direct),
    {
        let mut out: Vec<EndpointProvider> = Vec::new();
        match &self.direct {
            Some(d) => {
                if d.local_interfaces_endpoint_provider {
                    out.push(EndpointProvider::Local);
                }
                if d.stun_endpoint_provider {
                    out.push(EndpointProvider::Stun);
                }
                if d.upnp_endpoint_provider {
                    out.push(EndpointProvider::Upnp);
                }
            },
            None => {},
        }
        proof {
            assert(out@ =~= providers_running(self.direct));
        }
        out
    }
}

/// The providers that run, in the order local, STUN, UPnP.
pub open spec fn providers_running(direct: Option<DirectEntities>) -> Seq<EndpointProvider> {
    match direct {
        Some(d) => (if d.local_interfaces_endpoint_provider {
            seq![EndpointProvider::Local]
        } else {
            Seq::<EndpointProvider>::empty()
        }) + (if d.stun_endpoint_provider {
            seq![EndpointProvider::Stun]
        } else {
            Seq::<EndpointProvider>::empty()
        }) + (if d.upnp_endpoint_provider {
            seq![EndpointProvider::Upnp]
        } else {
            Seq::<EndpointProvider>::empty()
        }),
        None => Seq::empty(),
    }
}


/// The first of the peers that has the given key.
pub open spec fn first_peer(peers: Seq<crate::config::Peer>, key: PublicKey) -> Option<
    crate::config::Peer,
>
    decreases peers.len(),
{
    if peers.len() == 0 {
        None
    } else if peers[0].base.public_key == key {
        Some(peers[0])
    } else {
        first_peer(peers.drop_first(), key)
    }
}

/// The first peer with the given key stands where no peer before it has the key.
pub proof fn lemma_first_peer_at(peers: Seq<crate::config::Peer>, key: PublicKey, i: int)
    requires
        0 <= i <= peers.len(),
        forall|j: int| 0 <= j < i ==> (#[trigger] peers[j]).base.public_key != key,
        i < peers.len() ==> peers[i].base.public_key == key,
    ensures
        first_peer(peers, key) == if i < peers.len() {
            Some(peers[i])
        } else {
            None
        },
    decreases peers.len(),
{
    if peers.len() > 0 && i > 0 {
        let rest = peers.drop_first();
        assert(peers[0].base.public_key != key);
        assert forall|j: int| 0 <= j < i - 1 implies (#[trigger] rest[j]).base.public_key
            != key by {
            assert(rest[j] == peers[j + 1]);
        }
        lemma_first_peer_at(rest, key, i - 1);
    }
}

/// The node of the mesh that has the given key, in a mesh that may be
/// switched off.
pub open spec fn mesh_peer_of(config: Option<Config>, key: PublicKey) -> Option<crate::config::Peer> {
    match config {
        Some(c) => first_peer(c.spec_peers(), key),
        None => None,
    }
}

/// How a peer is reached: through the relay where its endpoint is the
/// proxy's local endpoint for its key, and directly otherwise.
pub open spec fn path_of(
    proxy: Seq<(PublicKey, Endpoint)>,
    key: PublicKey,
    endpoint: Option<Endpoint>,
) -> PathType {
    if endpoint is Some && endpoint_of(proxy, key) == endpoint {
        PathType::Relay
    } else {
        PathType::Direct
    }
}

/// The exit node by which a peer with the given key is recognised: the
/// one that is connected, or with none connected the one that was last.
pub open spec fn exit_node_of(rs: RequestedState, key: PublicKey) -> Option<ExitNode> {
    let candidate = if rs.exit_node is Some {
        rs.exit_node
    } else {
        rs.last_exit_node
    };
    if candidate is Some && candidate.unwrap().public_key == key {
        candidate
    } else {
        None
    }
}

/// The addresses under which a VPN exit node is reported.
pub open spec fn vpn_addresses() -> Seq<IpAddress> {
    seq![IpAddress::V4(0x0a05_0001), IpAddress::V4(0x6440_0001)]
}

/// The node that is reported for a peer of the interface: a node of the
/// mesh, as configured now or before; else the exit node; else none, for
/// a peer that serves the device alone.
pub open spec fn node_of_peer(
    rs: RequestedState,
    proxy: Seq<(PublicKey, Endpoint)>,
    peer: PeerView,
    state: Option<NodeState>,
) -> Option<NodeView> {
    let key = peer.public_key;
    let mesh = if mesh_peer_of(rs.meshnet_config, key) is Some {
        mesh_peer_of(rs.meshnet_config, key)
    } else {
        mesh_peer_of(rs.old_meshnet_config, key)
    };
    let reported = match state {
        Some(s) => s,
        None => peer.state(),
    };
    let path = path_of(proxy, key, peer.endpoint);
    match (mesh, exit_node_of(rs, key)) {
        (Some(m), _) => Some(
            NodeView {
                identifier: m.base.identifier@,
                public_key: m.base.public_key,
                state: reported,
                is_exit: rs.exit_node is Some && rs.exit_node.unwrap().public_key == key,
                is_vpn: false,
                ip_addresses: match m.base.ip_addresses {
                    Some(v) => v@,
                    None => Seq::empty(),
                },
                allowed_ips: peer.allowed_ips,
                endpoint: peer.endpoint,
                hostname: Some(m.base.hostname@),
                allow_incoming_connections: m.allow_incoming_connections,
                allow_peer_send_files: m.allow_peer_send_files,
                path,
            },
        ),
        (None, Some(e)) => Some(
            NodeView {
                identifier: e.identifier@,
                public_key: e.public_key,
                state: reported,
                is_exit: true,
                is_vpn: e.endpoint is Some,
                ip_addresses: vpn_addresses(),
                allowed_ips: peer.allowed_ips,
                endpoint: peer.endpoint,
                hostname: None,
                allow_incoming_connections: false,
                allow_peer_send_files: false,
                path,
            },
        ),
        (None, None) => None,
    }
}

/// The first of the mesh's nodes that has the given key.
fn find_mesh_peer<'a>(config: &'a Option<Config>, key: &PublicKey) -> (r: Option<
    &'a crate::config::Peer,
>)
    ensures
        match r {
            Some(p) => mesh_peer_of(*config, *key) == Some(*p),
            None => mesh_peer_of(*config, *key) is None,
        },
{
    match config {
        Some(c) => match c.find_peer(key) {
            Some(i) => {
                proof {
                    lemma_first_peer_at(c.spec_peers(), *key, i as int);
                }
                match &c.peers {
                    Some(v) => Some(&v[i]),
                    None => None,
                }
            },
            None => {
                proof {
                    lemma_first_peer_at(c.spec_peers(), *key, c.spec_peers().len() as int);
                }
                None
            },
        },
        None => None,
    }
}

/// The parts of the device and what was asked of it.
#[derive(Debug, PartialEq, Eq)]
pub struct Runtime {
    pub features: Features,
    /// What the host has asked for. The controllers work towards it, so
    /// the interface may for a while hold something else.
    pub requested_state: RequestedState,
    /// What the parts report of themselves.
    pub entities: Entities,
}

impl Runtime {
    /// The node that is reported for a peer of the interface, in the given
    /// state or, with none given, in the state that its last handshake tells.
    pub fn peer_to_node(&self, peer: &crate::uapi::Peer, state: Option<NodeState>) -> (node: Option<
        Node,
    >)
        ensures
            match node {
                Some(n) => node_of_peer(
                    self.requested_state,
                    self.entities.proxy.entries@,
                    peer@,
                    state,
                ) == Some(n@),
                None => node_of_peer(
                    self.requested_state,
                    self.entities.proxy.entries@,
                    peer@,
                    state,
                ) is None,
            },
            node matches Some(n) ==> (n.path == PathType::Relay <==> peer.endpoint is Some
                && endpoint_of(self.entities.proxy.entries@, peer.public_key) == peer.endpoint),
    {
        let key = peer.public_key;
        let exit_node: Option<&ExitNode> = match &self.requested_state.exit_node {
            Some(e) => if e.public_key == key {
                Some(e)
            } else {
                None
            },
            None => match &self.requested_state.last_exit_node {
                Some(e) => if e.public_key == key {
                    Some(e)
                } else {
                    None
                },
                None => None,
            },
        };
        let meshnet_peer = match find_mesh_peer(&self.requested_state.meshnet_config, &key) {
            Some(p) => Some(p),
            None => find_mesh_peer(&self.requested_state.old_meshnet_config, &key),
        };
        let path = match peer.endpoint {
            Some(actual) => match self.entities.proxy.get(&key) {
                Some(proxy) => if proxy == actual {
                    PathType::Relay
                } else {
                    PathType::Direct
                },
                None => PathType::Direct,
            },
            None => PathType::Direct,
        };
        let reported = match state {
            Some(s) => s,
            None => peer.state(),
        };
        match (meshnet_peer, exit_node) {
            (Some(m), _) => Some(
                Node {
                    identifier: m.base.identifier.clone(),
                    public_key: m.base.public_key,
                    state: reported,
                    is_exit: match &self.requested_state.exit_node {
                        Some(e) => e.public_key == key,
                        None => false,
                    },
                    is_vpn: false,
                    ip_addresses: match &m.base.ip_addresses {
                        Some(v) => copy_addresses(v),
                        None => Vec::new(),
                    },
                    allowed_ips: copy_nets(&peer.allowed_ips),
                    endpoint: peer.endpoint,
                    hostname: Some(m.base.hostname.clone()),
                    allow_incoming_connections: m.allow_incoming_connections,
                    allow_peer_send_files: m.allow_peer_send_files,
                    path,
                },
            ),
            (None, Some(e)) => {
                let mut ip_addresses: Vec<IpAddress> = Vec::new();
                ip_addresses.push(IpAddress::v4(10, 5, 0, 1));
                ip_addresses.push(IpAddress::v4(100, 64, 0, 1));
                proof {
                    assert(ip_addresses@ =~= vpn_addresses());
                }
                Some(
                    Node {
                        identifier: e.identifier.clone(),
                        public_key: e.public_key,
                        state: reported,
                        is_exit: true,
                        is_vpn: e.endpoint.is_some(),
                        ip_addresses,
                        allowed_ips: copy_nets(&peer.allowed_ips),
                        endpoint: peer.endpoint,
                        hostname: None,
                        allow_incoming_connections: false,
                        allow_peer_send_files: false,
                        path,
                    },
                )
            },
            (None, None) => None,
        }
    }
}

/// Path classification: the node reported for a peer is on the relayed
/// path exactly where the peer has an endpoint and it is the proxy's local
/// endpoint for the peer's key.
pub proof fn lemma_path_classification(
    rs: RequestedState,
    proxy: Seq<(PublicKey, Endpoint)>,
    peer: PeerView,
    state: Option<NodeState>,
)
    ensures
        node_of_peer(rs, proxy, peer, state) matches Some(n) ==> (n.path == PathType::Relay
            <==> peer.endpoint is Some && endpoint_of(proxy, peer.public_key) == peer.endpoint),
        node_of_peer(rs, proxy, peer, state) matches Some(n) ==> (n.path == PathType::Direct
            <==> !(peer.endpoint is Some && endpoint_of(proxy, peer.public_key) == peer.endpoint)),
{
}


/// What the device has to do next. Where an action needs more than its
/// name says, the runtime gives it on request.
#[derive(Clone, Copy, Debug, PartialEq, Eq, Structural)]
pub enum Action {
    /// Bind the resolver's sockets to the tunnel from now on, or no longer.
    SetShouldBindTun(bool),
    /// Configure the proxy with what `proxy_config` gives.
    ConfigureProxy,
    /// Configure the relay client with what `derp_config` gives.
    ConfigureDerp,
    /// Hand the relay servers of the mesh to the STUN provider.
    ConfigureStunProvider,
    /// Write what `collect_dns_records` gives into the zone `nord`.
    UpsertDnsRecords,
    /// Hand the mesh to the cross-ping check.
    ConfigureCrossPingCheck,
    /// Start the local resolver, forwarding to the upstream servers asked for.
    StartDns,
    /// Let the resolver forward to the upstream servers asked for.
    ForwardDnsToUpstream,
    /// Let the resolver forward to its default servers.
    ForwardDnsToDefault,
    /// Stop the local resolver.
    StopDns,
    /// Mark the sockets of the pool.
    SetSocketPoolFwmark(u32),
    /// Give the relay client the device's private key.
    SetDerpPrivateKey,
    /// Give the telemetry component the device's private key.
    SetNursePrivateKey,
    /// Take the peer off the firewall's list of peers let through.
    RemoveFromFirewallWhitelist(PublicKey),
    /// Reconcile the interface: make the writes that `consolidate` gives.
    Consolidate,
    /// Let the provider look for endpoint candidates now.
    TriggerEndpointDiscovery(EndpointProvider),
    /// Find out the kind of NAT, asking the server that `nat_probe_target` gives.
    LogNat,
    /// Tell the telemetry component of the new mesh.
    NotifyNurseConfig,
    /// Let the telemetry component collect now.
    TriggerNurseCollection,
    /// Let the driver drop its connected sockets.
    DropConnectedSockets,
    /// Let the STUN provider reconnect.
    ReconnectStun,
    /// Let the relay client reconnect.
    ReconnectDerp,
}

/// One action, or none.
pub open spec fn when(condition: bool, action: Action) -> Seq<Action> {
    if condition {
        seq![action]
    } else {
        Seq::empty()
    }
}

impl Runtime {
    /// Whether the mesh is switched on.
    pub open spec fn spec_meshnet_on(self) -> bool {
        self.requested_state.meshnet_config is Some
    }

    /// Whether the local resolver runs.
    pub open spec fn spec_dns_on(self) -> bool {
        self.entities.dns.resolver is Some
    }

    /// Whether the STUN provider runs.
    pub open spec fn spec_stun_on(self) -> bool {
        self.entities.direct is Some && self.entities.direct.unwrap().stun_endpoint_provider
    }

    /// The interface's keys rise.
    pub open spec fn wf(self) -> bool {
        self.entities.wireguard_interface.wf()
    }

    fn dns_on(&self) -> (r: bool)
        ensures
            r == self.spec_dns_on(),
    {
        self.entities.dns.resolver.is_some()
    }

    fn stun_on(&self) -> (r: bool)
        ensures
            r == self.spec_stun_on(),
    {
        match &self.entities.direct {
            Some(d) => d.stun_endpoint_provider,
            None => false,
        }
    }

    /// The private key that the host has asked for.
    pub fn get_private_key(&self) -> (key: SecretKey)
        ensures
            key == self.requested_state.device_config.private_key,
    {
        self.requested_state.device_config.private_key
    }

    /// Why a new private key is refused: while the mesh is on and keys are
    /// validated it must be the key that the device has, and the local
    /// resolver must not run.
    pub open spec fn private_key_refused(self, key: SecretKey) -> Option<Error> {
        if self.features.validate_keys && self.spec_meshnet_on()
            && self.requested_state.device_config.private_key != key {
            Some(Error::BadPublicKey)
        } else if self.spec_dns_on() {
            Some(Error::DnsNotDisabled)
        } else {
            None
        }
    }

    /// What `set_private_key` does.
    pub open spec fn set_private_key_post(
        pre: Runtime,
        key: SecretKey,
        post: Runtime,
        r: Result<Vec<Action>, Error>,
    ) -> bool {
        match pre.private_key_refused(key) {
            Some(e) => r == Err::<Vec<Action>, Error>(e) && post == pre,
            None => r matches Ok(actions) && actions@ == seq![Action::SetDerpPrivateKey] + when(
                pre.entities.nurse,
                Action::SetNursePrivateKey,
            ) + seq![Action::Consolidate] && post == (Runtime {
                requested_state: RequestedState {
                    device_config: DeviceConfig {
                        private_key: key,
                        ..pre.requested_state.device_config
                    },
                    ..pre.requested_state
                },
                ..pre
            }),
        }
    }

    /// Asks for another private key.
    pub fn set_private_key(&mut self, private_key: &SecretKey) -> (r: Result<Vec<Action>, Error>)
        ensures
            Self::set_private_key_post(*old(self), *private_key, *final(self), r),
            r is Ok && old(self).spec_meshnet_on() && old(self).features.validate_keys
                ==> *private_key == old(self).requested_state.device_config.private_key,
    {
        let should_validate_keys = self.features.validate_keys;
        let meshnet_is_on = self.requested_state.meshnet_config.is_some();
        let key_is_different = self.get_private_key() != *private_key;
        if should_validate_keys && meshnet_is_on && key_is_different {
            return Err(Error::BadPublicKey);
        }
        if self.dns_on() {
            return Err(Error::DnsNotDisabled);
        }
        self.requested_state.device_config.private_key = *private_key;
        let mut actions: Vec<Action> = Vec::new();
        actions.push(Action::SetDerpPrivateKey);
        if self.entities.nurse {
            actions.push(Action::SetNursePrivateKey);
        }
        actions.push(Action::Consolidate);
        proof {
            assert(actions@ =~= seq![Action::SetDerpPrivateKey] + when(
                old(self).entities.nurse,
                Action::SetNursePrivateKey,
            ) + seq![Action::Consolidate]);
        }
        Ok(actions)
    }

    /// What `set_fwmark` does.
    pub open spec fn set_fwmark_post(
        pre: Runtime,
        fwmark: u32,
        post: Runtime,
        r: Result<Vec<Action>, Error>,
    ) -> bool {
        r matches Ok(actions) && actions@ == seq![
            Action::SetSocketPoolFwmark(fwmark),
            Action::Consolidate,
        ] && post == (Runtime {
            requested_state: RequestedState {
                device_config: DeviceConfig {
                    fwmark: Some(fwmark),
                    ..pre.requested_state.device_config
                },
                ..pre.requested_state
            },
            ..pre
        })
    }

    /// Asks for a firewall mark on the packets that leave the tunnel.
    pub fn set_fwmark(&mut self, fwmark: u32) -> (r: Result<Vec<Action>, Error>)
        ensures
            Self::set_fwmark_post(*old(self), fwmark, *final(self), r),
    {
        self.requested_state.device_config.fwmark = Some(fwmark);
        let mut actions: Vec<Action> = Vec::new();
        actions.push(Action::SetSocketPoolFwmark(fwmark));
        actions.push(Action::Consolidate);
        proof {
            assert(actions@ =~= seq![Action::SetSocketPoolFwmark(fwmark), Action::Consolidate]);
        }
        Ok(actions)
    }

    /// The writes that reconcile the interface with what is asked for; and
    /// `BadAllowedIps`, with nothing to write, where an allowed network is
    /// asked for two peers. Once the writes are made, no allowed network
    /// belongs to two peers of the interface, and reconciling again needs
    /// no write.
    pub fn consolidate(&self) -> (r: Result<Vec<crate::wg_controller::UapiOp>, Error>)
        requires
            self.wf(),
        ensures
            match r {
                Ok(ops) => {
                    let desired = crate::wg_controller::desired_interface(
                        self.requested_state,
                        self.entities,
                    );
                    let after = crate::wg_controller::apply_all(
                        self.entities.wireguard_interface@,
                        crate::wg_controller::op_views(ops@),
                    );
                    &&& allowed_ips_disjoint(desired_peers(self.requested_state, self.entities))
                    &&& crate::wg_controller::op_views(ops@) == crate::wg_controller::diff(
                        desired,
                        self.entities.wireguard_interface@,
                    )
                    &&& allowed_ips_disjoint(after.peers)
                    &&& crate::wg_controller::diff(desired, after) == Seq::<
                        crate::wg_controller::OpView,
                    >::empty()
                },
                Err(e) => e == Error::ControllerError(crate::wg_controller::Error::BadAllowedIps)
                    && !allowed_ips_disjoint(desired_peers(self.requested_state, self.entities)),
            },
    {
        match crate::wg_controller::consolidate_wg_state(&self.requested_state, &self.entities) {
            Ok(ops) => Ok(ops),
            Err(e) => Err(Error::ControllerError(e)),
        }
    }
}


/// A request to look for endpoint candidates, for each provider.
pub open spec fn triggers(providers: Seq<EndpointProvider>) -> Seq<Action> {
    Seq::new(providers.len(), |i: int| Action::TriggerEndpointDiscovery(providers[i]))
}

/// Where the first of the servers with the lowest weight stands.
pub open spec fn min_weight_index(servers: Seq<Server>) -> int
    decreases servers.len(),
{
    if servers.len() <= 1 {
        0
    } else {
        let m = min_weight_index(servers.drop_last());
        if servers.last().weight < servers[m].weight {
            servers.len() - 1
        } else {
            m
        }
    }
}

/// The endpoint that is asked about the kind of NAT: the STUN port of the
/// relay server with the lowest weight, and of the first of several such.
pub open spec fn nat_target(config: Option<Config>) -> Option<Endpoint> {
    if config is Some && config.unwrap().derp_servers is Some
        && config.unwrap().derp_servers.unwrap()@.len() > 0 {
        let servers = config.unwrap().derp_servers.unwrap()@;
        let s = servers[min_weight_index(servers)];
        Some(Endpoint { ip: IpAddress::V4(s.ipv4), port: s.stun_port, scope_id: 0 })
    } else {
        None
    }
}

/// The place so found holds a weight that none is below, and that none
/// before it equals.
pub proof fn lemma_min_weight_index(servers: Seq<Server>)
    requires
        servers.len() > 0,
    ensures
        0 <= min_weight_index(servers) < servers.len(),
        forall|j: int|
            0 <= j < servers.len() ==> servers[min_weight_index(servers)].weight <= (
            #[trigger] servers[j]).weight,
        forall|j: int|
            0 <= j < min_weight_index(servers) ==> servers[min_weight_index(servers)].weight < (
            #[trigger] servers[j]).weight,
    decreases servers.len(),
{
    if servers.len() > 1 {
        let front = servers.drop_last();
        lemma_min_weight_index(front);
        let m = min_weight_index(front);
        assert(front[m] == servers[m]);
        assert forall|j: int| 0 <= j < servers.len() implies servers[min_weight_index(
            servers,
        )].weight <= (#[trigger] servers[j]).weight by {
            if j < front.len() {
                assert(front[j] == servers[j]);
            }
        }
        assert forall|j: int| 0 <= j < min_weight_index(servers) implies servers[min_weight_index(
            servers,
        )].weight < (#[trigger] servers[j]).weight by {
            assert(front[j] == servers[j]);
        }
    }
}

/// The keys of some nodes of the mesh, in their order.
pub open spec fn peer_keys(peers: Seq<crate::config::Peer>) -> Seq<PublicKey> {
    Seq::new(peers.len(), |i: int| peers[i].base.public_key)
}

/// What the proxy is configured with.
#[derive(Debug, PartialEq, Eq)]
pub struct ProxyConfig {
    /// The port of the interface, to which the proxy hands what the relay brings.
    pub wg_port: Option<u16>,
    /// The peers for which the proxy keeps a local endpoint.
    pub peers: Vec<PublicKey>,
}

/// What the relay client is configured with.
#[derive(Debug, PartialEq, Eq)]
pub struct DerpConfig {
    pub secret_key: SecretKey,
    pub servers: Vec<Server>,
    /// The peers whose messages are let through.
    pub allowed_pk: Vec<PublicKey>,
    /// Seconds after which an attempt to connect is given up.
    pub timeout_secs: u64,
    pub server_keepalives: Option<FeatureDerp>,
    pub enable_polling: bool,
    pub meshnet_peers: Vec<PublicKey>,
}

fn keys_of(peers: &Option<Vec<crate::config::Peer>>) -> (keys: Vec<PublicKey>)
    ensures
        keys@ == peer_keys(
            match *peers {
                Some(v) => v@,
                None => Seq::empty(),
            },
        ),
{
    let mut out: Vec<PublicKey> = Vec::new();
    match peers {
        Some(v) => {
            let mut i: usize = 0;
            while i < v.len()
                invariant
                    i <= v@.len(),
                    out@.len() == i,
                    forall|j: int| 0 <= j < i ==> out@[j] == (#[trigger] v@[j]).base.public_key,
                decreases v@.len() - i,
            {
                out.push(v[i].base.public_key);
                i = i + 1;
            }
            proof {
                assert(out@ =~= peer_keys(v@));
            }
        },
        None => {
            proof {
                assert(out@ =~= peer_keys(Seq::empty()));
            }
        },
    }
    out
}

fn copy_server(s: &Server) -> (r: Server)
    ensures
        r == *s,
{
    Server {
        region_code: s.region_code.clone(),
        name: s.name.clone(),
        hostname: s.hostname.clone(),
        ipv4: s.ipv4,
        relay_port: s.relay_port,
        stun_port: s.stun_port,
        stun_plaintext_port: s.stun_plaintext_port,
        public_key: s.public_key,
        weight: s.weight,
        use_plain_text: s.use_plain_text,
    }
}

fn copy_servers(servers: &Option<Vec<Server>>) -> (r: Vec<Server>)
    ensures
        r@ == match *servers {
            Some(v) => v@,
            None => Seq::empty(),
        },
{
    let mut out: Vec<Server> = Vec::new();
    match servers {
        Some(v) => {
            let mut i: usize = 0;
            while i < v.len()
                invariant
                    i <= v@.len(),
                    out@.len() == i,
                    forall|j: int| 0 <= j < i ==> out@[j] == v@[j],
                decreases v@.len() - i,
            {
                out.push(copy_server(&v[i]));
                i = i + 1;
            }
            proof {
                assert(out@ =~= v@);
            }
        },
        None => {},
    }
    out
}

fn has_mesh_peer(config: &Option<Config>, key: &PublicKey) -> (r: bool)
    ensures
        r == mesh_has_peer(*config, *key),
{
    match config {
        Some(c) => c.has_peer(key),
        None => false,
    }
}

/// The state once a mesh is asked for: the mesh asked for before is kept
/// beside the new one.
pub open spec fn with_config(rs: RequestedState, config: Option<Config>) -> RequestedState {
    RequestedState { old_meshnet_config: rs.meshnet_config, meshnet_config: config, ..rs }
}

/// Whether the exit node was a node of the mesh asked for before and is
/// none of the mesh asked for now.
pub open spec fn exit_left_mesh(rs: RequestedState) -> bool {
    rs.exit_node is Some && mesh_has_peer(rs.old_meshnet_config, rs.exit_node.unwrap().public_key)
        && !mesh_has_peer(rs.meshnet_config, rs.exit_node.unwrap().public_key)
}

/// The state with the exit node dropped where it has left the mesh.
pub open spec fn demote_exit(rs: RequestedState) -> RequestedState {
    if exit_left_mesh(rs) {
        RequestedState { exit_node: None, ..rs }
    } else {
        rs
    }
}

/// Appends the action where the condition holds.
fn push_when(actions: &mut Vec<Action>, condition: bool, action: Action)
    ensures
        final(actions)@ == old(actions)@ + when(condition, action),
{
    let ghost before = actions@;
    if condition {
        actions.push(action);
    }
    proof {
        assert(actions@ =~= before + when(condition, action));
    }
}

impl Runtime {
    /// The endpoint that is asked about the kind of NAT.
    pub fn nat_probe_target(&self) -> (target: Option<Endpoint>)
        ensures
            target == nat_target(self.requested_state.meshnet_config),
            target is Some ==> ({
                let servers = self.requested_state.meshnet_config.unwrap().derp_servers.unwrap()@;
                let i = min_weight_index(servers);
                &&& 0 <= i < servers.len()
                &&& forall|j: int|
                    0 <= j < servers.len() ==> servers[i].weight <= (#[trigger] servers[j]).weight
                &&& forall|j: int| 0 <= j < i ==> servers[i].weight < (#[trigger] servers[j]).weight
            }),
    {
        match &self.requested_state.meshnet_config {
            Some(c) => match &c.derp_servers {
                Some(v) => {
                    if v.len() == 0 {
                        return None;
                    }
                    let mut best: usize = 0;
                    let mut i: usize = 1;
                    proof {
                        assert(v@.subrange(0, 1).len() == 1);
                    }
                    while i < v.len()
                        invariant
                            1 <= i <= v@.len(),
                            best == min_weight_index(v@.subrange(0, i as int)),
                            best < i,
                        decreases v@.len() - i,
                    {
                        proof {
                            let next = v@.subrange(0, i + 1);
                            assert(next.drop_last() =~= v@.subrange(0, i as int));
                            assert(next.last() == v@[i as int]);
                            assert(next[best as int] == v@[best as int]);
                        }
                        if v[i].weight < v[best].weight {
                            best = i;
                        }
                        i = i + 1;
                    }
                    proof {
                        assert(v@.subrange(0, v@.len() as int) =~= v@);
                        lemma_min_weight_index(v@);
                    }
                    Some(
                        Endpoint {
                            ip: IpAddress::V4(v[best].ipv4),
                            port: v[best].stun_port,
                            scope_id: 0,
                        },
                    )
                },
                None => None,
            },
            None => None,
        }
    }

    /// What the proxy is configured with: while the mesh is on, the port of
    /// the interface and the nodes of the mesh; else nothing.
    pub fn proxy_config(&self) -> (c: ProxyConfig)
        ensures
            match self.requested_state.meshnet_config {
                Some(m) => c.wg_port == self.entities.wireguard_interface.listen_port && c.peers@
                    == peer_keys(m.spec_peers()),
                None => c.wg_port is None && c.peers@.len() == 0,
            },
    {
        match &self.requested_state.meshnet_config {
            Some(m) => ProxyConfig {
                wg_port: self.entities.wireguard_interface.listen_port,
                peers: keys_of(&m.peers),
            },
            None => ProxyConfig { wg_port: None, peers: Vec::new() },
        }
    }

    /// What the relay client is configured with: nothing while the mesh is
    /// off or the interface has no private key; else the interface's key,
    /// the relay servers of the mesh, and the nodes of the mesh as the
    /// peers to let through.
    pub fn derp_config(&self) -> (c: Option<DerpConfig>)
        ensures
            match (
                self.requested_state.meshnet_config,
                self.entities.wireguard_interface.private_key,
            ) {
                (Some(m), Some(k)) => c matches Some(d) && ({
                    &&& d.secret_key == k
                    &&& d.servers@ == (match m.derp_servers {
                        Some(v) => v@,
                        None => Seq::empty(),
                    })
                    &&& d.allowed_pk@ == peer_keys(m.spec_peers())
                    &&& d.meshnet_peers@ == peer_keys(m.spec_peers())
                    &&& d.timeout_secs == 10
                    &&& d.server_keepalives == self.features.derp
                    &&& d.enable_polling == (self.features.derp is Some
                        && self.features.derp.unwrap().enable_polling == Some(true))
                }),
                _ => c is None,
            },
    {
        match (&self.requested_state.meshnet_config, self.entities.wireguard_interface.private_key) {
            (Some(m), Some(k)) => Some(
                DerpConfig {
                    secret_key: k,
                    servers: copy_servers(&m.derp_servers),
                    allowed_pk: keys_of(&m.peers),
                    timeout_secs: 10,
                    server_keepalives: self.features.derp,
                    enable_polling: match self.features.derp {
                        Some(d) => match d.enable_polling {
                            Some(b) => b,
                            None => false,
                        },
                        None => false,
                    },
                    meshnet_peers: keys_of(&m.peers),
                },
            ),
            _ => None,
        }
    }

    fn trigger_actions(&self, actions: &mut Vec<Action>)
        ensures
            final(actions)@ == old(actions)@ + triggers(providers_running(self.entities.direct)),
    {
        let ghost before = actions@;
        let providers = self.entities.endpoint_providers();
        let mut i: usize = 0;
        while i < providers.len()
            invariant
                i <= providers@.len(),
                providers@ == providers_running(self.entities.direct),
                actions@.len() == before.len() + i,
                forall|j: int| 0 <= j < before.len() ==> actions@[j] == before[j],
                forall|j: int|
                    0 <= j < i ==> actions@[before.len() + j] == Action::TriggerEndpointDiscovery(
                        #[trigger] providers@[j],
                    ),
            decreases providers@.len() - i,
        {
            actions.push(Action::TriggerEndpointDiscovery(providers[i]));
            i = i + 1;
        }
        proof {
            assert(actions@ =~= before + triggers(providers_running(self.entities.direct)));
        }
    }

    fn config_actions(&self) -> (actions: Vec<Action>)
        ensures
            actions@ == self.set_config_actions(),
    {
        let mut actions: Vec<Action> = Vec::new();
        actions.push(Action::ConfigureProxy);
        if self.requested_state.meshnet_config.is_some() {
            actions.push(Action::ConfigureDerp);
            push_when(&mut actions, self.stun_on(), Action::ConfigureStunProvider);
            push_when(&mut actions, self.dns_on(), Action::UpsertDnsRecords);
        } else {
            push_when(&mut actions, self.dns_on(), Action::UpsertDnsRecords);
            actions.push(Action::ConfigureDerp);
            push_when(&mut actions, self.stun_on(), Action::ConfigureStunProvider);
        }
        let ghost head = actions@;
        push_when(&mut actions, self.entities.direct.is_some(), Action::ConfigureCrossPingCheck);
        actions.push(Action::Consolidate);
        self.trigger_actions(&mut actions);
        push_when(&mut actions, self.nat_probe_target().is_some(), Action::LogNat);
        push_when(&mut actions, self.features.nurse, Action::NotifyNurseConfig);
        proof {
            let rest = when(self.entities.direct is Some, Action::ConfigureCrossPingCheck)
                + seq![Action::Consolidate] + triggers(providers_running(self.entities.direct))
                + when(nat_target(self.requested_state.meshnet_config) is Some, Action::LogNat)
                + when(self.features.nurse, Action::NotifyNurseConfig);
            assert(actions@ =~= head + rest);
            if self.spec_meshnet_on() {
                assert(head =~= seq![Action::ConfigureProxy, Action::ConfigureDerp] + when(
                    self.spec_stun_on(),
                    Action::ConfigureStunProvider,
                ) + when(self.spec_dns_on(), Action::UpsertDnsRecords));
            } else {
                assert(head =~= seq![Action::ConfigureProxy] + when(
                    self.spec_dns_on(),
                    Action::UpsertDnsRecords,
                ) + seq![Action::ConfigureDerp] + when(
                    self.spec_stun_on(),
                    Action::ConfigureStunProvider,
                ));
            }
            assert(actions@ =~= self.set_config_actions());
        }
        actions
    }

    /// Whether a mesh is refused: while keys are validated, its own public
    /// key must belong to the device's private key.
    pub open spec fn config_refused(self, config: Option<Config>) -> bool {
        config is Some && self.features.validate_keys && config.unwrap().this.public_key
            != self.requested_state.device_config.private_key.spec_public()
    }

    /// What is done once a mesh is asked for.
    pub open spec fn set_config_actions(self) -> Seq<Action> {
        let rest = when(self.entities.direct is Some, Action::ConfigureCrossPingCheck)
            + seq![Action::Consolidate] + triggers(providers_running(self.entities.direct)) + when(
            nat_target(self.requested_state.meshnet_config) is Some,
            Action::LogNat,
        ) + when(self.features.nurse, Action::NotifyNurseConfig);
        if self.spec_meshnet_on() {
            seq![Action::ConfigureProxy, Action::ConfigureDerp] + when(
                self.spec_stun_on(),
                Action::ConfigureStunProvider,
            ) + when(self.spec_dns_on(), Action::UpsertDnsRecords) + rest
        } else {
            seq![Action::ConfigureProxy] + when(self.spec_dns_on(), Action::UpsertDnsRecords)
                + seq![Action::ConfigureDerp] + when(
                self.spec_stun_on(),
                Action::ConfigureStunProvider,
            ) + rest
        }
    }

    /// What `set_config` does.
    pub open spec fn set_config_post(
        pre: Runtime,
        config: Option<Config>,
        post: Runtime,
        r: Result<Vec<Action>, Error>,
    ) -> bool {
        if pre.config_refused(config) {
            r == Err::<Vec<Action>, Error>(Error::BadPublicKey) && post == pre
        } else {
            let taken = Runtime {
                requested_state: with_config(pre.requested_state, config),
                ..pre
            };
            if pre.entities.wireguard_interface.listen_port is None {
                r == Err::<Vec<Action>, Error>(Error::Adapter) && post == taken
            } else if pre.entities.wireguard_interface.private_key is None {
                r == Err::<Vec<Action>, Error>(Error::BadPrivateKey) && post == taken
            } else {
                &&& post == (Runtime {
                    requested_state: demote_exit(taken.requested_state),
                    ..pre
                })
                &&& r matches Ok(actions) && actions@ == post.set_config_actions()
            }
        }
    }

    /// Asks for a mesh, or with `None` switches the mesh off.
    ///
    /// A mesh whose own public key does not belong to the device's private
    /// key is refused with `BadPublicKey` while keys are validated, and
    /// nothing changes. Else the mesh is taken. Then an interface without a
    /// listen port gives `Adapter`, and one without a private key
    /// `BadPrivateKey`. Else the exit node is dropped where it was a node of
    /// the former mesh and is none of the new one, and the actions follow.
    pub fn set_config(&mut self, config: Option<Config>) -> (r: Result<Vec<Action>, Error>)
        ensures
            Self::set_config_post(*old(self), config, *final(self), r),
            r is Ok && config is Some && old(self).features.validate_keys
                ==> config.unwrap().this.public_key
                == old(self).requested_state.device_config.private_key.spec_public(),
    {
        match &config {
            Some(c) => {
                let keys_match = c.this.public_key == self.get_private_key().public();
                if self.features.validate_keys && !keys_match {
                    return Err(Error::BadPublicKey);
                }
            },
            None => {},
        }
        let previous = self.requested_state.meshnet_config.take();
        self.requested_state.old_meshnet_config = previous;
        self.requested_state.meshnet_config = config;
        if self.entities.wireguard_interface.listen_port.is_none() {
            return Err(Error::Adapter);
        }
        if self.entities.wireguard_interface.private_key.is_none() {
            return Err(Error::BadPrivateKey);
        }
        let demote = match &self.requested_state.exit_node {
            Some(e) => has_mesh_peer(&self.requested_state.old_meshnet_config, &e.public_key)
                && !has_mesh_peer(&self.requested_state.meshnet_config, &e.public_key),
            None => false,
        };
        if demote {
            self.requested_state.exit_node = None;
        }
        let actions = self.config_actions();
        Ok(actions)
    }
}


/// The state with the given exit node connected.
pub open spec fn with_exit(rs: RequestedState, exit_node: ExitNode) -> RequestedState {
    RequestedState { exit_node: Some(exit_node), ..rs }
}

/// The state with no exit node connected; the one that was is kept as the last.
pub open spec fn without_exit(rs: RequestedState) -> RequestedState {
    RequestedState { exit_node: None, last_exit_node: rs.exit_node, ..rs }
}

impl Runtime {
    /// Whether the resolver runs and changes its servers with the exit node.
    pub open spec fn spec_dns_switches(self) -> bool {
        self.entities.dns.resolver is Some && self.entities.dns.resolver.unwrap().auto_switch_ips
    }

    fn dns_switches(&self) -> (r: bool)
        ensures
            r == self.spec_dns_switches(),
    {
        match self.entities.dns.resolver {
            Some(d) => d.auto_switch_ips,
            None => false,
        }
    }

    /// Why an exit node is refused: one that is no node of the mesh needs
    /// an endpoint, and no allowed network may be asked for two peers.
    pub open spec fn exit_refused(self, exit_node: ExitNode) -> Option<Error> {
        if !mesh_has_peer(self.requested_state.meshnet_config, exit_node.public_key)
            && exit_node.endpoint is None {
            Some(Error::EndpointNotProvided)
        } else if !allowed_ips_disjoint(
            desired_peers(with_exit(self.requested_state, exit_node), self.entities),
        ) {
            Some(Error::ControllerError(crate::wg_controller::Error::BadAllowedIps))
        } else {
            None
        }
    }

    /// What `connect_exit_node` does.
    pub open spec fn connect_exit_node_post(
        pre: Runtime,
        exit_node: ExitNode,
        post: Runtime,
        r: Result<Vec<Action>, Error>,
    ) -> bool {
        match pre.exit_refused(exit_node) {
            Some(e) => r == Err::<Vec<Action>, Error>(e) && post == pre,
            None => {
                &&& post == (Runtime {
                    requested_state: with_exit(pre.requested_state, exit_node),
                    ..pre
                })
                &&& r matches Ok(actions) && actions@ == seq![Action::SetShouldBindTun(true)]
                    + when(
                    mesh_has_peer(pre.requested_state.meshnet_config, exit_node.public_key)
                        && pre.spec_dns_switches(),
                    Action::ForwardDnsToDefault,
                ) + seq![Action::Consolidate]
            },
        }
    }

    /// Connects an exit node: a node of the mesh, which then routes
    /// everything, or with an endpoint a VPN server.
    ///
    /// Refused with `EndpointNotProvided` is a node that is none of the mesh
    /// and has no endpoint, and with `BadAllowedIps` one by which an allowed
    /// network would be asked for two peers. A refusal changes nothing.
    pub fn connect_exit_node(&mut self, exit_node: ExitNode) -> (r: Result<Vec<Action>, Error>)
        ensures
            Self::connect_exit_node_post(*old(self), exit_node, *final(self), r),
    {
        let is_meshnet_exit_node = has_mesh_peer(
            &self.requested_state.meshnet_config,
            &exit_node.public_key,
        );
        if !is_meshnet_exit_node && exit_node.endpoint.is_none() {
            return Err(Error::EndpointNotProvided);
        }
        let previous = self.requested_state.exit_node.take();
        self.requested_state.exit_node = Some(exit_node);
        let desired = crate::wg_controller::build_requested_peers_list(
            &self.requested_state,
            &self.entities,
        );
        if !crate::wg_controller::check_allowed_ips_correctness(&desired.peers) {
            self.requested_state.exit_node = previous;
            return Err(Error::ControllerError(crate::wg_controller::Error::BadAllowedIps));
        }
        let mut actions: Vec<Action> = Vec::new();
        actions.push(Action::SetShouldBindTun(true));
        push_when(
            &mut actions,
            is_meshnet_exit_node && self.dns_switches(),
            Action::ForwardDnsToDefault,
        );
        actions.push(Action::Consolidate);
        proof {
            assert(actions@ =~= seq![Action::SetShouldBindTun(true)] + when(
                is_meshnet_exit_node && self.spec_dns_switches(),
                Action::ForwardDnsToDefault,
            ) + seq![Action::Consolidate]);
        }
        Ok(actions)
    }

    /// What is done once the exit node is disconnected.
    pub open spec fn disconnect_actions(self) -> Seq<Action> {
        seq![Action::SetShouldBindTun(false)] + when(
            self.spec_dns_switches() && self.requested_state.upstream_servers is Some,
            Action::ForwardDnsToUpstream,
        ) + seq![Action::Consolidate]
    }

    /// What `disconnect_exit_nodes` does.
    pub open spec fn disconnect_exit_nodes_post(
        pre: Runtime,
        post: Runtime,
        r: Result<Vec<Action>, Error>,
    ) -> bool {
        if pre.requested_state.exit_node is Some {
            &&& post == (Runtime { requested_state: without_exit(pre.requested_state), ..pre })
            &&& r matches Ok(actions) && actions@ == pre.disconnect_actions()
        } else {
            &&& post == pre
            &&& r matches Ok(actions) && actions@.len() == 0
        }
    }

    /// Disconnects the exit node, whichever it is: a VPN server is left, and
    /// a node of the mesh routes its own addresses alone again.
    pub fn disconnect_exit_nodes(&mut self) -> (r: Result<Vec<Action>, Error>)
        ensures
            Self::disconnect_exit_nodes_post(*old(self), *final(self), r),
    {
        let mut actions: Vec<Action> = Vec::new();
        if self.requested_state.exit_node.is_some() {
            let exit_node = self.requested_state.exit_node.take();
            self.requested_state.last_exit_node = exit_node;
            actions.push(Action::SetShouldBindTun(false));
            push_when(
                &mut actions,
                self.dns_switches() && self.requested_state.upstream_servers.is_some(),
                Action::ForwardDnsToUpstream,
            );
            actions.push(Action::Consolidate);
            proof {
                assert(actions@ =~= old(self).disconnect_actions());
            }
        }
        Ok(actions)
    }

    /// What `disconnect_exit_node` does.
    pub open spec fn disconnect_exit_node_post(
        pre: Runtime,
        node_key: PublicKey,
        post: Runtime,
        r: Result<Vec<Action>, Error>,
    ) -> bool {
        if pre.requested_state.exit_node is Some && pre.requested_state.exit_node.unwrap().public_key
            == node_key {
            &&& post == (Runtime { requested_state: without_exit(pre.requested_state), ..pre })
            &&& r matches Ok(actions) && actions@ == seq![
                Action::RemoveFromFirewallWhitelist(node_key),
            ] + pre.disconnect_actions()
        } else {
            r == Err::<Vec<Action>, Error>(Error::InvalidNode) && post == pre
        }
    }

    /// Disconnects the exit node with the given key; `InvalidNode` where
    /// the exit node has another key or there is none.
    pub fn disconnect_exit_node(&mut self, node_key: &PublicKey) -> (r: Result<Vec<Action>, Error>)
        ensures
            Self::disconnect_exit_node_post(*old(self), *node_key, *final(self), r),
    {
        let matches_key = match &self.requested_state.exit_node {
            Some(e) => e.public_key == *node_key,
            None => false,
        };
        if !matches_key {
            return Err(Error::InvalidNode);
        }
        let mut actions: Vec<Action> = Vec::new();
        actions.push(Action::RemoveFromFirewallWhitelist(*node_key));
        match self.disconnect_exit_nodes() {
            Ok(rest) => {
                let mut i: usize = 0;
                while i < rest.len()
                    invariant
                        i <= rest@.len(),
                        actions@ == seq![Action::RemoveFromFirewallWhitelist(*node_key)]
                            + rest@.subrange(0, i as int),
                    decreases rest@.len() - i,
                {
                    actions.push(rest[i]);
                    proof {
                        assert(rest@.subrange(0, i + 1) =~= rest@.subrange(0, i as int).push(
                            rest@[i as int],
                        ));
                        assert(actions@ =~= seq![Action::RemoveFromFirewallWhitelist(*node_key)]
                            + rest@.subrange(0, i + 1));
                    }
                    i = i + 1;
                }
                proof {
                    assert(rest@.subrange(0, rest@.len() as int) =~= rest@);
                }
                Ok(actions)
            },
            Err(e) => Err(e),
        }
    }

    /// What `start_dns` does.
    pub open spec fn start_dns_post(
        pre: Runtime,
        upstream: Vec<IpAddress>,
        post: Runtime,
        r: Result<Vec<Action>, Error>,
    ) -> bool {
        &&& post == (Runtime {
            requested_state: RequestedState {
                upstream_servers: Some(upstream),
                ..pre.requested_state
            },
            ..pre
        })
        &&& if pre.entities.wireguard_interface.private_key is None {
            r matches Err(Error::AdapterConfig(m)) && m@ == "Adapter does not have a private key"@
        } else if pre.spec_dns_on() {
            r matches Ok(actions) && actions@ == seq![
                Action::ForwardDnsToUpstream,
                Action::UpsertDnsRecords,
                Action::Consolidate,
            ]
        } else if pre.entities.wireguard_interface.listen_port is None {
            r == Err::<Vec<Action>, Error>(Error::Adapter)
        } else {
            r matches Ok(actions) && actions@ == seq![
                Action::StartDns,
                Action::UpsertDnsRecords,
                Action::Consolidate,
            ]
        }
    }

    /// Enables the local resolver, which answers for the zone of the mesh
    /// and forwards everything else to the given servers.
    pub fn start_dns(&mut self, upstream_dns_servers: Vec<IpAddress>) -> (r: Result<
        Vec<Action>,
        Error,
    >)
        ensures
            Self::start_dns_post(*old(self), upstream_dns_servers, *final(self), r),
    {
        self.requested_state.upstream_servers = Some(upstream_dns_servers);
        if self.entities.wireguard_interface.private_key.is_none() {
            return Err(
                Error::AdapterConfig(String::from_str("Adapter does not have a private key")),
            );
        }
        let mut actions: Vec<Action> = Vec::new();
        if self.dns_on() {
            actions.push(Action::ForwardDnsToUpstream);
        } else {
            if self.entities.wireguard_interface.listen_port.is_none() {
                return Err(Error::Adapter);
            }
            actions.push(Action::StartDns);
        }
        actions.push(Action::UpsertDnsRecords);
        actions.push(Action::Consolidate);
        proof {
            if old(self).spec_dns_on() {
                assert(actions@ =~= seq![
                    Action::ForwardDnsToUpstream,
                    Action::UpsertDnsRecords,
                    Action::Consolidate,
                ]);
            } else {
                assert(actions@ =~= seq![
                    Action::StartDns,
                    Action::UpsertDnsRecords,
                    Action::Consolidate,
                ]);
            }
        }
        Ok(actions)
    }

    /// What `stop_dns` does.
    pub open spec fn stop_dns_post(pre: Runtime, post: Runtime, r: Result<Vec<Action>, Error>) -> bool {
        &&& post == (Runtime {
            requested_state: RequestedState { upstream_servers: None, ..pre.requested_state },
            ..pre
        })
        &&& r matches Ok(actions) && actions@ == when(pre.spec_dns_on(), Action::StopDns)
            + seq![Action::Consolidate]
    }

    /// Disables the local resolver.
    pub fn stop_dns(&mut self) -> (r: Result<Vec<Action>, Error>)
        ensures
            Self::stop_dns_post(*old(self), *final(self), r),
    {
        self.requested_state.upstream_servers = None;
        let mut actions: Vec<Action> = Vec::new();
        push_when(&mut actions, self.dns_on(), Action::StopDns);
        actions.push(Action::Consolidate);
        proof {
            assert(actions@ =~= when(old(self).spec_dns_on(), Action::StopDns)
                + seq![Action::Consolidate]);
        }
        Ok(actions)
    }

    /// What `notify_network_change` does.
    pub open spec fn notify_network_change_post(
        pre: Runtime,
        post: Runtime,
        r: Result<Vec<Action>, Error>,
    ) -> bool {
        &&& post == pre
        &&& r matches Ok(actions) && actions@ == seq![Action::DropConnectedSockets] + when(
            pre.spec_stun_on(),
            Action::ReconnectStun,
        ) + seq![Action::ReconnectDerp] + when(
            nat_target(pre.requested_state.meshnet_config) is Some,
            Action::LogNat,
        )
    }

    /// The device has moved to another network.
    pub fn notify_network_change(&mut self) -> (r: Result<Vec<Action>, Error>)
        ensures
            Self::notify_network_change_post(*old(self), *final(self), r),
    {
        let mut actions: Vec<Action> = Vec::new();
        actions.push(Action::DropConnectedSockets);
        push_when(&mut actions, self.stun_on(), Action::ReconnectStun);
        actions.push(Action::ReconnectDerp);
        push_when(&mut actions, self.nat_probe_target().is_some(), Action::LogNat);
        proof {
            assert(actions@ =~= seq![Action::DropConnectedSockets] + when(
                self.spec_stun_on(),
                Action::ReconnectStun,
            ) + seq![Action::ReconnectDerp] + when(
                nat_target(self.requested_state.meshnet_config) is Some,
                Action::LogNat,
            ));
        }
        Ok(actions)
    }

    /// What `trigger_analytics_event` does.
    pub open spec fn trigger_analytics_event_post(pre: Runtime, r: Result<Vec<Action>, Error>) -> bool {
        if pre.features.nurse {
            r matches Ok(actions) && actions@ == seq![Action::TriggerNurseCollection]
        } else {
            r == Err::<Vec<Action>, Error>(Error::NotStarted)
        }
    }

    /// Lets the telemetry component collect now; `NotStarted` where the
    /// feature is off.
    pub fn trigger_analytics_event(&self) -> (r: Result<Vec<Action>, Error>)
        ensures
            Self::trigger_analytics_event_post(*self, r),
    {
        if self.features.nurse {
            let mut actions: Vec<Action> = Vec::new();
            actions.push(Action::TriggerNurseCollection);
            Ok(actions)
        } else {
            Err(Error::NotStarted)
        }
    }
}

/// Key agreement: where `set_config` takes a mesh while keys are
/// validated, the mesh's own public key belongs to the device's private key.
pub proof fn lemma_key_agreement(
    pre: Runtime,
    config: Config,
    post: Runtime,
    r: Result<Vec<Action>, Error>,
)
    requires
        Runtime::set_config_post(pre, Some(config), post, r),
        r is Ok,
        pre.features.validate_keys,
    ensures
        config.this.public_key == pre.requested_state.device_config.private_key.spec_public(),
        post.requested_state.device_config.private_key
            == pre.requested_state.device_config.private_key,
{
}

/// Key agreement: where `set_private_key` takes a key while the mesh is on
/// and keys are validated, it is the key that the device has.
pub proof fn lemma_private_key_under_mesh(
    pre: Runtime,
    key: SecretKey,
    post: Runtime,
    r: Result<Vec<Action>, Error>,
)
    requires
        Runtime::set_private_key_post(pre, key, post, r),
        r is Ok,
        pre.features.validate_keys,
        pre.requested_state.meshnet_config is Some,
    ensures
        key == pre.requested_state.device_config.private_key,
{
}

/// Exit demote: where the mesh is switched off, an exit node that was a
/// node of the mesh is dropped, and any other is kept.
pub proof fn lemma_exit_demote(pre: Runtime, post: Runtime, r: Result<Vec<Action>, Error>)
    requires
        Runtime::set_config_post(pre, None, post, r),
        r is Ok,
        pre.requested_state.exit_node is Some,
    ensures
        mesh_has_peer(
            pre.requested_state.meshnet_config,
            pre.requested_state.exit_node.unwrap().public_key,
        ) ==> post.requested_state.exit_node is None,
        !mesh_has_peer(
            pre.requested_state.meshnet_config,
            pre.requested_state.exit_node.unwrap().public_key,
        ) ==> post.requested_state.exit_node == pre.requested_state.exit_node,
{
}

/// A refused exit node leaves the exit node as it was.
pub proof fn lemma_refused_exit_changes_nothing(
    pre: Runtime,
    exit_node: ExitNode,
    post: Runtime,
    r: Result<Vec<Action>, Error>,
)
    requires
        Runtime::connect_exit_node_post(pre, exit_node, post, r),
        !allowed_ips_disjoint(desired_peers(with_exit(pre.requested_state, exit_node), pre.entities)),
    ensures
        r is Err,
        post.requested_state.exit_node == pre.requested_state.exit_node,
        r != Err::<Vec<Action>, Error>(Error::EndpointNotProvided) ==> r == Err::<
            Vec<Action>,
            Error,
        >(Error::ControllerError(crate::wg_controller::Error::BadAllowedIps)),
{
}


/// The names of the mesh with their addresses, each as `(hostname, addresses)`.
pub type Records = Vec<(String, Vec<IpAddress>)>;

/// The zone in which the names of the mesh are answered.
pub const DNS_ZONE: &'static str = "nord";

/// The record of a node: its name with its addresses, where it has any.
pub open spec fn record_of(base: PeerBase) -> Option<(Seq<char>, Seq<IpAddress>)> {
    match base.ip_addresses {
        Some(v) => Some((base.hostname@, v@)),
        None => None,
    }
}

/// The records of some nodes, in their order.
pub open spec fn records_of(bases: Seq<PeerBase>) -> Seq<(Seq<char>, Seq<IpAddress>)>
    decreases bases.len(),
{
    if bases.len() == 0 {
        Seq::empty()
    } else {
        match record_of(bases.last()) {
            Some(r) => records_of(bases.drop_last()).push(r),
            None => records_of(bases.drop_last()),
        }
    }
}

/// What is known of every node of some peers.
pub open spec fn peer_bases(peers: Seq<crate::config::Peer>) -> Seq<PeerBase> {
    Seq::new(peers.len(), |i: int| peers[i].base)
}

/// The records of a mesh: those of its peers, then that of the device
/// itself; none while the mesh is off.
pub open spec fn dns_records(config: Option<Config>) -> Seq<(Seq<char>, Seq<IpAddress>)> {
    match config {
        Some(c) => records_of(peer_bases(c.spec_peers()).push(c.this)),
        None => Seq::empty(),
    }
}

/// What some records hold.
pub open spec fn record_views(records: Seq<(String, Vec<IpAddress>)>) -> Seq<
    (Seq<char>, Seq<IpAddress>),
> {
    Seq::new(records.len(), |i: int| (records[i].0@, records[i].1@))
}

fn push_record(records: &mut Records, base: &PeerBase)
    ensures
        record_views(final(records)@) == match record_of(*base) {
            Some(r) => record_views(old(records)@).push(r),
            None => record_views(old(records)@),
        },
{
    let ghost before = record_views(records@);
    match &base.ip_addresses {
        Some(v) => {
            records.push((base.hostname.clone(), copy_addresses(v)));
            proof {
                assert(record_views(records@) =~= before.push((base.hostname@, v@)));
            }
        },
        None => {},
    }
}

impl RequestedState {
    /// The names of the mesh with their addresses: a record for each peer
    /// that has addresses, then one for the device itself if it has any.
    /// Whether the resolver runs does not matter, and while the mesh is off
    /// there are none.
    pub fn collect_dns_records(&self) -> (records: Records)
        ensures
            record_views(records@) == dns_records(self.meshnet_config),
    {
        let mut records: Records = Vec::new();
        match &self.meshnet_config {
            Some(c) => {
                let ghost bases = peer_bases(c.spec_peers());
                match &c.peers {
                    Some(peers) => {
                        let mut i: usize = 0;
                        proof {
                            assert(record_views(records@) =~= records_of(bases.subrange(0, 0)));
                        }
                        while i < peers.len()
                            invariant
                                i <= peers@.len(),
                                bases == peer_bases(peers@),
                                record_views(records@) == records_of(bases.subrange(0, i as int)),
                            decreases peers@.len() - i,
                        {
                            proof {
                                let next = bases.subrange(0, i + 1);
                                assert(next.drop_last() =~= bases.subrange(0, i as int));
                                assert(next.last() == peers@[i as int].base);
                            }
                            push_record(&mut records, &peers[i].base);
                            i = i + 1;
                        }
                        proof {
                            assert(bases.subrange(0, peers@.len() as int) =~= bases);
                        }
                    },
                    None => {
                        proof {
                            assert(record_views(records@) =~= records_of(bases));
                        }
                    },
                }
                proof {
                    assert(bases.push(c.this).drop_last() =~= bases);
                }
                push_record(&mut records, &c.this);
            },
            None => {
                proof {
                    assert(record_views(records@) =~= Seq::empty());
                }
            },
        }
        records
    }
}

/// What some nodes hold.
pub open spec fn node_views(nodes: Seq<Node>) -> Seq<NodeView> {
    Seq::new(nodes.len(), |i: int| nodes[i]@)
}

/// The nodes reported for some peers, in their order; a peer that serves
/// the device alone is passed over.
pub open spec fn nodes_of(
    rs: RequestedState,
    proxy: Seq<(PublicKey, Endpoint)>,
    peers: Seq<PeerView>,
) -> Seq<NodeView>
    decreases peers.len(),
{
    if peers.len() == 0 {
        Seq::empty()
    } else {
        match node_of_peer(rs, proxy, peers.last(), None) {
            Some(n) => nodes_of(rs, proxy, peers.drop_last()).push(n),
            None => nodes_of(rs, proxy, peers.drop_last()),
        }
    }
}

/// A part of the device that is started and stopped.
#[derive(Clone, Copy, Debug, PartialEq, Eq, Structural)]
pub enum Component {
    Firewall,
    SocketPool,
    Multiplexer,
    Relay,
    UdpProxy,
    /// The tunnel driver; the private key is set as soon as it runs.
    WireGuard,
    Nurse,
    LocalInterfacesEndpointProvider,
    StunEndpointProvider,
    UpnpEndpointProvider,
    CrossPingCheck,
    UpgradeSync,
    SessionKeeper,
    /// The event loop of the runtime.
    EventLoop,
    /// The local resolver, which is started on request.
    Dns,
}

/// Seconds between two rounds of the cross-ping check.
pub const CROSS_PING_PERIOD_SECS: u64 = 2;

/// Seconds after which an upgrade that carries no traffic is taken back.
pub const UPGRADE_EXPIRY_SECS: u64 = 5;

/// Seconds between two reconciliations that nothing else has caused.
pub const POLLING_INTERVAL_SECS: u64 = 5;

/// The longest wait between two attempts of a provider, in seconds.
pub const MAX_BACKOFF_SECS: u64 = 120;

/// The waits between the attempts of a provider: they grow from the first
/// to the longest.
#[derive(Clone, Copy, Debug, PartialEq, Eq, Structural)]
pub struct ExponentialBackoffBounds {
    pub initial: Duration,
    pub maximal: Option<Duration>,
}

/// Whether a provider is asked for: all are where none are named.
pub open spec fn has_provider(direct: FeatureDirect, provider: EndpointProvider) -> bool {
    match direct.providers {
        Some(v) => v@.contains(provider),
        None => true,
    }
}

fn provider_wanted(direct: &FeatureDirect, provider: EndpointProvider) -> (r: bool)
    ensures
        r == has_provider(*direct, provider),
{
    match &direct.providers {
        Some(v) => {
            let mut i: usize = 0;
            while i < v.len()
                invariant
                    i <= v@.len(),
                    direct.providers == Some(*v),
                    forall|j: int| 0 <= j < i ==> v@[j] != provider,
                decreases v@.len() - i,
            {
                if v[i] == provider {
                    return true;
                }
                i = i + 1;
            }
            false
        },
        None => true,
    }
}

/// The time between two polls of the endpoint providers: as asked for, or
/// 25 seconds.
pub fn endpoint_poll_interval(direct: &FeatureDirect) -> (interval: Duration)
    ensures
        interval == (Duration {
            secs: match direct.endpoint_interval_secs {
                Some(s) => s,
                None => DEFAULT_ENDPOINT_POLL_INTERVAL_SECS,
            },
            nanos: 0,
        }),
{
    Duration::from_secs(
        match direct.endpoint_interval_secs {
            Some(s) => s,
            None => DEFAULT_ENDPOINT_POLL_INTERVAL_SECS,
        },
    )
}

/// The waits between the attempts of the STUN and UPnP providers: from the
/// poll interval up to 120 seconds.
pub fn backoff_bounds(direct: &FeatureDirect) -> (bounds: ExponentialBackoffBounds)
    ensures
        bounds.initial == (Duration {
            secs: match direct.endpoint_interval_secs {
                Some(s) => s,
                None => DEFAULT_ENDPOINT_POLL_INTERVAL_SECS,
            },
            nanos: 0,
        }),
        bounds.maximal == Some(Duration { secs: MAX_BACKOFF_SECS, nanos: 0 }),
{
    ExponentialBackoffBounds {
        initial: endpoint_poll_interval(direct),
        maximal: Some(Duration::from_secs(MAX_BACKOFF_SECS)),
    }
}

/// The parts that are started with the device, in the order of their
/// start: each after the parts it needs.
pub open spec fn startup_order(entities: Entities) -> Seq<Component> {
    seq![
        Component::Firewall,
        Component::SocketPool,
        Component::Multiplexer,
        Component::Relay,
        Component::UdpProxy,
        Component::WireGuard,
    ] + (if entities.nurse {
        seq![Component::Nurse]
    } else {
        Seq::<Component>::empty()
    }) + (match entities.direct {
        Some(d) => (if d.local_interfaces_endpoint_provider {
            seq![Component::LocalInterfacesEndpointProvider]
        } else {
            Seq::<Component>::empty()
        }) + (if d.stun_endpoint_provider {
            seq![Component::StunEndpointProvider]
        } else {
            Seq::<Component>::empty()
        }) + (if d.upnp_endpoint_provider {
            seq![Component::UpnpEndpointProvider]
        } else {
            Seq::<Component>::empty()
        }) + seq![Component::CrossPingCheck, Component::UpgradeSync, Component::SessionKeeper],
        None => Seq::<Component>::empty(),
    }) + seq![Component::EventLoop]
}

/// The parts that run: those started with the device, and the resolver
/// where it was started since.
pub open spec fn running(entities: Entities) -> Seq<Component> {
    startup_order(entities) + (if entities.dns.resolver is Some {
        seq![Component::Dns]
    } else {
        Seq::<Component>::empty()
    })
}

fn push_component(out: &mut Vec<Component>, condition: bool, component: Component)
    ensures
        final(out)@ == old(out)@ + (if condition {
            seq![component]
        } else {
            Seq::<Component>::empty()
        }),
{
    let ghost before = out@;
    if condition {
        out.push(component);
    }
    proof {
        assert(out@ =~= before + (if condition {
            seq![component]
        } else {
            Seq::<Component>::empty()
        }));
    }
}

/// What a runtime is when it is started: nothing is asked for but the
/// setup of the interface and the keepalive intervals of the features; the
/// interface has the private key and nothing else; the resolver does not
/// run; the telemetry component runs where it is asked for and ready; and
/// of the endpoint providers those run that the features name, or all
/// where direct connections are on and none are named.
pub open spec fn started_as(
    rt: Runtime,
    config: DeviceConfig,
    features: Features,
    telemetry_ready: bool,
) -> bool {
    &&& rt.features == features
    &&& rt.requested_state == (RequestedState {
        device_config: config,
        meshnet_config: None,
        old_meshnet_config: None,
        exit_node: None,
        last_exit_node: None,
        upstream_servers: None,
        wg_stun_server: None,
        keepalive_periods: features.persistent_keepalive,
    })
    &&& rt.entities.wireguard_interface@ == (InterfaceView {
        private_key: Some(config.private_key),
        ..InterfaceView::empty()
    })
    &&& rt.entities.dns == (DNS::<LocalDnsResolver> {
        resolver: None,
        virtual_host_tun_fd: config.tun,
    })
    &&& rt.entities.nurse == (telemetry_ready && features.nurse)
    &&& rt.entities.proxy.entries@.len() == 0
    &&& match features.direct {
        Some(d) => rt.entities.direct matches Some(e) && ({
            &&& e.local_interfaces_endpoint_provider == has_provider(d, EndpointProvider::Local)
            &&& e.stun_endpoint_provider == has_provider(d, EndpointProvider::Stun)
            &&& e.upnp_endpoint_provider == has_provider(d, EndpointProvider::Upnp)
            &&& e.cross_ping_check.entries@.len() == 0
            &&& e.upgrade_sync@.len() == 0
        }),
        None => rt.entities.direct is None,
    }
}

/// What happens to the runtime from inside the device.
#[derive(Debug, PartialEq, Eq)]
pub enum Stimulus {
    /// The cross-ping check has published the endpoints it has found.
    WgEndpointPublish,
    /// The state of a peer of the interface has changed.
    WgEvent(crate::uapi::Event),
    /// The relay client has changed its server.
    DerpEvent(Server),
    /// A peer has agreed to, or asked for, a direct connection.
    UpgradeRequest,
    /// The STUN provider has found its server, or lost it.
    StunServer(Option<StunServer>),
    /// The time between two reconciliations has passed.
    Tick,
}

/// What the runtime does about a stimulus.
#[derive(Debug, PartialEq, Eq)]
pub enum Effect {
    /// Reconcile the interface. A failure is noted and otherwise ignored:
    /// the next tick tries again.
    Consolidate,
    /// Tell the host.
    Publish(Event),
    Nothing,
}

impl Runtime {
    /// The runtime of a device that is started with the given setup.
    /// `telemetry_ready` says whether the telemetry library was initialised.
    ///
    /// The interface has the private key and nothing else; nothing is asked
    /// for yet; and of the endpoint providers those run that the features
    /// name, or all where direct connections are on and none are named.
    pub fn start(config: DeviceConfig, features: Features, telemetry_ready: bool) -> (rt: Runtime)
        ensures
            started_as(rt, config, features, telemetry_ready),
            rt.wf(),
    {
        let mut wireguard_interface = Interface::new();
        wireguard_interface.private_key = Some(config.private_key);
        let direct = match &features.direct {
            Some(d) => Some(
                DirectEntities {
                    local_interfaces_endpoint_provider: provider_wanted(d, EndpointProvider::Local),
                    stun_endpoint_provider: provider_wanted(d, EndpointProvider::Stun),
                    upnp_endpoint_provider: provider_wanted(d, EndpointProvider::Upnp),
                    cross_ping_check: EndpointMap::new(),
                    upgrade_sync: Vec::new(),
                },
            ),
            None => None,
        };
        let entities = Entities {
            wireguard_interface,
            dns: DNS { resolver: None, virtual_host_tun_fd: config.tun },
            nurse: telemetry_ready && features.nurse,
            proxy: EndpointMap::new(),
            direct,
        };
        let requested_state = RequestedState {
            device_config: config,
            meshnet_config: None,
            old_meshnet_config: None,
            exit_node: None,
            last_exit_node: None,
            upstream_servers: None,
            wg_stun_server: None,
            keepalive_periods: features.persistent_keepalive,
        };
        Runtime { features, requested_state, entities }
    }

    /// The parts to start with the device, in the order of their start.
    pub fn startup_sequence(&self) -> (order: Vec<Component>)
        ensures
            order@ == startup_order(self.entities),
    {
        let mut out: Vec<Component> = Vec::new();
        out.push(Component::Firewall);
        out.push(Component::SocketPool);
        out.push(Component::Multiplexer);
        out.push(Component::Relay);
        out.push(Component::UdpProxy);
        out.push(Component::WireGuard);
        let ghost head = out@;
        push_component(&mut out, self.entities.nurse, Component::Nurse);
        let ghost with_nurse = out@;
        match &self.entities.direct {
            Some(d) => {
                push_component(
                    &mut out,
                    d.local_interfaces_endpoint_provider,
                    Component::LocalInterfacesEndpointProvider,
                );
                push_component(&mut out, d.stun_endpoint_provider, Component::StunEndpointProvider);
                push_component(&mut out, d.upnp_endpoint_provider, Component::UpnpEndpointProvider);
                out.push(Component::CrossPingCheck);
                out.push(Component::UpgradeSync);
                out.push(Component::SessionKeeper);
            },
            None => {},
        }
        out.push(Component::EventLoop);
        proof {
            assert(head =~= seq![
                Component::Firewall,
                Component::SocketPool,
                Component::Multiplexer,
                Component::Relay,
                Component::UdpProxy,
                Component::WireGuard,
            ]);
            assert(out@ =~= startup_order(self.entities));
        }
        out
    }

    /// The parts to stop, in the order of their stop: the parts that run,
    /// the last started first.
    pub fn shutdown_sequence(&self) -> (order: Vec<Component>)
        ensures
            order@ == running(self.entities).reverse(),
    {
        let mut started = self.startup_sequence();
        push_component(&mut started, self.entities.dns.resolver.is_some(), Component::Dns);
        let mut out: Vec<Component> = Vec::new();
        let mut i: usize = started.len();
        while i > 0
            invariant
                i <= started@.len(),
                started@ == running(self.entities),
                out@.len() == started@.len() - i,
                forall|j: int| 0 <= j < out@.len() ==> out@[j] == started@[started@.len() - 1 - j],
            decreases i,
        {
            i = i - 1;
            out.push(started[i]);
        }
        proof {
            assert(out@ =~= running(self.entities).reverse());
        }
        out
    }

    /// Stops the device: gives the parts to stop in their order, and
    /// forgets what was asked for.
    pub fn stop(&mut self) -> (order: Vec<Component>)
        ensures
            order@ == running(old(self).entities).reverse(),
            final(self).features == old(self).features,
            final(self).entities == old(self).entities,
            final(self).requested_state.meshnet_config is None,
            final(self).requested_state.old_meshnet_config is None,
            final(self).requested_state.exit_node is None,
            final(self).requested_state.last_exit_node is None,
            final(self).requested_state.upstream_servers is None,
            final(self).requested_state.wg_stun_server is None,
            final(self).requested_state.device_config == (DeviceConfig {
                private_key: SecretKey { hi: 0, lo: 0 },
                adapter: AdapterType::BoringTun,
                fwmark: None,
                name: None,
                tun: None,
            }),
            final(self).requested_state.keepalive_periods == (FeaturePersistentKeepalive {
                vpn: Some(15u32),
                direct: 5,
                proxying: Some(25u32),
                stun: Some(50u32),
            }),
    {
        let order = self.shutdown_sequence();
        self.requested_state = RequestedState::default();
        order
    }

    /// The nodes of the network that the interface has peers for.
    pub fn external_nodes(&self) -> (nodes: Vec<Node>)
        ensures
            node_views(nodes@) == nodes_of(
                self.requested_state,
                self.entities.proxy.entries@,
                self.entities.wireguard_interface@.peers,
            ),
    {
        let mut nodes: Vec<Node> = Vec::new();
        let peers = &self.entities.wireguard_interface.peers;
        let ghost views = peer_views(peers@);
        let mut i: usize = 0;
        proof {
            assert(node_views(nodes@) =~= Seq::empty());
        }
        while i < peers.len()
            invariant
                i <= peers@.len(),
                views == peer_views(peers@),
                node_views(nodes@) == nodes_of(
                    self.requested_state,
                    self.entities.proxy.entries@,
                    views.subrange(0, i as int),
                ),
            decreases peers@.len() - i,
        {
            let ghost before = node_views(nodes@);
            proof {
                let next = views.subrange(0, i + 1);
                assert(next.drop_last() =~= views.subrange(0, i as int));
                assert(next.last() == peers@[i as int]@);
            }
            match self.peer_to_node(&peers[i], None) {
                Some(node) => {
                    let ghost nv = node@;
                    nodes.push(node);
                    proof {
                        assert(node_views(nodes@) =~= before.push(nv));
                    }
                },
                None => {},
            }
            i = i + 1;
        }
        proof {
            assert(views.subrange(0, peers@.len() as int) =~= views);
        }
        nodes
    }

    /// What the runtime does about a stimulus. A change of a peer's state
    /// is told to the host where the peer stands for a node; a change of the
    /// relay server is told as it is; a new STUN server is noted; and all
    /// else, the new STUN server too, leads to a reconciliation.
    pub fn on_event(&mut self, stimulus: Stimulus) -> (effect: Effect)
        ensures
            final(self).features == old(self).features,
            final(self).entities == old(self).entities,
            final(self).requested_state == (match stimulus {
                Stimulus::StunServer(s) => RequestedState {
                    wg_stun_server: s,
                    ..old(self).requested_state
                },
                _ => old(self).requested_state,
            }),
            match stimulus {
                Stimulus::WgEvent(event) => match node_of_peer(
                    old(self).requested_state,
                    old(self).entities.proxy.entries@,
                    event.peer@,
                    Some(event.state),
                ) {
                    Some(n) => effect matches Effect::Publish(Event::Node(node)) && node@ == n,
                    None => effect == Effect::Nothing,
                },
                Stimulus::DerpEvent(server) => effect == Effect::Publish(Event::Relay(server)),
                _ => effect == Effect::Consolidate,
            },
    {
        match stimulus {
            Stimulus::WgEndpointPublish => Effect::Consolidate,
            Stimulus::WgEvent(event) => match self.peer_to_node(&event.peer, Some(event.state)) {
                Some(node) => Effect::Publish(Event::Node(node)),
                None => Effect::Nothing,
            },
            Stimulus::DerpEvent(server) => Effect::Publish(Event::Relay(server)),
            Stimulus::UpgradeRequest => Effect::Consolidate,
            Stimulus::StunServer(server) => {
                self.requested_state.wg_stun_server = server;
                Effect::Consolidate
            },
            Stimulus::Tick => Effect::Consolidate,
        }
    }
}

/// The interface to bind the sockets of the pool to: the one found by the
/// tunnel's descriptor, or else the one found by the tunnel's name.
pub fn set_tunnel_interface(by_descriptor: Option<u64>, by_name: Option<u64>) -> (index: Option<u64>)
    ensures
        index == if by_descriptor is Some {
            by_descriptor
        } else {
            by_name
        },
{
    match by_descriptor {
        Some(i) => Some(i),
        None => by_name,
    }
}

/// A device: its features, and its runtime while it is started.
#[derive(Debug, PartialEq, Eq)]
pub struct Device {
    pub features: Features,
    pub rt: Option<Runtime>,
}

impl Device {
    /// A device that is not started.
    pub fn new(features: Features) -> (device: Device)
        ensures
            device.features == features,
            device.rt is None,
    {
        Device { features, rt: None }
    }

    /// Whether the device is started.
    pub fn is_running(&self) -> (r: bool)
        ensures
            r == self.rt is Some,
    {
        self.rt.is_some()
    }

    /// Starts the device, and gives the parts to start in their order;
    /// `AlreadyStarted` where it runs.
    pub fn start(&mut self, config: DeviceConfig, telemetry_ready: bool) -> (r: Result<
        Vec<Component>,
        Error,
    >)
        ensures
            final(self).features == old(self).features,
            match old(self).rt {
                Some(_) => r == Err::<Vec<Component>, Error>(Error::AlreadyStarted) && final(self).rt
                    == old(self).rt,
                None => r matches Ok(order) && final(self).rt matches Some(rt) && ({
                    &&& order@ == startup_order(rt.entities)
                    &&& old(self).features.same(rt.features)
                    &&& started_as(rt, config, rt.features, telemetry_ready)
                    &&& rt.wf()
                }),
            },
    {
        if self.is_running() {
            return Err(Error::AlreadyStarted);
        }
        let rt = Runtime::start(config, self.features.duplicate(), telemetry_ready);
        let order = rt.startup_sequence();
        self.rt = Some(rt);
        Ok(order)
    }

    /// Stops the device, and gives the parts to stop in their order: none
    /// where it does not run.
    pub fn stop(&mut self) -> (order: Vec<Component>)
        ensures
            final(self).features == old(self).features,
            final(self).rt is None,
            match old(self).rt {
                Some(rt) => order@ == running(rt.entities).reverse(),
                None => order@.len() == 0,
            },
    {
        match self.rt.take() {
            Some(mut rt) => rt.stop(),
            None => Vec::new(),
        }
    }

    /// The private key asked for; `NotStarted` where the device does not run.
    pub fn get_private_key(&self) -> (r: Result<SecretKey, Error>)
        ensures
            r == match self.rt {
                Some(rt) => Ok::<SecretKey, Error>(rt.requested_state.device_config.private_key),
                None => Err::<SecretKey, Error>(Error::NotStarted),
            },
    {
        match &self.rt {
            Some(rt) => Ok(rt.get_private_key()),
            None => Err(Error::NotStarted),
        }
    }

    /// Asks for another private key; `NotStarted` where the device does
    /// not run, and else as the runtime's `set_private_key`.
    pub fn set_private_key(&mut self, private_key: &SecretKey) -> (r: Result<Vec<Action>, Error>)
        ensures
            final(self).features == old(self).features,
            match old(self).rt {
                Some(pre) => final(self).rt matches Some(post) && Runtime::set_private_key_post(
                    pre,
                    *private_key,
                    post,
                    r,
                ),
                None => r == Err::<Vec<Action>, Error>(Error::NotStarted) && final(self).rt is None,
            },
    {
        match &mut self.rt {
            Some(rt) => rt.set_private_key(private_key),
            None => Err(Error::NotStarted),
        }
    }

    /// Asks for a firewall mark; `NotStarted` where the device does not run.
    pub fn set_fwmark(&mut self, fwmark: u32) -> (r: Result<Vec<Action>, Error>)
        ensures
            final(self).features == old(self).features,
            match old(self).rt {
                Some(pre) => final(self).rt matches Some(post) && Runtime::set_fwmark_post(
                    pre,
                    fwmark,
                    post,
                    r,
                ),
                None => r == Err::<Vec<Action>, Error>(Error::NotStarted) && final(self).rt is None,
            },
    {
        match &mut self.rt {
            Some(rt) => rt.set_fwmark(fwmark),
            None => Err(Error::NotStarted),
        }
    }

    /// Asks for a mesh, or switches it off; `NotStarted` where the device
    /// does not run, and else as the runtime's `set_config`.
    pub fn set_config(&mut self, config: Option<Config>) -> (r: Result<Vec<Action>, Error>)
        ensures
            final(self).features == old(self).features,
            match old(self).rt {
                Some(pre) => final(self).rt matches Some(post) && Runtime::set_config_post(
                    pre,
                    config,
                    post,
                    r,
                ),
                None => r == Err::<Vec<Action>, Error>(Error::NotStarted) && final(self).rt is None,
            },
    {
        match &mut self.rt {
            Some(rt) => rt.set_config(config),
            None => Err(Error::NotStarted),
        }
    }

    /// The device has moved to another network; `NotStarted` where it does not run.
    pub fn notify_network_change(&mut self) -> (r: Result<Vec<Action>, Error>)
        ensures
            final(self).features == old(self).features,
            match old(self).rt {
                Some(pre) => final(self).rt matches Some(post)
                    && Runtime::notify_network_change_post(pre, post, r),
                None => r == Err::<Vec<Action>, Error>(Error::NotStarted) && final(self).rt is None,
            },
    {
        match &mut self.rt {
            Some(rt) => rt.notify_network_change(),
            None => Err(Error::NotStarted),
        }
    }

    /// Connects an exit node; `NotStarted` where the device does not run,
    /// and else as the runtime's `connect_exit_node`.
    pub fn connect_exit_node(&mut self, node: ExitNode) -> (r: Result<Vec<Action>, Error>)
        ensures
            final(self).features == old(self).features,
            match old(self).rt {
                Some(pre) => final(self).rt matches Some(post) && Runtime::connect_exit_node_post(
                    pre,
                    node,
                    post,
                    r,
                ),
                None => r == Err::<Vec<Action>, Error>(Error::NotStarted) && final(self).rt is None,
            },
    {
        match &mut self.rt {
            Some(rt) => rt.connect_exit_node(node),
            None => Err(Error::NotStarted),
        }
    }

    /// Disconnects the exit node with the given key; `NotStarted` where the
    /// device does not run.
    pub fn disconnect_exit_node(&mut self, node_key: &PublicKey) -> (r: Result<Vec<Action>, Error>)
        ensures
            final(self).features == old(self).features,
            match old(self).rt {
                Some(pre) => final(self).rt matches Some(post)
                    && Runtime::disconnect_exit_node_post(pre, *node_key, post, r),
                None => r == Err::<Vec<Action>, Error>(Error::NotStarted) && final(self).rt is None,
            },
    {
        match &mut self.rt {
            Some(rt) => rt.disconnect_exit_node(node_key),
            None => Err(Error::NotStarted),
        }
    }

    /// Disconnects the exit node, whichever it is; `NotStarted` where the
    /// device does not run.
    pub fn disconnect_exit_nodes(&mut self) -> (r: Result<Vec<Action>, Error>)
        ensures
            final(self).features == old(self).features,
            match old(self).rt {
                Some(pre) => final(self).rt matches Some(post)
                    && Runtime::disconnect_exit_nodes_post(pre, post, r),
                None => r == Err::<Vec<Action>, Error>(Error::NotStarted) && final(self).rt is None,
            },
    {
        match &mut self.rt {
            Some(rt) => rt.disconnect_exit_nodes(),
            None => Err(Error::NotStarted),
        }
    }

    /// Enables the local resolver; `NotStarted` where the device does not run.
    pub fn enable_magic_dns(&mut self, upstream_servers: Vec<IpAddress>) -> (r: Result<
        Vec<Action>,
        Error,
    >)
        ensures
            final(self).features == old(self).features,
            match old(self).rt {
                Some(pre) => final(self).rt matches Some(post) && Runtime::start_dns_post(
                    pre,
                    upstream_servers,
                    post,
                    r,
                ),
                None => r == Err::<Vec<Action>, Error>(Error::NotStarted) && final(self).rt is None,
            },
    {
        match &mut self.rt {
            Some(rt) => rt.start_dns(upstream_servers),
            None => Err(Error::NotStarted),
        }
    }

    /// Disables the local resolver; `NotStarted` where the device does not run.
    pub fn disable_magic_dns(&mut self) -> (r: Result<Vec<Action>, Error>)
        ensures
            final(self).features == old(self).features,
            match old(self).rt {
                Some(pre) => final(self).rt matches Some(post) && Runtime::stop_dns_post(
                    pre,
                    post,
                    r,
                ),
                None => r == Err::<Vec<Action>, Error>(Error::NotStarted) && final(self).rt is None,
            },
    {
        match &mut self.rt {
            Some(rt) => rt.stop_dns(),
            None => Err(Error::NotStarted),
        }
    }

    /// The nodes of the network that the interface has peers for;
    /// `NotStarted` where the device does not run.
    pub fn external_nodes(&self) -> (r: Result<Vec<Node>, Error>)
        ensures
            match self.rt {
                Some(rt) => r matches Ok(nodes) && node_views(nodes@) == nodes_of(
                    rt.requested_state,
                    rt.entities.proxy.entries@,
                    rt.entities.wireguard_interface@.peers,
                ),
                None => r == Err::<Vec<Node>, Error>(Error::NotStarted),
            },
    {
        match &self.rt {
            Some(rt) => Ok(rt.external_nodes()),
            None => Err(Error::NotStarted),
        }
    }

    /// Lets the telemetry component collect now; `NotStarted` where the
    /// device does not run or the feature is off.
    pub fn trigger_analytics_event(&self) -> (r: Result<Vec<Action>, Error>)
        ensures
            match self.rt {
                Some(rt) => Runtime::trigger_analytics_event_post(rt, r),
                None => r == Err::<Vec<Action>, Error>(Error::NotStarted),
            },
    {
        match &self.rt {
            Some(rt) => rt.trigger_analytics_event(),
            None => Err(Error::NotStarted),
        }
    }
}

} // verus!
