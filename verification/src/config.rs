//! What the host configures: the mesh and its peers, the relay servers, and
//! the features of the device.

use crate::ip::{Endpoint, IpAddress};
use crate::keys::PublicKey;
use vstd::prelude::*;

verus! {

/// What is known of every node of the mesh, this one included.
#[derive(Clone, Debug, Default, PartialEq, Eq)]
pub struct PeerBase {
    pub identifier: String,
    pub public_key: PublicKey,
    pub hostname: String,
    pub ip_addresses: Option<Vec<IpAddress>>,
}

/// Another node of the mesh, with what it is permitted.
#[derive(Clone, Debug, Default, PartialEq, Eq)]
pub struct Peer {
    pub base: PeerBase,
    pub is_local: bool,
    pub allow_incoming_connections: bool,
    pub allow_peer_send_files: bool,
}

/// A relay server.
#[derive(Clone, Debug, Default, PartialEq, Eq)]
pub struct Server {
    pub region_code: String,
    pub name: String,
    pub hostname: String,
    /// The server's IPv4 address as one number.
    pub ipv4: u32,
    pub relay_port: u16,
    pub stun_port: u16,
    pub stun_plaintext_port: u16,
    pub public_key: PublicKey,
    /// The lower, the more the server is preferred.
    pub weight: u32,
    pub use_plain_text: bool,
}

/// Resolvers that the host asks to be used.
#[derive(Clone, Debug, Default, PartialEq, Eq)]
pub struct DnsConfig {
    pub dns_servers: Option<Vec<IpAddress>>,
}

/// The mesh as the host asks for it.
#[derive(Clone, Debug, Default, PartialEq, Eq)]
pub struct Config {
    pub this: PeerBase,
    pub peers: Option<Vec<Peer>>,
    pub derp_servers: Option<Vec<Server>>,
    pub dns: Option<DnsConfig>,
}

/// The server through which STUN traffic is sent inside the tunnel.
#[derive(Clone, Copy, Debug, PartialEq, Eq, Structural)]
pub struct StunServer {
    pub public_key: PublicKey,
    pub ipv4: u32,
    pub stun_port: u16,
}

/// A source of candidate endpoints for direct connections.
#[derive(Clone, Copy, Debug, PartialEq, Eq, Hash, Structural)]
pub enum EndpointProvider {
    /// The addresses of the local interfaces.
    Local,
    /// The address that a STUN server sees.
    Stun,
    /// The address of a port mapping made by UPnP.
    Upnp,
}

/// Seconds between two polls of the endpoint providers, where none is given.
pub const DEFAULT_ENDPOINT_POLL_INTERVAL_SECS: u64 = 25;

/// Direct connections.
#[derive(Clone, Debug, Default, PartialEq, Eq)]
pub struct FeatureDirect {
    /// The providers to use; all of them where none are named.
    pub providers: Option<Vec<EndpointProvider>>,
    pub endpoint_interval_secs: Option<u64>,
}

/// Seconds between keepalive packets, by the kind of peer.
#[derive(Clone, Copy, Debug, PartialEq, Eq, Structural)]
pub struct FeaturePersistentKeepalive {
    pub vpn: Option<u32>,
    pub direct: u32,
    pub proxying: Option<u32>,
    pub stun: Option<u32>,
}

impl Default for FeaturePersistentKeepalive {
    fn default() -> (k: FeaturePersistentKeepalive)
        ensures
            k == (FeaturePersistentKeepalive {
                vpn: Some(15u32),
                direct: 5,
                proxying: Some(25u32),
                stun: Some(50u32),
            }),
    {
        FeaturePersistentKeepalive { vpn: Some(15), direct: 5, proxying: Some(25), stun: Some(50) }
    }
}

/// How the relay client keeps its connection alive.
#[derive(Clone, Copy, Debug, PartialEq, Eq, Structural)]
pub struct FeatureDerp {
    pub tcp_keepalive: Option<u32>,
    pub derp_keepalive: Option<u32>,
    pub enable_polling: Option<bool>,
}

/// The features of the device.
#[derive(Clone, Debug, PartialEq, Eq)]
pub struct Features {
    /// Whether the public key of a mesh configuration must belong to the
    /// device's private key.
    pub validate_keys: bool,
    pub persistent_keepalive: FeaturePersistentKeepalive,
    /// Whether the telemetry component is asked for.
    pub nurse: bool,
    pub direct: Option<FeatureDirect>,
    pub derp: Option<FeatureDerp>,
}

impl Default for Features {
    fn default() -> (f: Features)
        ensures
            f.validate_keys,
            f.persistent_keepalive == (FeaturePersistentKeepalive {
                vpn: Some(15u32),
                direct: 5,
                proxying: Some(25u32),
                stun: Some(50u32),
            }),
            !f.nurse,
            f.direct is None,
            f.derp is None,
    {
        Features {
            validate_keys: true,
            persistent_keepalive: FeaturePersistentKeepalive::default(),
            nurse: false,
            direct: None,
            derp: None,
        }
    }
}

impl FeatureDirect {
    /// The same providers in the same order, and the same interval.
    pub open spec fn same(self, other: FeatureDirect) -> bool {
        &&& self.endpoint_interval_secs == other.endpoint_interval_secs
        &&& match (self.providers, other.providers) {
            (Some(a), Some(b)) => a@ == b@,
            (None, None) => true,
            _ => false,
        }
    }
}

impl Features {
    /// The same features.
    pub open spec fn same(self, other: Features) -> bool {
        &&& self.validate_keys == other.validate_keys
        &&& self.persistent_keepalive == other.persistent_keepalive
        &&& self.nurse == other.nurse
        &&& self.derp == other.derp
        &&& match (self.direct, other.direct) {
            (Some(a), Some(b)) => a.same(b),
            (None, None) => true,
            _ => false,
        }
    }

    /// A copy of the features.
    pub fn duplicate(&self) -> (copy: Features)
        ensures
            self.same(copy),
    {
        let direct = match &self.direct {
            Some(d) => Some(
                FeatureDirect {
                    providers: match &d.providers {
                        Some(v) => {
                            let mut out: Vec<EndpointProvider> = Vec::new();
                            let mut i: usize = 0;
                            while i < v.len()
                                invariant
                                    i <= v@.len(),
                                    out@ == v@.subrange(0, i as int),
                                decreases v@.len() - i,
                            {
                                out.push(v[i]);
                                proof {
                                    assert(v@.subrange(0, i + 1) =~= v@.subrange(0, i as int).push(
                                        v@[i as int],
                                    ));
                                }
                                i = i + 1;
                            }
                            proof {
                                assert(v@.subrange(0, v@.len() as int) =~= v@);
                            }
                            Some(out)
                        },
                        None => None,
                    },
                    endpoint_interval_secs: d.endpoint_interval_secs,
                },
            ),
            None => None,
        };
        Features {
            validate_keys: self.validate_keys,
            persistent_keepalive: self.persistent_keepalive,
            nurse: self.nurse,
            direct,
            derp: self.derp,
        }
    }
}

/// The endpoints known for some peers, each under the peer's key. Of two
/// entries with one key the first counts.
#[derive(Clone, Debug, Default, PartialEq, Eq)]
pub struct EndpointMap {
    pub entries: Vec<(PublicKey, Endpoint)>,
}

/// The endpoint that the first entry with the given key holds.
pub open spec fn endpoint_of(entries: Seq<(PublicKey, Endpoint)>, key: PublicKey) -> Option<
    Endpoint,
>
    decreases entries.len(),
{
    if entries.len() == 0 {
        None
    } else if entries[0].0 == key {
        Some(entries[0].1)
    } else {
        endpoint_of(entries.drop_first(), key)
    }
}

impl EndpointMap {
    /// A map without entries.
    pub fn new() -> (m: EndpointMap)
        ensures
            m.entries@.len() == 0,
    {
        EndpointMap { entries: Vec::new() }
    }

    /// The endpoint known for the given key.
    pub fn get(&self, key: &PublicKey) -> (e: Option<Endpoint>)
        ensures
            e == endpoint_of(self.entries@, *key),
    {
        let mut i: usize = 0;
        proof {
            assert(self.entries@.subrange(0, self.entries@.len() as int) =~= self.entries@);
        }
        while i < self.entries.len()
            invariant
                i <= self.entries@.len(),
                endpoint_of(self.entries@, *key) == endpoint_of(
                    self.entries@.subrange(i as int, self.entries@.len() as int),
                    *key,
                ),
            decreases self.entries@.len() - i,
        {
            let ghost rest = self.entries@.subrange(i as int, self.entries@.len() as int);
            proof {
                assert(rest[0] == self.entries@[i as int]);
                assert(rest.drop_first() =~= self.entries@.subrange(
                    i + 1,
                    self.entries@.len() as int,
                ));
            }
            if self.entries[i].0 == *key {
                return Some(self.entries[i].1);
            }
            i = i + 1;
        }
        proof {
            assert(self.entries@.subrange(i as int, self.entries@.len() as int).len() == 0);
        }
        None
    }
}

/// Whether a key is among some keys.
pub fn contains_key(keys: &Vec<PublicKey>, key: &PublicKey) -> (r: bool)
    ensures
        r == keys@.contains(*key),
{
    let mut i: usize = 0;
    while i < keys.len()
        invariant
            i <= keys@.len(),
            forall|j: int| 0 <= j < i ==> keys@[j] != *key,
        decreases keys@.len() - i,
    {
        if keys[i] == *key {
            return true;
        }
        i = i + 1;
    }
    false
}

impl Config {
    /// The peers of the mesh, none where none are given.
    pub open spec fn spec_peers(self) -> Seq<Peer> {
        match self.peers {
            Some(v) => v@,
            None => Seq::empty(),
        }
    }

    /// Whether a node with the given key is among the peers.
    pub open spec fn spec_has_peer(self, key: PublicKey) -> bool {
        exists|i: int| 0 <= i < self.spec_peers().len() && (#[trigger] self.spec_peers()[i]).base.public_key == key
    }

    /// Where the first peer with the given key stands.
    pub fn find_peer(&self, key: &PublicKey) -> (at: Option<usize>)
        ensures
            match at {
                Some(i) => i < self.spec_peers().len() && self.spec_peers()[i as int].base.public_key
                    == *key && forall|j: int|
                    0 <= j < i ==> (#[trigger] self.spec_peers()[j]).base.public_key != *key,
                None => !self.spec_has_peer(*key),
            },
            at is Some <==> self.spec_has_peer(*key),
    {
        match &self.peers {
            Some(v) => {
                let mut i: usize = 0;
                while i < v.len()
                    invariant
                        i <= v@.len(),
                        self.peers == Some(*v),
                        forall|j: int| 0 <= j < i ==> (#[trigger] v@[j]).base.public_key != *key,
                    decreases v@.len() - i,
                {
                    if v[i].base.public_key == *key {
                        return Some(i);
                    }
                    i = i + 1;
                }
                None
            },
            None => None,
        }
    }

    /// Whether a node with the given key is among the peers.
    pub fn has_peer(&self, key: &PublicKey) -> (r: bool)
        ensures
            r == self.spec_has_peer(*key),
    {
        self.find_peer(key).is_some()
    }
}

/// Whether a mesh that may be switched off has a peer with the given key.
pub open spec fn mesh_has_peer(config: Option<Config>, key: PublicKey) -> bool {
    match config {
        Some(c) => c.spec_has_peer(key),
        None => false,
    }
}

} // verus!
