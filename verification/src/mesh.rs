//! Nodes as the host sees them.

use crate::ip::{Endpoint, IpAddress, IpNet};
use crate::keys::PublicKey;
use vstd::prelude::*;

verus! {

/// Connection state of a node.
#[derive(Clone, Copy, Debug, PartialEq, Eq, Hash, Structural)]
pub enum NodeState {
    Disconnected,
    Connecting,
    Connected,
}

/// How the traffic of a node travels.
#[derive(Clone, Copy, Debug, PartialEq, Eq, Hash, Structural)]
pub enum PathType {
    /// Through the relay, by way of the local proxy.
    Relay,
    /// Straight to an endpoint of the node.
    Direct,
}

/// A node of the network as reported to the host.
#[derive(Clone, Debug, PartialEq, Eq)]
pub struct Node {
    pub identifier: String,
    pub public_key: PublicKey,
    pub state: NodeState,
    pub is_exit: bool,
    pub is_vpn: bool,
    pub ip_addresses: Vec<IpAddress>,
    pub allowed_ips: Vec<IpNet>,
    pub endpoint: Option<Endpoint>,
    pub hostname: Option<String>,
    pub allow_incoming_connections: bool,
    pub allow_peer_send_files: bool,
    pub path: PathType,
}

/// What a `Node` holds, with sequences in place of vectors and strings.
pub struct NodeView {
    pub identifier: Seq<char>,
    pub public_key: PublicKey,
    pub state: NodeState,
    pub is_exit: bool,
    pub is_vpn: bool,
    pub ip_addresses: Seq<IpAddress>,
    pub allowed_ips: Seq<IpNet>,
    pub endpoint: Option<Endpoint>,
    pub hostname: Option<Seq<char>>,
    pub allow_incoming_connections: bool,
    pub allow_peer_send_files: bool,
    pub path: PathType,
}

impl View for Node {
    type V = NodeView;

    open spec fn view(&self) -> NodeView {
        NodeView {
            identifier: self.identifier@,
            public_key: self.public_key,
            state: self.state,
            is_exit: self.is_exit,
            is_vpn: self.is_vpn,
            ip_addresses: self.ip_addresses@,
            allowed_ips: self.allowed_ips@,
            endpoint: self.endpoint,
            hostname: match self.hostname {
                Some(h) => Some(h@),
                None => None,
            },
            allow_incoming_connections: self.allow_incoming_connections,
            allow_peer_send_files: self.allow_peer_send_files,
            path: self.path,
        }
    }
}

/// The node that traffic for the default route is sent to: a node of the
/// mesh, or, with an endpoint, a VPN server.
#[derive(Clone, Debug, Default, PartialEq, Eq)]
pub struct ExitNode {
    pub identifier: String,
    pub public_key: PublicKey,
    pub allowed_ips: Option<Vec<IpNet>>,
    pub endpoint: Option<Endpoint>,
}

/// A copy of some addresses.
pub fn copy_addresses(v: &Vec<IpAddress>) -> (r: Vec<IpAddress>)
    ensures
        r@ == v@,
{
    let mut out: Vec<IpAddress> = Vec::new();
    let mut i: usize = 0;
    while i < v.len()
        invariant
            i <= v.len(),
            out@ == v@.subrange(0, i as int),
        decreases v.len() - i,
    {
        out.push(v[i]);
        proof {
            assert(v@.subrange(0, i + 1) =~= v@.subrange(0, i as int).push(v@[i as int]));
        }
        i = i + 1;
    }
    proof {
        assert(v@.subrange(0, v@.len() as int) =~= v@);
    }
    out
}

/// A copy of some networks.
pub fn copy_nets(v: &Vec<IpNet>) -> (r: Vec<IpNet>)
    ensures
        r@ == v@,
{
    let mut out: Vec<IpNet> = Vec::new();
    let mut i: usize = 0;
    while i < v.len()
        invariant
            i <= v.len(),
            out@ == v@.subrange(0, i as int),
        decreases v.len() - i,
    {
        out.push(v[i]);
        proof {
            assert(v@.subrange(0, i + 1) =~= v@.subrange(0, i as int).push(v@[i as int]));
        }
        i = i + 1;
    }
    proof {
        assert(v@.subrange(0, v@.len() as int) =~= v@);
    }
    out
}

/// Whether two lists hold the same networks in the same order.
pub fn same_nets(a: &Vec<IpNet>, b: &Vec<IpNet>) -> (r: bool)
    ensures
        r == (a@ == b@),
{
    if a.len() != b.len() {
        return false;
    }
    let mut i: usize = 0;
    while i < a.len()
        invariant
            i <= a.len(),
            a.len() == b.len(),
            forall|j: int| 0 <= j < i ==> a@[j] == b@[j],
        decreases a.len() - i,
    {
        if a[i] != b[i] {
            return false;
        }
        i = i + 1;
    }
    proof {
        assert(a@ =~= b@);
    }
    true
}

} // verus!
