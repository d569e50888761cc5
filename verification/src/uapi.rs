//! The WireGuard cross-platform configuration protocol: the interface and its
//! peers, and what a peer's last handshake says of its connection.

use crate::ip::{Endpoint, IpNet};
use crate::keys::{PublicKey, SecretKey};
use crate::mesh::{copy_nets, same_nets, Node, NodeState, PathType};
use crate::time::Duration;
use vstd::prelude::*;

verus! {

/// Why a response could not be read.
#[derive(Debug, PartialEq, Eq)]
pub enum Error {
    /// The value of the named key could not be read; the text says why.
    ParsingError(&'static str, String),
}

impl Error {
    /// The key whose value could not be read.
    pub open spec fn spec_key(self) -> Seq<char> {
        match self {
            Error::ParsingError(key, _) => key@,
        }
    }

    /// The reason given.
    pub open spec fn spec_message(self) -> Seq<char> {
        match self {
            Error::ParsingError(_, message) => message@,
        }
    }

    /// The sentence that describes the error.
    pub fn message(&self) -> (s: String)
        ensures
            s@ == "Parsing of '"@ + self.spec_key() + "' failed: "@ + self.spec_message(),
    {
        match self {
            Error::ParsingError(key, message) => {
                let mut out: Vec<char> = Vec::new();
                crate::text::push_str(&mut out, "Parsing of '");
                crate::text::push_str(&mut out, key);
                crate::text::push_str(&mut out, "' failed: ");
                crate::text::push_str(&mut out, message.as_str());
                crate::text::string_of(&out)
            },
        }
    }
}

/// The connection state of a peer.
pub type PeerState = NodeState;

/// A peer of a WireGuard interface.
#[derive(Debug, PartialEq, Eq)]
pub struct Peer {
    /// Public key, the peer's identity.
    pub public_key: PublicKey,
    /// Where the peer is reached.
    pub endpoint: Option<Endpoint>,
    /// Seconds between keepalive packets.
    pub persistent_keepalive_interval: Option<u32>,
    /// The networks routed to the peer.
    pub allowed_ips: Vec<IpNet>,
    /// Bytes received; not used when the peer is written.
    pub rx_bytes: Option<u64>,
    /// Bytes sent; not used when the peer is written.
    pub tx_bytes: Option<u64>,
    /// Time since the last handshake, where there was one.
    pub time_since_last_handshake: Option<Duration>,
}

/// What a `Peer` holds, with a sequence in place of the vector.
pub struct PeerView {
    pub public_key: PublicKey,
    pub endpoint: Option<Endpoint>,
    pub persistent_keepalive_interval: Option<u32>,
    pub allowed_ips: Seq<IpNet>,
    pub rx_bytes: Option<u64>,
    pub tx_bytes: Option<u64>,
    pub time_since_last_handshake: Option<Duration>,
}

impl View for Peer {
    type V = PeerView;

    open spec fn view(&self) -> PeerView {
        PeerView {
            public_key: self.public_key,
            endpoint: self.endpoint,
            persistent_keepalive_interval: self.persistent_keepalive_interval,
            allowed_ips: self.allowed_ips@,
            rx_bytes: self.rx_bytes,
            tx_bytes: self.tx_bytes,
            time_since_last_handshake: self.time_since_last_handshake,
        }
    }
}

/// Seconds after which a session without a new handshake is rejected.
pub const REJECT_AFTER_TIME_SECS: u64 = 180;

/// Jitter added to a rekey timeout, in nanoseconds.
pub const REKEY_TIMEOUT_JITTER_NANOS: u32 = 334_000_000;

impl PeerView {
    /// A peer with this key and nothing else.
    pub open spec fn new(public_key: PublicKey) -> PeerView {
        PeerView {
            public_key,
            endpoint: None,
            persistent_keepalive_interval: None,
            allowed_ips: Seq::empty(),
            rx_bytes: None,
            tx_bytes: None,
            time_since_last_handshake: None,
        }
    }

    /// A handshake was made less than 180.334 seconds ago.
    pub open spec fn is_connected(self) -> bool {
        match self.time_since_last_handshake {
            Some(d) => d.secs < REJECT_AFTER_TIME_SECS || (d.secs == REJECT_AFTER_TIME_SECS
                && d.nanos < REKEY_TIMEOUT_JITTER_NANOS),
            None => false,
        }
    }

    /// Connected, or else connecting.
    pub open spec fn state(self) -> NodeState {
        if self.is_connected() {
            NodeState::Connected
        } else {
            NodeState::Connecting
        }
    }

    /// The same key, endpoint, keepalive interval and allowed networks.
    pub open spec fn same_config(self, other: PeerView) -> bool {
        &&& self.public_key == other.public_key
        &&& self.endpoint == other.endpoint
        &&& self.persistent_keepalive_interval == other.persistent_keepalive_interval
        &&& self.allowed_ips == other.allowed_ips
    }
}

/// The connected threshold: a peer counts as connected exactly while less
/// than 180.334 seconds have passed since its last handshake.
pub proof fn lemma_connected_threshold(peer: PeerView)
    requires
        peer.time_since_last_handshake matches Some(d) ==> d.wf(),
    ensures
        peer.is_connected() <==> peer.time_since_last_handshake is Some
            && peer.time_since_last_handshake.unwrap().spec_nanos() < 180_334_000_000,
{
}

/// Time since a handshake made at `lht` of the UNIX clock, read at `now`.
/// A handshake time of zero means that there was none.
pub open spec fn time_since(lht: Option<Duration>, now: Duration) -> Option<Duration> {
    match lht {
        Some(t) => if (t.secs == 0 && t.nanos == 0) || now.spec_nanos() < t.spec_nanos() {
            None
        } else {
            Some(Duration::spec_of_nanos((now.spec_nanos() - t.spec_nanos()) as nat))
        },
        None => None,
    }
}

/// Time since a handshake made at `lht` of the UNIX clock, with the clock's
/// reading `now`: none where the clock could not be read.
pub open spec fn time_since_reading(lht: Option<Duration>, now: Option<Duration>) -> Option<
    Duration,
> {
    match now {
        Some(n) => time_since(lht, n),
        None => None,
    }
}

/// `SystemTime::now` and `duration_since` the UNIX epoch: the time of the
/// clock, of which nothing is known but that its nanoseconds are below a
/// second; `None` where the clock stands before the epoch.
#[verifier::external_body]
pub(crate) fn unix_time() -> (now: Option<Duration>)
    ensures
        now matches Some(d) ==> d.wf(),
{
    std::time::SystemTime::now().duration_since(std::time::UNIX_EPOCH).ok().map(
        |d| Duration { secs: d.as_secs(), nanos: d.subsec_nanos() },
    )
}

impl Peer {
    /// A peer with this key and nothing else.
    pub fn new(public_key: PublicKey) -> (peer: Peer)
        ensures
            peer@ == PeerView::new(public_key),
    {
        Peer {
            public_key,
            endpoint: None,
            persistent_keepalive_interval: None,
            allowed_ips: Vec::new(),
            rx_bytes: None,
            tx_bytes: None,
            time_since_last_handshake: None,
        }
    }

    /// Every allowed network has a prefix that fits its address, an endpoint
    /// has a zone only with IPv6, and the time holds less than a second of
    /// nanoseconds.
    pub open spec fn wf(self) -> bool {
        &&& forall|i: int| 0 <= i < self.allowed_ips@.len() ==> (#[trigger] self.allowed_ips@[i]).wf()
        &&& self.endpoint matches Some(e) ==> e.wf()
        &&& self.time_since_last_handshake matches Some(d) ==> d.wf()
    }

    /// Whether the peer is still connected: a handshake was made less than
    /// 180.334 seconds ago.
    pub fn is_connected(&self) -> (r: bool)
        ensures
            r == self@.is_connected(),
            self.time_since_last_handshake matches Some(d) ==> (d.wf() ==> r == (d.spec_nanos()
                < 180_334_000_000)),
            self.time_since_last_handshake is None ==> !r,
    {
        match self.time_since_last_handshake {
            Some(d) => d.secs < REJECT_AFTER_TIME_SECS || (d.secs == REJECT_AFTER_TIME_SECS
                && d.nanos < REKEY_TIMEOUT_JITTER_NANOS),
            None => false,
        }
    }

    /// The state of the peer: connected, or else connecting.
    pub fn state(&self) -> (s: PeerState)
        ensures
            s == self@.state(),
    {
        if self.is_connected() {
            NodeState::Connected
        } else {
            NodeState::Connecting
        }
    }

    /// Whether endpoint and allowed networks are those of the other peer.
    pub fn is_same_event(&self, other: &Peer) -> (r: bool)
        ensures
            r == (self.endpoint == other.endpoint && self.allowed_ips@ == other.allowed_ips@),
    {
        self.endpoint == other.endpoint && same_nets(&self.allowed_ips, &other.allowed_ips)
    }

    /// Whether the other peer has the same key, endpoint, keepalive interval
    /// and allowed networks.
    pub fn same_config(&self, other: &Peer) -> (r: bool)
        ensures
            r == self@.same_config(other@),
    {
        self.public_key == other.public_key && self.endpoint == other.endpoint
            && self.persistent_keepalive_interval == other.persistent_keepalive_interval
            && same_nets(&self.allowed_ips, &other.allowed_ips)
    }

    /// Time since the handshake made at `lht` of the UNIX clock, read at `now`.
    pub fn calculate_time_since_last_handshake_at(lht: Option<Duration>, now: Duration) -> (r:
        Option<Duration>)
        requires
            now.wf(),
            lht matches Some(t) ==> t.wf(),
        ensures
            r == time_since(lht, now),
            r matches Some(d) ==> d.wf() && d.spec_nanos() + lht.unwrap().spec_nanos()
                == now.spec_nanos(),
    {
        match lht {
            Some(t) => {
                if t.is_zero() {
                    None
                } else {
                    let d = now.checked_sub(&t);
                    proof {
                        if let Some(x) = d {
                            crate::time::lemma_duration_by_nanos(
                                x,
                                Duration::spec_of_nanos(
                                    (now.spec_nanos() - t.spec_nanos()) as nat,
                                ),
                            );
                        }
                    }
                    d
                }
            },
            None => None,
        }
    }

    /// Time since the handshake made at `lht` of the UNIX clock, by the
    /// clock of the machine: the reading of the clock less the time of the
    /// handshake. There is none without a handshake, which a time of zero
    /// means too, and none where the clock cannot be read or stands before
    /// the handshake.
    pub fn calculate_time_since_last_handshake(lht: Option<Duration>) -> (r: Option<Duration>)
        requires
            lht matches Some(t) ==> t.wf(),
        ensures
            exists|now: Option<Duration>|
                (now matches Some(n) ==> n.wf()) && r == #[trigger] time_since_reading(lht, now),
            lht is None || (lht.unwrap().secs == 0 && lht.unwrap().nanos == 0) ==> r is None,
            r matches Some(d) ==> d.wf(),
    {
        let now = unix_time();
        let r = match now {
            Some(n) => Self::calculate_time_since_last_handshake_at(lht, n),
            None => None,
        };
        proof {
            assert(r == time_since_reading(lht, now));
        }
        r
    }

    /// The peer that a node asks for, with a keepalive every 25 seconds.
    pub fn from_node(node: &Node) -> (peer: Peer)
        ensures
            peer@ == (PeerView {
                endpoint: node.endpoint,
                persistent_keepalive_interval: Some(25u32),
                allowed_ips: node.allowed_ips@,
                ..PeerView::new(node.public_key)
            }),
    {
        Peer {
            public_key: node.public_key,
            endpoint: node.endpoint,
            persistent_keepalive_interval: Some(25),
            allowed_ips: copy_nets(&node.allowed_ips),
            rx_bytes: None,
            tx_bytes: None,
            time_since_last_handshake: None,
        }
    }
}

impl Clone for Peer {
    fn clone(&self) -> (peer: Peer)
        ensures
            peer@ == self@,
    {
        Peer {
            public_key: self.public_key,
            endpoint: self.endpoint,
            persistent_keepalive_interval: self.persistent_keepalive_interval,
            allowed_ips: copy_nets(&self.allowed_ips),
            rx_bytes: self.rx_bytes,
            tx_bytes: self.tx_bytes,
            time_since_last_handshake: self.time_since_last_handshake,
        }
    }
}

impl Default for Peer {
    fn default() -> (peer: Peer)
        ensures
            peer@ == PeerView::new(PublicKey { hi: 0, lo: 0 }),
    {
        Peer::new(PublicKey { hi: 0, lo: 0 })
    }
}

/// The state of a peer, to be passed on.
#[derive(Debug, PartialEq, Eq)]
pub struct Event {
    pub state: PeerState,
    pub peer: Peer,
}

/// What is reported of a peer for analytics.
#[derive(Clone, Debug)]
pub struct AnalyticsEvent {
    pub public_key: PublicKey,
    pub endpoint: Endpoint,
    pub tx_bytes: u64,
    pub rx_bytes: u64,
    pub peer_state: PeerState,
    /// Reading of a clock that never runs backwards.
    pub timestamp: Duration,
}

impl Node {
    /// The node that stands for a peer in the given state: on the relayed
    /// path, and with nothing known but key, allowed networks and endpoint.
    pub open spec fn spec_of_peer(peer: PeerView, state: NodeState) -> crate::mesh::NodeView {
        crate::mesh::NodeView {
            identifier: Seq::empty(),
            public_key: peer.public_key,
            state,
            is_exit: false,
            is_vpn: false,
            ip_addresses: Seq::empty(),
            allowed_ips: peer.allowed_ips,
            endpoint: peer.endpoint,
            hostname: None,
            allow_incoming_connections: false,
            allow_peer_send_files: false,
            path: PathType::Relay,
        }
    }

    /// The node that stands for a peer, as disconnected.
    pub fn from_peer(peer: &Peer) -> (node: Node)
        ensures
            node@ == Self::spec_of_peer(peer@, NodeState::Disconnected),
    {
        Node {
            identifier: String::new(),
            public_key: peer.public_key,
            state: NodeState::Disconnected,
            is_exit: false,
            is_vpn: false,
            ip_addresses: Vec::new(),
            allowed_ips: copy_nets(&peer.allowed_ips),
            endpoint: peer.endpoint,
            hostname: None,
            allow_incoming_connections: false,
            allow_peer_send_files: false,
            path: PathType::Relay,
        }
    }

    /// The node that stands for the peer of an event, in the event's state.
    pub fn from_event(event: &Event) -> (node: Node)
        ensures
            node@ == Self::spec_of_peer(event.peer@, event.state),
    {
        Node {
            identifier: String::new(),
            public_key: event.peer.public_key,
            state: event.state,
            is_exit: false,
            is_vpn: false,
            ip_addresses: Vec::new(),
            allowed_ips: copy_nets(&event.peer.allowed_ips),
            endpoint: event.peer.endpoint,
            hostname: None,
            allow_incoming_connections: false,
            allow_peer_send_files: false,
            path: PathType::Relay,
        }
    }
}


/// The keys of the peers rise strictly, so that none occurs twice.
pub open spec fn keys_sorted(s: Seq<PeerView>) -> bool {
    forall|i: int, j: int|
        0 <= i < j < s.len() ==> (#[trigger] s[i]).public_key.spec_lt((#[trigger] s[j]).public_key)
}

/// The peers with `p` put in the place of its key.
pub open spec fn upsert(s: Seq<PeerView>, p: PeerView) -> Seq<PeerView>
    decreases s.len(),
{
    if s.len() == 0 {
        seq![p]
    } else if s.last().public_key.spec_lt(p.public_key) {
        s.push(p)
    } else if s.last().public_key == p.public_key {
        s.drop_last().push(p)
    } else {
        upsert(s.drop_last(), p).push(s.last())
    }
}

/// The peers without the one of the given key.
pub open spec fn without(s: Seq<PeerView>, key: PublicKey) -> Seq<PeerView>
    decreases s.len(),
{
    if s.len() == 0 {
        s
    } else if s.last().public_key == key {
        without(s.drop_last(), key)
    } else {
        without(s.drop_last(), key).push(s.last())
    }
}

/// The peer of the given key, if there is one.
pub open spec fn lookup(s: Seq<PeerView>, key: PublicKey) -> Option<PeerView>
    decreases s.len(),
{
    if s.len() == 0 {
        None
    } else if s.last().public_key == key {
        Some(s.last())
    } else {
        lookup(s.drop_last(), key)
    }
}

/// The views of some peers, in their order.
pub open spec fn peer_views(peers: Seq<Peer>) -> Seq<PeerView> {
    Seq::new(peers.len(), |i: int| peers[i]@)
}

/// Where the keys rise, putting a peer in is an insertion at the first
/// place whose key is not lower, or an update of that place.
pub proof fn lemma_upsert_at(s: Seq<PeerView>, p: PeerView, i: int)
    requires
        keys_sorted(s),
        0 <= i <= s.len(),
        forall|j: int| 0 <= j < i ==> (#[trigger] s[j]).public_key.spec_lt(p.public_key),
        forall|j: int| i <= j < s.len() ==> !(#[trigger] s[j]).public_key.spec_lt(p.public_key),
    ensures
        upsert(s, p) == if i < s.len() && s[i].public_key == p.public_key {
            s.update(i, p)
        } else {
            s.insert(i, p)
        },
        keys_sorted(upsert(s, p)),
    decreases s.len(),
{
    if s.len() == 0 {
        assert(s.insert(0, p) =~= seq![p]);
    } else if s.last().public_key.spec_lt(p.public_key) {
        assert(i == s.len());
        assert(s.insert(i, p) =~= s.push(p));
    } else if s.last().public_key == p.public_key {
        if i < s.len() - 1 {
            assert(s[i].public_key.spec_lt(s[s.len() - 1].public_key));
        }
        assert(i == s.len() - 1);
        assert(s.update(i, p) =~= s.drop_last().push(p));
    } else {
        let front = s.drop_last();
        assert(i <= s.len() - 1);
        lemma_upsert_at(front, p, i);
        if i < front.len() && front[i].public_key == p.public_key {
            assert(front.update(i, p).push(s.last()) =~= s.update(i, p));
        } else {
            assert(front.insert(i, p).push(s.last()) =~= s.insert(i, p));
            if i < s.len() {
                assert(!s[i].public_key.spec_lt(p.public_key));
            }
        }
        let r = upsert(s, p);
        assert forall|a: int, b: int| 0 <= a < b < r.len() implies (#[trigger] r[a]).public_key.spec_lt(
            (#[trigger] r[b]).public_key,
        ) by {
            if b < r.len() - 1 {
                assert(upsert(front, p)[a].public_key.spec_lt(upsert(front, p)[b].public_key));
            } else {
                if i < front.len() && front[i].public_key == p.public_key {
                    if a == i {
                    } else {
                        assert(s[a].public_key.spec_lt(s[s.len() - 1].public_key));
                    }
                } else {
                    if a < i {
                        assert(s[a].public_key.spec_lt(s[s.len() - 1].public_key));
                    } else if a == i {
                    } else {
                        assert(s[a - 1].public_key.spec_lt(s[s.len() - 1].public_key));
                    }
                }
            }
        }
    }
}

/// After a peer was put in, its key finds it, and every other key finds
/// what it found before.
pub proof fn lemma_lookup_upsert(s: Seq<PeerView>, p: PeerView, key: PublicKey)
    ensures
        lookup(upsert(s, p), key) == if key == p.public_key {
            Some(p)
        } else {
            lookup(s, key)
        },
    decreases s.len(),
{
    let r = upsert(s, p);
    if s.len() == 0 {
        assert(r.drop_last() =~= Seq::<PeerView>::empty());
        assert(r.last() == p);
        assert(lookup(r.drop_last(), key) is None);
    } else if s.last().public_key.spec_lt(p.public_key) {
        assert(r.drop_last() =~= s);
        assert(r.last() == p);
    } else if s.last().public_key == p.public_key {
        assert(r.drop_last() =~= s.drop_last());
        assert(r.last() == p);
    } else {
        lemma_lookup_upsert(s.drop_last(), p, key);
        assert(r.drop_last() =~= upsert(s.drop_last(), p));
        assert(r.last() == s.last());
    }
}

/// After a key was taken out, it finds nothing, and every other key finds
/// what it found before.
pub proof fn lemma_lookup_without(s: Seq<PeerView>, gone: PublicKey, key: PublicKey)
    ensures
        lookup(without(s, gone), key) == if key == gone {
            None
        } else {
            lookup(s, key)
        },
    decreases s.len(),
{
    if s.len() == 0 {
    } else if s.last().public_key == gone {
        lemma_lookup_without(s.drop_last(), gone, key);
    } else {
        lemma_lookup_without(s.drop_last(), gone, key);
        assert(without(s.drop_last(), gone).push(s.last()).drop_last() =~= without(
            s.drop_last(),
            gone,
        ));
    }
}

/// What a key finds has that key and is one of the peers.
pub proof fn lemma_lookup_some(s: Seq<PeerView>, key: PublicKey)
    ensures
        lookup(s, key) matches Some(p) ==> p.public_key == key && s.contains(p),
        lookup(s, key) is None ==> forall|i: int|
            0 <= i < s.len() ==> (#[trigger] s[i]).public_key != key,
    decreases s.len(),
{
    if s.len() > 0 {
        if s.last().public_key == key {
            assert(s[s.len() - 1] == s.last());
        } else {
            lemma_lookup_some(s.drop_last(), key);
            if let Some(p) = lookup(s, key) {
                let i = choose|i: int| 0 <= i < s.drop_last().len() && s.drop_last()[i] == p;
                assert(s[i] == p);
            } else {
                assert forall|i: int| 0 <= i < s.len() implies (#[trigger] s[i]).public_key
                    != key by {
                    if i < s.len() - 1 {
                        assert(s.drop_last()[i] == s[i]);
                    }
                }
            }
        }
    }
}

/// Where no key occurs twice, the key of a peer finds that peer.
pub proof fn lemma_lookup_at(s: Seq<PeerView>, i: int)
    requires
        keys_sorted(s),
        0 <= i < s.len(),
    ensures
        lookup(s, s[i].public_key) == Some(s[i]),
    decreases s.len(),
{
    if i == s.len() - 1 {
    } else {
        assert(s[i].public_key.spec_lt(s[s.len() - 1].public_key));
        assert(s.drop_last()[i] == s[i]);
        lemma_lookup_at(s.drop_last(), i);
    }
}

/// Where the keys rise, taking a key out removes the place that holds it.
pub proof fn lemma_without_at(s: Seq<PeerView>, key: PublicKey, i: int)
    requires
        keys_sorted(s),
        0 <= i <= s.len(),
        i < s.len() ==> s[i].public_key == key,
        i == s.len() ==> forall|j: int| 0 <= j < s.len() ==> (#[trigger] s[j]).public_key != key,
    ensures
        without(s, key) == if i < s.len() {
            s.remove(i)
        } else {
            s
        },
        keys_sorted(without(s, key)),
    decreases s.len(),
{
    if s.len() == 0 {
    } else {
        let front = s.drop_last();
        if s.last().public_key == key {
            if i < s.len() - 1 {
                assert(s[i].public_key.spec_lt(s[s.len() - 1].public_key));
            }
            assert(i == s.len() - 1);
            assert forall|j: int| 0 <= j < front.len() implies (#[trigger] front[j]).public_key
                != key by {
                assert(s[j].public_key.spec_lt(s[s.len() - 1].public_key));
            }
            lemma_without_at(front, key, front.len() as int);
            assert(s.remove(i) =~= front);
        } else {
            let k = if i < s.len() {
                i
            } else {
                front.len() as int
            };
            assert forall|j: int| 0 <= j < front.len() && i == s.len() implies (
            #[trigger] front[j]).public_key != key by {
                assert(s[j].public_key != key);
            }
            lemma_without_at(front, key, k);
            if i < s.len() {
                assert(front.remove(i).push(s.last()) =~= s.remove(i));
            } else {
                assert(front.push(s.last()) =~= s);
            }
            let r = without(s, key);
            assert forall|a: int, b: int| 0 <= a < b < r.len() implies (
            #[trigger] r[a]).public_key.spec_lt((#[trigger] r[b]).public_key) by {
                if b < r.len() - 1 {
                    assert(without(front, key)[a].public_key.spec_lt(
                        without(front, key)[b].public_key,
                    ));
                } else if i < s.len() {
                    if a < i {
                        assert(s[a].public_key.spec_lt(s[s.len() - 1].public_key));
                    } else {
                        assert(s[a + 1].public_key.spec_lt(s[s.len() - 1].public_key));
                    }
                } else {
                    assert(s[a].public_key.spec_lt(s[s.len() - 1].public_key));
                }
            }
        }
    }
}

/// A WireGuard interface. Its peers stand in the order of their keys, and
/// no key occurs twice.
#[derive(Debug, PartialEq, Eq)]
pub struct Interface {
    pub private_key: Option<SecretKey>,
    pub listen_port: Option<u16>,
    /// Firewall mark; 0 means none.
    pub fwmark: u32,
    pub peers: Vec<Peer>,
}

/// What an `Interface` holds, with the views of its peers.
pub struct InterfaceView {
    pub private_key: Option<SecretKey>,
    pub listen_port: Option<u16>,
    pub fwmark: u32,
    pub peers: Seq<PeerView>,
}

impl View for Interface {
    type V = InterfaceView;

    open spec fn view(&self) -> InterfaceView {
        InterfaceView {
            private_key: self.private_key,
            listen_port: self.listen_port,
            fwmark: self.fwmark,
            peers: peer_views(self.peers@),
        }
    }
}

impl InterfaceView {
    /// An interface with nothing set.
    pub open spec fn empty() -> InterfaceView {
        InterfaceView { private_key: None, listen_port: None, fwmark: 0, peers: Seq::empty() }
    }

    /// The keys of the peers rise strictly.
    pub open spec fn wf(self) -> bool {
        keys_sorted(self.peers)
    }
}

impl Interface {
    /// The keys of the peers rise strictly.
    pub open spec fn wf(self) -> bool {
        keys_sorted(self@.peers)
    }

    /// Each peer is well formed.
    pub open spec fn peers_wf(self) -> bool {
        forall|i: int| 0 <= i < self.peers@.len() ==> (#[trigger] self.peers@[i]).wf()
    }

    /// An interface with nothing set.
    pub fn new() -> (itf: Interface)
        ensures
            itf@ == InterfaceView::empty(),
            itf.wf(),
            itf.peers_wf(),
    {
        let itf = Interface { private_key: None, listen_port: None, fwmark: 0, peers: Vec::new() };
        proof {
            assert(itf@.peers =~= Seq::<PeerView>::empty());
        }
        itf
    }

    /// The first place whose key is not below the given one.
    fn lower_bound(&self, key: &PublicKey) -> (i: usize)
        ensures
            i <= self.peers@.len(),
            forall|j: int| 0 <= j < i ==> (#[trigger] self@.peers[j]).public_key.spec_lt(*key),
            i < self.peers@.len() ==> !self@.peers[i as int].public_key.spec_lt(*key),
    {
        let mut i: usize = 0;
        while i < self.peers.len() && self.peers[i].public_key.lt(key)
            invariant
                i <= self.peers@.len(),
                forall|j: int| 0 <= j < i ==> (#[trigger] self@.peers[j]).public_key.spec_lt(*key),
            decreases self.peers@.len() - i,
        {
            i = i + 1;
        }
        i
    }

    /// The place of the peer with the given key.
    pub fn position_of(&self, key: &PublicKey) -> (at: Option<usize>)
        requires
            self.wf(),
        ensures
            match at {
                Some(i) => i < self.peers@.len() && self.peers@[i as int].public_key == *key
                    && lookup(self@.peers, *key) == Some(self.peers@[i as int]@),
                None => lookup(self@.peers, *key) is None,
            },
    {
        let i = self.lower_bound(key);
        if i < self.peers.len() && self.peers[i].public_key == *key {
            proof {
                lemma_lookup_at(self@.peers, i as int);
            }
            Some(i)
        } else {
            proof {
                lemma_lookup_some(self@.peers, *key);
                if let Some(p) = lookup(self@.peers, *key) {
                    let j = choose|j: int| 0 <= j < self@.peers.len() && self@.peers[j] == p;
                    if j < i {
                        assert(self@.peers[j].public_key.spec_lt(*key));
                    } else if j > i {
                        assert(self@.peers[i as int].public_key.spec_lt(self@.peers[j].public_key));
                    }
                }
            }
            None
        }
    }

    /// The peer with the given key.
    pub fn get_peer(&self, key: &PublicKey) -> (peer: Option<&Peer>)
        requires
            self.wf(),
        ensures
            match peer {
                Some(p) => lookup(self@.peers, *key) == Some(p@) && p.public_key == *key && (
                self.peers_wf() ==> p.wf()),
                None => lookup(self@.peers, *key) is None,
            },
    {
        match self.position_of(key) {
            Some(i) => Some(&self.peers[i]),
            None => None,
        }
    }

    /// Puts a peer in the place of its key: in place of the peer that had the
    /// key, or as a new one.
    pub fn insert_peer(&mut self, peer: Peer)
        requires
            old(self).wf(),
        ensures
            final(self).wf(),
            old(self).peers_wf() && peer.wf() ==> final(self).peers_wf(),
            final(self)@ == (InterfaceView { peers: upsert(old(self)@.peers, peer@), ..old(self)@ }),
    {
        let i = self.lower_bound(&peer.public_key);
        let ghost before = self.peers@;
        let ghost p = peer@;
        proof {
            let s = peer_views(before);
            assert forall|j: int| i <= j < s.len() implies !(#[trigger] s[j]).public_key.spec_lt(
                p.public_key,
            ) by {
                if j > i {
                    assert(s[i as int].public_key.spec_lt(s[j].public_key));
                }
            }
            lemma_upsert_at(s, p, i as int);
        }
        if i < self.peers.len() && self.peers[i].public_key == peer.public_key {
            self.peers.set(i, peer);
            proof {
                assert(peer_views(self.peers@) =~= peer_views(before).update(i as int, p));
            }
        } else {
            self.peers.insert(i, peer);
            proof {
                assert(peer_views(self.peers@) =~= peer_views(before).insert(i as int, p));
            }
        }
    }

    /// Takes out the peer with the given key, if there is one.
    pub fn remove_peer(&mut self, key: &PublicKey)
        requires
            old(self).wf(),
        ensures
            final(self).wf(),
            old(self).peers_wf() ==> final(self).peers_wf(),
            final(self)@ == (InterfaceView { peers: without(old(self)@.peers, *key), ..old(self)@ }),
    {
        let ghost before = self.peers@;
        match self.position_of(key) {
            Some(i) => {
                proof {
                    lemma_without_at(peer_views(before), *key, i as int);
                }
                let _ = self.peers.remove(i);
                proof {
                    assert(peer_views(self.peers@) =~= peer_views(before).remove(i as int));
                }
            },
            None => {
                proof {
                    lemma_lookup_some(peer_views(before), *key);
                    lemma_without_at(peer_views(before), *key, before.len() as int);
                }
            },
        }
    }
}

impl Clone for Interface {
    fn clone(&self) -> (itf: Interface)
        ensures
            itf@ == self@,
            self.wf() ==> itf.wf(),
            self.peers_wf() ==> itf.peers_wf(),
    {
        let mut peers: Vec<Peer> = Vec::new();
        let mut i: usize = 0;
        while i < self.peers.len()
            invariant
                i <= self.peers@.len(),
                peers@.len() == i,
                forall|j: int| 0 <= j < i ==> (#[trigger] peers@[j])@ == self.peers@[j]@,
                forall|j: int|
                    0 <= j < i ==> ((#[trigger] peers@[j]).wf() <==> self.peers@[j].wf()),
            decreases self.peers@.len() - i,
        {
            let p = self.peers[i].clone();
            proof {
                assert(p.wf() <==> self.peers@[i as int].wf()) by {
                    assert(p@ == self.peers@[i as int]@);
                }
            }
            peers.push(p);
            i = i + 1;
        }
        let itf = Interface {
            private_key: self.private_key,
            listen_port: self.listen_port,
            fwmark: self.fwmark,
            peers,
        };
        proof {
            assert(itf@.peers =~= self@.peers);
        }
        itf
    }
}

impl Default for Interface {
    fn default() -> (itf: Interface)
        ensures
            itf@ == InterfaceView::empty(),
            itf.wf(),
            itf.peers_wf(),
    {
        Interface::new()
    }
}

/// The answer to a request.
#[derive(Debug, PartialEq, Eq)]
pub struct Response {
    /// The error code; 0 means none.
    pub errno: i32,
    /// The interface, where the answer describes one.
    pub interface: Option<Interface>,
}

/// What a `Response` holds.
pub struct ResponseView {
    pub errno: i32,
    pub interface: Option<InterfaceView>,
}

impl View for Response {
    type V = ResponseView;

    open spec fn view(&self) -> ResponseView {
        ResponseView {
            errno: self.errno,
            interface: match self.interface {
                Some(itf) => Some(itf@),
                None => None,
            },
        }
    }
}


/// The line of an answer that tells its error: `error=` and the code, for
/// a code other than 0; and else nothing.
pub open spec fn error_line(errno: i32) -> Seq<char> {
    if errno != 0 {
        "error="@ + crate::text::signed_text(errno as int) + seq!['\n']
    } else {
        Seq::empty()
    }
}

impl Response {
    /// The line that tells the error of the answer.
    pub fn to_text(&self) -> (text: String)
        ensures
            text@ == error_line(self.errno),
    {
        let mut out: Vec<char> = Vec::new();
        if self.errno != 0 {
            crate::text::push_str(&mut out, "error=");
            crate::text::write_signed(&mut out, self.errno);
            out.push('\n');
            proof {
                assert(out@ =~= error_line(self.errno));
            }
        }
        crate::text::string_of(&out)
    }
}

} // verus!
