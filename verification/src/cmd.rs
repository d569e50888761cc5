//! Writing a request to a WireGuard device: `get=1`, or `set=1` followed by
//! what to set, one `key=value` a line.

use crate::ip::{Endpoint, IpNet};
use crate::keys::{PublicKey, SecretKey};
use crate::mesh::copy_nets;
use crate::text::{decimal_text, push_str, string_of, write_decimal};
use crate::time::Duration;
use crate::uapi::{time_since, upsert, Interface, InterfaceView, Peer, PeerView};
use crate::wg_controller::{OpView, UapiOp};
use vstd::prelude::*;

verus! {

/// What to set of a peer.
#[derive(Debug, PartialEq, Eq)]
pub struct SetPeer {
    pub public_key: PublicKey,
    /// Remove the peer.
    pub remove: Option<bool>,
    /// Change the peer only if the interface has it.
    pub update_only: Option<bool>,
    pub endpoint: Option<Endpoint>,
    pub persistent_keepalive_interval: Option<u16>,
    /// Let the allowed networks that follow replace those that the peer has.
    pub replace_allowed_ips: Option<bool>,
    pub allowed_ips: Vec<IpNet>,
}

/// What a `SetPeer` holds.
pub struct SetPeerView {
    pub public_key: PublicKey,
    pub remove: Option<bool>,
    pub update_only: Option<bool>,
    pub endpoint: Option<Endpoint>,
    pub persistent_keepalive_interval: Option<u16>,
    pub replace_allowed_ips: Option<bool>,
    pub allowed_ips: Seq<IpNet>,
}

impl View for SetPeer {
    type V = SetPeerView;

    open spec fn view(&self) -> SetPeerView {
        SetPeerView {
            public_key: self.public_key,
            remove: self.remove,
            update_only: self.update_only,
            endpoint: self.endpoint,
            persistent_keepalive_interval: self.persistent_keepalive_interval,
            replace_allowed_ips: self.replace_allowed_ips,
            allowed_ips: self.allowed_ips@,
        }
    }
}

/// What to set of an interface.
#[derive(Debug, PartialEq, Eq)]
pub struct SetDevice {
    pub private_key: Option<SecretKey>,
    pub listen_port: Option<u16>,
    /// The firewall mark; 0 takes the mark off.
    pub fwmark: Option<u32>,
    /// Let the peers that follow replace those that the interface has.
    pub replace_peers: Option<bool>,
    pub peers: Vec<SetPeer>,
}

/// What a `SetDevice` holds.
pub struct SetDeviceView {
    pub private_key: Option<SecretKey>,
    pub listen_port: Option<u16>,
    pub fwmark: Option<u32>,
    pub replace_peers: Option<bool>,
    pub peers: Seq<SetPeerView>,
}

/// The views of some peers to set, in their order.
pub open spec fn set_peer_views(peers: Seq<SetPeer>) -> Seq<SetPeerView> {
    Seq::new(peers.len(), |i: int| peers[i]@)
}

impl View for SetDevice {
    type V = SetDeviceView;

    open spec fn view(&self) -> SetDeviceView {
        SetDeviceView {
            private_key: self.private_key,
            listen_port: self.listen_port,
            fwmark: self.fwmark,
            replace_peers: self.replace_peers,
            peers: set_peer_views(self.peers@),
        }
    }
}

/// A request to a device.
#[derive(Debug, PartialEq, Eq)]
pub enum Cmd {
    /// Asks for the interface.
    Get,
    /// Sets what the device holds.
    SetDevice(SetDevice),
}

/// The line `key=value`.
pub open spec fn line(key: Seq<char>, value: Seq<char>) -> Seq<char> {
    key + seq!['='] + value + seq!['\n']
}

/// `true` or `false`.
pub open spec fn bool_text(b: bool) -> Seq<char> {
    if b {
        "true"@
    } else {
        "false"@
    }
}

/// The line of a flag that is given.
pub open spec fn flag_line(key: Seq<char>, flag: Option<bool>) -> Seq<char> {
    match flag {
        Some(b) => line(key, bool_text(b)),
        None => Seq::empty(),
    }
}

/// The line of a number that is given.
pub open spec fn number_line(key: Seq<char>, number: Option<nat>) -> Seq<char> {
    match number {
        Some(n) => line(key, decimal_text(n)),
        None => Seq::empty(),
    }
}

/// A line `allowed_ip=` for each network.
pub open spec fn allowed_ips_text(ips: Seq<IpNet>) -> Seq<char>
    decreases ips.len(),
{
    if ips.len() == 0 {
        Seq::empty()
    } else {
        allowed_ips_text(ips.drop_last()) + line("allowed_ip"@, ips.last().spec_text())
    }
}

/// The lines of a peer that follow the line of its key.
pub open spec fn set_peer_body(p: SetPeerView) -> Seq<char> {
    flag_line("remove"@, p.remove) + flag_line("update_only"@, p.update_only) + (match p.endpoint {
        Some(e) => line("endpoint"@, e.spec_text()),
        None => Seq::<char>::empty(),
    }) + number_line(
        "persistent_keepalive_interval"@,
        match p.persistent_keepalive_interval {
            Some(k) => Some(k as nat),
            None => None,
        },
    ) + flag_line("replace_allowed_ips"@, p.replace_allowed_ips) + allowed_ips_text(p.allowed_ips)
}

/// The lines of a peer: its key, then what to set of it.
pub open spec fn set_peer_text(p: SetPeerView) -> Seq<char> {
    line("public_key"@, p.public_key.spec_hex()) + set_peer_body(p)
}

/// The lines of some peers.
pub open spec fn set_peers_text(peers: Seq<SetPeerView>) -> Seq<char>
    decreases peers.len(),
{
    if peers.len() == 0 {
        Seq::empty()
    } else {
        set_peers_text(peers.drop_last()) + set_peer_text(peers.last())
    }
}

/// The lines of the interface itself.
pub open spec fn set_head_text(d: SetDeviceView) -> Seq<char> {
    (match d.private_key {
        Some(k) => line("private_key"@, k.spec_hex()),
        None => Seq::<char>::empty(),
    }) + number_line(
        "listen_port"@,
        match d.listen_port {
            Some(p) => Some(p as nat),
            None => None,
        },
    ) + number_line(
        "fwmark"@,
        match d.fwmark {
            Some(m) => Some(m as nat),
            None => None,
        },
    ) + flag_line("replace_peers"@, d.replace_peers)
}

/// The lines of what to set: those of the interface, then those of each peer.
pub open spec fn set_device_text(d: SetDeviceView) -> Seq<char> {
    set_head_text(d) + set_peers_text(d.peers)
}

/// What a `Cmd` holds.
pub enum CmdView {
    Get,
    SetDevice(SetDeviceView),
}

impl View for Cmd {
    type V = CmdView;

    open spec fn view(&self) -> CmdView {
        match self {
            Cmd::Get => CmdView::Get,
            Cmd::SetDevice(d) => CmdView::SetDevice(d@),
        }
    }
}

/// The text of a request: `get=1`, or `set=1`, what to set, and an empty line.
pub open spec fn cmd_text(cmd: CmdView) -> Seq<char> {
    match cmd {
        CmdView::Get => line("get"@, "1"@),
        CmdView::SetDevice(d) => line("set"@, "1"@) + set_device_text(d) + seq!['\n'],
    }
}

fn write_line_start(out: &mut Vec<char>, key: &str)
    ensures
        final(out)@ == old(out)@ + key@ + seq!['='],
{
    push_str(out, key);
    out.push('=');
}

fn write_flag(out: &mut Vec<char>, key: &str, flag: Option<bool>)
    ensures
        final(out)@ == old(out)@ + flag_line(key@, flag),
{
    let ghost before = out@;
    match flag {
        Some(b) => {
            write_line_start(out, key);
            if b {
                push_str(out, "true");
            } else {
                push_str(out, "false");
            }
            out.push('\n');
            proof {
                assert(out@ =~= before + flag_line(key@, flag));
            }
        },
        None => {
            proof {
                assert(out@ =~= before + flag_line(key@, flag));
            }
        },
    }
}

fn write_number(out: &mut Vec<char>, key: &str, number: Option<u64>)
    ensures
        final(out)@ == old(out)@ + number_line(
            key@,
            match number {
                Some(n) => Some(n as nat),
                None => None,
            },
        ),
{
    let ghost before = out@;
    match number {
        Some(n) => {
            write_line_start(out, key);
            write_decimal(out, n);
            out.push('\n');
            proof {
                assert(out@ =~= before + line(key@, decimal_text(n as nat)));
            }
        },
        None => {
            proof {
                assert(out@ =~= before + Seq::<char>::empty());
            }
        },
    }
}

fn widen16(x: Option<u16>) -> (r: Option<u64>)
    ensures
        r == match x {
            Some(v) => Some(v as u64),
            None => None,
        },
{
    match x {
        Some(v) => Some(v as u64),
        None => None,
    }
}

fn widen32(x: Option<u32>) -> (r: Option<u64>)
    ensures
        r == match x {
            Some(v) => Some(v as u64),
            None => None,
        },
{
    match x {
        Some(v) => Some(v as u64),
        None => None,
    }
}

impl SetPeer {
    /// A peer with the given key and nothing to set.
    pub fn from_public_key(public_key: PublicKey) -> (p: SetPeer)
        ensures
            p@ == (SetPeerView {
                public_key,
                remove: None,
                update_only: None,
                endpoint: None,
                persistent_keepalive_interval: None,
                replace_allowed_ips: None,
                allowed_ips: Seq::empty(),
            }),
    {
        SetPeer {
            public_key,
            remove: None,
            update_only: None,
            endpoint: None,
            persistent_keepalive_interval: None,
            replace_allowed_ips: None,
            allowed_ips: Vec::new(),
        }
    }

    /// Appends the lines of the peer.
    pub fn write(&self, out: &mut Vec<char>)
        ensures
            final(out)@ == old(out)@ + set_peer_text(self@),
    {
        let ghost before = out@;
        write_line_start(out, "public_key");
        self.public_key.write_hex(out);
        out.push('\n');
        let ghost a = out@;
        write_flag(out, "remove", self.remove);
        write_flag(out, "update_only", self.update_only);
        let ghost b = out@;
        match self.endpoint {
            Some(e) => {
                write_line_start(out, "endpoint");
                e.write(out);
                out.push('\n');
                proof {
                    assert(out@ =~= b + line("endpoint"@, e.spec_text()));
                }
            },
            None => {
                proof {
                    assert(out@ =~= b + Seq::<char>::empty());
                }
            },
        }
        write_number(
            out,
            "persistent_keepalive_interval",
            widen16(self.persistent_keepalive_interval),
        );
        write_flag(out, "replace_allowed_ips", self.replace_allowed_ips);
        let ghost c = out@;
        let mut i: usize = 0;
        proof {
            assert(self.allowed_ips@.subrange(0, 0) =~= Seq::<IpNet>::empty());
            assert(out@ =~= c + allowed_ips_text(self.allowed_ips@.subrange(0, 0)));
        }
        while i < self.allowed_ips.len()
            invariant
                i <= self.allowed_ips@.len(),
                out@ == c + allowed_ips_text(self.allowed_ips@.subrange(0, i as int)),
            decreases self.allowed_ips@.len() - i,
        {
            let ghost mid = out@;
            write_line_start(out, "allowed_ip");
            self.allowed_ips[i].write(out);
            out.push('\n');
            proof {
                let next = self.allowed_ips@.subrange(0, i + 1);
                assert(next.drop_last() =~= self.allowed_ips@.subrange(0, i as int));
                assert(next.last() == self.allowed_ips@[i as int]);
                assert(out@ =~= mid + line("allowed_ip"@, self.allowed_ips@[i as int].spec_text()));
                assert(out@ =~= c + allowed_ips_text(next));
            }
            i = i + 1;
        }
        proof {
            assert(self.allowed_ips@.subrange(0, self.allowed_ips@.len() as int)
                =~= self.allowed_ips@);
            assert(a =~= before + line("public_key"@, self.public_key.spec_hex()));
            assert(out@ =~= before + set_peer_text(self@));
        }
    }
}

impl SetDevice {
    /// Nothing to set.
    pub fn new() -> (d: SetDevice)
        ensures
            d@ == (SetDeviceView {
                private_key: None,
                listen_port: None,
                fwmark: None,
                replace_peers: None,
                peers: Seq::empty(),
            }),
    {
        let d = SetDevice {
            private_key: None,
            listen_port: None,
            fwmark: None,
            replace_peers: None,
            peers: Vec::new(),
        };
        proof {
            assert(d@.peers =~= Seq::<SetPeerView>::empty());
        }
        d
    }

    /// Appends the lines of what to set.
    pub fn write(&self, out: &mut Vec<char>)
        ensures
            final(out)@ == old(out)@ + set_device_text(self@),
    {
        let ghost before = out@;
        match self.private_key {
            Some(k) => {
                write_line_start(out, "private_key");
                k.write_hex(out);
                out.push('\n');
                proof {
                    assert(out@ =~= before + line("private_key"@, k.spec_hex()));
                }
            },
            None => {
                proof {
                    assert(out@ =~= before + Seq::<char>::empty());
                }
            },
        }
        write_number(out, "listen_port", widen16(self.listen_port));
        write_number(out, "fwmark", widen32(self.fwmark));
        write_flag(out, "replace_peers", self.replace_peers);
        let ghost head = out@;
        proof {
            assert(head =~= before + set_head_text(self@));
        }
        let mut i: usize = 0;
        proof {
            assert(self@.peers.subrange(0, 0) =~= Seq::<SetPeerView>::empty());
            assert(out@ =~= head + set_peers_text(self@.peers.subrange(0, 0)));
        }
        while i < self.peers.len()
            invariant
                i <= self.peers@.len(),
                out@ == head + set_peers_text(self@.peers.subrange(0, i as int)),
            decreases self.peers@.len() - i,
        {
            let ghost mid = out@;
            self.peers[i].write(out);
            proof {
                let next = self@.peers.subrange(0, i + 1);
                assert(next.drop_last() =~= self@.peers.subrange(0, i as int));
                assert(next.last() == self.peers@[i as int]@);
                assert(out@ =~= head + set_peers_text(next));
            }
            i = i + 1;
        }
        proof {
            assert(self@.peers.subrange(0, self.peers@.len() as int) =~= self@.peers);
            assert(out@ =~= before + set_device_text(self@));
        }
    }
}

impl Cmd {
    /// The text of the request.
    pub fn to_text(&self) -> (text: String)
        ensures
            text@ == cmd_text(self@),
    {
        let mut out: Vec<char> = Vec::new();
        match self {
            Cmd::Get => {
                write_line_start(&mut out, "get");
                push_str(&mut out, "1");
                out.push('\n');
                proof {
                    assert(out@ =~= line("get"@, "1"@));
                }
            },
            Cmd::SetDevice(d) => {
                write_line_start(&mut out, "set");
                push_str(&mut out, "1");
                out.push('\n');
                let ghost head = out@;
                d.write(&mut out);
                out.push('\n');
                proof {
                    assert(head =~= line("set"@, "1"@));
                    assert(out@ =~= line("set"@, "1"@) + set_device_text(d@) + seq!['\n']);
                }
            },
        }
        string_of(&out)
    }
}

/// What is set of a peer so that the device holds it as the interface
/// does: its endpoint, its keepalive interval cut to 16 bits, and the
/// network of each allowed network.
pub open spec fn set_peer_of(p: PeerView) -> SetPeerView {
    SetPeerView {
        public_key: p.public_key,
        remove: None,
        update_only: None,
        endpoint: p.endpoint,
        persistent_keepalive_interval: match p.persistent_keepalive_interval {
            Some(k) => Some((k % 0x1_0000) as u16),
            None => None,
        },
        replace_allowed_ips: None,
        allowed_ips: Seq::new(p.allowed_ips.len(), |i: int| p.allowed_ips[i].spec_network()),
    }
}

/// What is set so that the device holds what the interface holds. A
/// firewall mark of 0 is not set.
pub open spec fn set_device_of(itf: InterfaceView) -> SetDeviceView {
    SetDeviceView {
        private_key: itf.private_key,
        listen_port: itf.listen_port,
        fwmark: if itf.fwmark == 0 {
            None
        } else {
            Some(itf.fwmark)
        },
        replace_peers: None,
        peers: Seq::new(itf.peers.len(), |i: int| set_peer_of(itf.peers[i])),
    }
}

/// The peer that a device holds once this was set of it, as far as that
/// tells: its networks, unless the prefix of one is longer than its address.
pub open spec fn peer_of_set(p: SetPeerView) -> PeerView {
    PeerView {
        endpoint: p.endpoint,
        persistent_keepalive_interval: match p.persistent_keepalive_interval {
            Some(k) => Some(k as u32),
            None => None,
        },
        allowed_ips: if forall|i: int| 0 <= i < p.allowed_ips.len() ==> (#[trigger] p.allowed_ips[i]).wf() {
            p.allowed_ips
        } else {
            Seq::empty()
        },
        ..PeerView::new(p.public_key)
    }
}

/// The peers that a device holds once these were set, each in the place of its key.
pub open spec fn peers_of_set(peers: Seq<SetPeerView>) -> Seq<PeerView>
    decreases peers.len(),
{
    if peers.len() == 0 {
        Seq::empty()
    } else {
        upsert(peers_of_set(peers.drop_last()), peer_of_set(peers.last()))
    }
}

fn nets_wf(nets: &Vec<IpNet>) -> (r: bool)
    ensures
        r == forall|i: int| 0 <= i < nets@.len() ==> (#[trigger] nets@[i]).wf(),
{
    let mut i: usize = 0;
    while i < nets.len()
        invariant
            i <= nets@.len(),
            forall|j: int| 0 <= j < i ==> (#[trigger] nets@[j]).wf(),
        decreases nets@.len() - i,
    {
        if nets[i].prefix > nets[i].ip.bits() {
            assert(!nets@[i as int].wf());
            return false;
        }
        i = i + 1;
    }
    true
}

impl Peer {
    /// What is set of the peer so that a device holds it.
    pub fn to_set_peer(&self) -> (p: SetPeer)
        ensures
            p@ == set_peer_of(self@),
    {
        let mut allowed_ips: Vec<IpNet> = Vec::new();
        let mut i: usize = 0;
        while i < self.allowed_ips.len()
            invariant
                i <= self.allowed_ips@.len(),
                allowed_ips@.len() == i,
                forall|j: int|
                    0 <= j < i ==> allowed_ips@[j] == (#[trigger] self.allowed_ips@[j]).spec_network(),
            decreases self.allowed_ips@.len() - i,
        {
            allowed_ips.push(self.allowed_ips[i].network());
            i = i + 1;
        }
        proof {
            assert(allowed_ips@ =~= set_peer_of(self@).allowed_ips);
        }
        SetPeer {
            public_key: self.public_key,
            remove: None,
            update_only: None,
            endpoint: self.endpoint,
            persistent_keepalive_interval: match self.persistent_keepalive_interval {
                Some(k) => Some((k % 0x1_0000) as u16),
                None => None,
            },
            replace_allowed_ips: None,
            allowed_ips,
        }
    }

    /// The peer that a device holds once this was set of it.
    pub fn from_set_peer(item: &SetPeer) -> (peer: Peer)
        ensures
            peer@ == peer_of_set(item@),
    {
        Peer {
            public_key: item.public_key,
            endpoint: item.endpoint,
            persistent_keepalive_interval: match item.persistent_keepalive_interval {
                Some(k) => Some(k as u32),
                None => None,
            },
            allowed_ips: if nets_wf(&item.allowed_ips) {
                copy_nets(&item.allowed_ips)
            } else {
                Vec::new()
            },
            rx_bytes: None,
            tx_bytes: None,
            time_since_last_handshake: None,
        }
    }
}

impl Interface {
    /// What is set so that a device holds what the interface holds.
    pub fn to_set_device(&self) -> (d: SetDevice)
        ensures
            d@ == set_device_of(self@),
    {
        let mut peers: Vec<SetPeer> = Vec::new();
        let mut i: usize = 0;
        while i < self.peers.len()
            invariant
                i <= self.peers@.len(),
                peers@.len() == i,
                forall|j: int| 0 <= j < i ==> (#[trigger] peers@[j])@ == set_peer_of(self.peers@[j]@),
            decreases self.peers@.len() - i,
        {
            peers.push(self.peers[i].to_set_peer());
            i = i + 1;
        }
        let d = SetDevice {
            private_key: self.private_key,
            listen_port: self.listen_port,
            fwmark: if self.fwmark == 0 {
                None
            } else {
                Some(self.fwmark)
            },
            replace_peers: None,
            peers,
        };
        proof {
            assert(d@.peers =~= set_device_of(self@).peers);
        }
        d
    }

    /// The interface that a device holds once this was set of an empty one.
    pub fn from_set_device(item: &SetDevice) -> (itf: Interface)
        ensures
            itf.wf(),
            itf@ == (InterfaceView {
                private_key: item.private_key,
                listen_port: item.listen_port,
                fwmark: match item.fwmark {
                    Some(m) => m,
                    None => 0,
                },
                peers: peers_of_set(item@.peers),
            }),
    {
        let mut itf = Interface::new();
        itf.private_key = item.private_key;
        itf.listen_port = item.listen_port;
        itf.fwmark = match item.fwmark {
            Some(m) => m,
            None => 0,
        };
        let mut i: usize = 0;
        proof {
            assert(item@.peers.subrange(0, 0) =~= Seq::<SetPeerView>::empty());
        }
        while i < item.peers.len()
            invariant
                i <= item.peers@.len(),
                itf.wf(),
                itf.private_key == item.private_key,
                itf.listen_port == item.listen_port,
                itf.fwmark == match item.fwmark {
                    Some(m) => m,
                    None => 0,
                },
                itf@.peers == peers_of_set(item@.peers.subrange(0, i as int)),
            decreases item.peers@.len() - i,
        {
            proof {
                let next = item@.peers.subrange(0, i + 1);
                assert(next.drop_last() =~= item@.peers.subrange(0, i as int));
                assert(next.last() == item.peers@[i as int]@);
            }
            itf.insert_peer(Peer::from_set_peer(&item.peers[i]));
            i = i + 1;
        }
        proof {
            assert(item@.peers.subrange(0, item.peers@.len() as int) =~= item@.peers);
        }
        itf
    }
}

/// What a device reports of a peer.
#[derive(Debug, PartialEq, Eq)]
pub struct GetPeer {
    pub public_key: PublicKey,
    pub endpoint: Option<Endpoint>,
    pub persistent_keepalive_interval: u16,
    /// The time of the last handshake by the UNIX clock; zero where there was none.
    pub last_handshake_time: Duration,
    pub rx_bytes: u64,
    pub tx_bytes: u64,
    pub allowed_ips: Vec<IpNet>,
}

/// What a device reports of itself.
#[derive(Debug, PartialEq, Eq)]
pub struct GetDevice {
    pub private_key: Option<SecretKey>,
    pub listen_port: u16,
    pub fwmark: u32,
    pub peers: Vec<GetPeer>,
}

/// The peer that a report describes, with the clock's reading `now`.
pub open spec fn peer_of_report(p: GetPeer, now: Option<Duration>) -> PeerView {
    PeerView {
        public_key: p.public_key,
        endpoint: p.endpoint,
        persistent_keepalive_interval: Some(p.persistent_keepalive_interval as u32),
        allowed_ips: if forall|i: int| 0 <= i < p.allowed_ips@.len() ==> (#[trigger] p.allowed_ips@[i]).wf() {
            p.allowed_ips@
        } else {
            Seq::empty()
        },
        rx_bytes: Some(p.rx_bytes),
        tx_bytes: Some(p.tx_bytes),
        time_since_last_handshake: match now {
            Some(n) => time_since(Some(p.last_handshake_time), n),
            None => None,
        },
    }
}

/// The peers that some reports describe, each in the place of its key.
pub open spec fn peers_of_reports(peers: Seq<GetPeer>, now: Option<Duration>) -> Seq<PeerView>
    decreases peers.len(),
{
    if peers.len() == 0 {
        Seq::empty()
    } else {
        upsert(peers_of_reports(peers.drop_last(), now), peer_of_report(peers.last(), now))
    }
}

impl Peer {
    /// The peer that a report describes, with the clock's reading `now`.
    pub fn from_get_peer(item: &GetPeer, now: Option<Duration>) -> (peer: Peer)
        requires
            item.last_handshake_time.wf(),
            now matches Some(n) ==> n.wf(),
        ensures
            peer@ == peer_of_report(*item, now),
    {
        Peer {
            public_key: item.public_key,
            endpoint: item.endpoint,
            persistent_keepalive_interval: Some(item.persistent_keepalive_interval as u32),
            allowed_ips: if nets_wf(&item.allowed_ips) {
                copy_nets(&item.allowed_ips)
            } else {
                Vec::new()
            },
            rx_bytes: Some(item.rx_bytes),
            tx_bytes: Some(item.tx_bytes),
            time_since_last_handshake: match now {
                Some(n) => Peer::calculate_time_since_last_handshake_at(
                    Some(item.last_handshake_time),
                    n,
                ),
                None => None,
            },
        }
    }
}

impl Interface {
    /// The interface that a report describes, with the clock's reading `now`.
    pub fn from_get_device(item: &GetDevice, now: Option<Duration>) -> (itf: Interface)
        requires
            forall|i: int|
                0 <= i < item.peers@.len() ==> (#[trigger] item.peers@[i]).last_handshake_time.wf(),
            now matches Some(n) ==> n.wf(),
        ensures
            itf.wf(),
            itf@ == (InterfaceView {
                private_key: item.private_key,
                listen_port: Some(item.listen_port),
                fwmark: item.fwmark,
                peers: peers_of_reports(item.peers@, now),
            }),
    {
        let mut itf = Interface::new();
        itf.private_key = item.private_key;
        itf.listen_port = Some(item.listen_port);
        itf.fwmark = item.fwmark;
        let mut i: usize = 0;
        proof {
            assert(item.peers@.subrange(0, 0) =~= Seq::<GetPeer>::empty());
        }
        while i < item.peers.len()
            invariant
                i <= item.peers@.len(),
                itf.wf(),
                itf.private_key == item.private_key,
                itf.listen_port == Some(item.listen_port),
                itf.fwmark == item.fwmark,
                itf@.peers == peers_of_reports(item.peers@.subrange(0, i as int), now),
                forall|i: int|
                    0 <= i < item.peers@.len() ==> (
                    #[trigger] item.peers@[i]).last_handshake_time.wf(),
                now matches Some(n) ==> n.wf(),
            decreases item.peers@.len() - i,
        {
            proof {
                let next = item.peers@.subrange(0, i + 1);
                assert(next.drop_last() =~= item.peers@.subrange(0, i as int));
                assert(next.last() == item.peers@[i as int]);
            }
            itf.insert_peer(Peer::from_get_peer(&item.peers[i], now));
            i = i + 1;
        }
        proof {
            assert(item.peers@.subrange(0, item.peers@.len() as int) =~= item.peers@);
        }
        itf
    }
}

/// What is set to make a write.
pub open spec fn set_device_of_op(op: OpView) -> SetDeviceView {
    let nothing = SetDeviceView {
        private_key: None,
        listen_port: None,
        fwmark: None,
        replace_peers: None,
        peers: Seq::empty(),
    };
    let only = |key: PublicKey|
        SetPeerView {
            public_key: key,
            remove: None,
            update_only: None,
            endpoint: None,
            persistent_keepalive_interval: None,
            replace_allowed_ips: None,
            allowed_ips: Seq::empty(),
        };
    match op {
        OpView::SetPrivateKey(k) => SetDeviceView { private_key: Some(k), ..nothing },
        OpView::SetFwmark(m) => SetDeviceView { fwmark: Some(m), ..nothing },
        OpView::RemovePeer(k) => SetDeviceView {
            peers: seq![SetPeerView { remove: Some(true), ..only(k) }],
            ..nothing
        },
        OpView::AddPeer(p) => SetDeviceView {
            peers: seq![SetPeerView { replace_allowed_ips: Some(true), ..set_peer_of(p) }],
            ..nothing
        },
        OpView::UpdateEndpoint(k, e) => SetDeviceView {
            peers: seq![SetPeerView { update_only: Some(true), endpoint: Some(e), ..only(k) }],
            ..nothing
        },
    }
}

impl UapiOp {
    /// The request that makes the write: a removed peer is sent with the
    /// flag `remove`, a new endpoint as an update of the peer, and a peer
    /// that is new or changed whole, its allowed networks replacing those
    /// that the device has for it.
    pub fn to_cmd(&self) -> (cmd: Cmd)
        ensures
            cmd@ == CmdView::SetDevice(set_device_of_op(self@)),
    {
        let mut d = SetDevice::new();
        match self {
            UapiOp::SetPrivateKey(k) => {
                d.private_key = Some(*k);
            },
            UapiOp::SetFwmark(m) => {
                d.fwmark = Some(*m);
            },
            UapiOp::RemovePeer(k) => {
                let mut p = SetPeer::from_public_key(*k);
                p.remove = Some(true);
                let ghost pv = p@;
                d.peers.push(p);
                proof {
                    assert(d@.peers =~= seq![pv]);
                }
            },
            UapiOp::AddPeer(peer) => {
                let mut p = peer.to_set_peer();
                p.replace_allowed_ips = Some(true);
                let ghost pv = p@;
                d.peers.push(p);
                proof {
                    assert(d@.peers =~= seq![pv]);
                }
            },
            UapiOp::UpdateEndpoint(k, e) => {
                let mut p = SetPeer::from_public_key(*k);
                p.update_only = Some(true);
                p.endpoint = Some(*e);
                let ghost pv = p@;
                d.peers.push(p);
                proof {
                    assert(d@.peers =~= seq![pv]);
                }
            },
        }
        Cmd::SetDevice(d)
    }
}

} // verus!
