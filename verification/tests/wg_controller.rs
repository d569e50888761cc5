use telio::ip::{Endpoint, IpAddress};
use telio::keys::{PublicKey, SecretKey};
use telio::uapi::{Interface, Peer};
use telio::wg_controller::{check_allowed_ips_correctness, reduce, UapiOp};

fn key(n: u8) -> PublicKey {
    let mut bytes = [0u8; 32];
    bytes[0] = n;
    PublicKey::from_bytes(&bytes)
}

fn peer(n: u8, last: u8) -> Peer {
    let mut p = Peer::new(key(n));
    p.allowed_ips = vec![IpAddress::v4(10, 0, 0, last).host_net()];
    p.endpoint = Some(Endpoint::new(IpAddress::v4(127, 0, 0, 1), 1000 + n as u16));
    p.persistent_keepalive_interval = Some(25);
    p
}

fn interface(peers: Vec<Peer>) -> Interface {
    let mut itf = Interface::new();
    for p in peers {
        itf.insert_peer(p);
    }
    itf
}

#[test]
fn the_writes_take_the_interface_to_what_is_asked_for() {
    let mut desired = interface(vec![peer(1, 1), peer(2, 2), peer(4, 4), peer(5, 5)]);
    desired.private_key = Some(SecretKey::from_bytes(&[3u8; 32]));
    desired.fwmark = 9;

    let mut kept = peer(1, 1);
    kept.rx_bytes = Some(77);
    let mut moved = peer(2, 2);
    moved.endpoint = Some(Endpoint::new(IpAddress::v4(9, 9, 9, 9), 9));
    let mut changed = peer(4, 40);
    changed.tx_bytes = Some(1);
    let mut live = interface(vec![kept.clone(), moved, peer(3, 3), changed]);
    live.listen_port = Some(1234);

    let ops = reduce(&desired, &live);
    assert_eq!(
        ops,
        vec![
            UapiOp::SetPrivateKey(SecretKey::from_bytes(&[3u8; 32])),
            UapiOp::SetFwmark(9),
            UapiOp::RemovePeer(key(3)),
            UapiOp::UpdateEndpoint(key(2), peer(2, 2).endpoint.unwrap()),
            UapiOp::AddPeer(peer(4, 4)),
            UapiOp::AddPeer(peer(5, 5)),
        ]
    );
    live.apply_all(&ops);
    assert_eq!(live.listen_port, Some(1234));
    assert_eq!(live.private_key, desired.private_key);
    assert_eq!(live.fwmark, 9);
    assert_eq!(live.peers.len(), 4);
    assert_eq!(live.get_peer(&key(1)), Some(&kept));
    assert_eq!(live.get_peer(&key(2)), Some(&peer(2, 2)));
    assert_eq!(live.get_peer(&key(4)), Some(&peer(4, 4)));
    assert_eq!(live.get_peer(&key(5)), Some(&peer(5, 5)));
    assert!(reduce(&desired, &live).is_empty());
    assert!(check_allowed_ips_correctness(&live.peers));
}

#[test]
fn a_lost_endpoint_is_sent_with_the_whole_peer() {
    let mut wanted = peer(1, 1);
    wanted.endpoint = None;
    let desired = interface(vec![wanted.clone()]);
    let mut live = interface(vec![peer(1, 1)]);
    let ops = reduce(&desired, &live);
    assert_eq!(ops, vec![UapiOp::AddPeer(wanted)]);
    live.apply_all(&ops);
    assert!(reduce(&desired, &live).is_empty());
    // an update for a peer that the interface does not have changes nothing
    let before = live.clone();
    live.apply(&UapiOp::UpdateEndpoint(
        key(9),
        Endpoint::new(IpAddress::V4(1), 1),
    ));
    assert_eq!(live, before);
}

#[test]
fn a_network_of_two_peers_is_found() {
    assert!(check_allowed_ips_correctness(&vec![]));
    assert!(check_allowed_ips_correctness(&vec![
        peer(1, 1),
        peer(2, 2),
        peer(3, 3)
    ]));
    assert!(!check_allowed_ips_correctness(&vec![
        peer(1, 1),
        peer(2, 2),
        peer(3, 1)
    ]));
    // twice with one peer is no fault
    let mut twice = peer(1, 1);
    twice.allowed_ips.push(twice.allowed_ips[0]);
    assert!(check_allowed_ips_correctness(&vec![twice, peer(2, 2)]));
    let mut many = peer(4, 4);
    many.allowed_ips.push(IpAddress::v4(10, 0, 0, 2).host_net());
    assert!(!check_allowed_ips_correctness(&vec![
        peer(1, 1),
        peer(2, 2),
        many
    ]));
}
