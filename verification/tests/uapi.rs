use telio::keys::{PublicKey, SecretKey};
use telio::parse::{response_from_str, response_from_str_at};
use telio::time::Duration;
use telio::ip::{Endpoint, IpAddress};
use telio::uapi::{Error, Interface, Peer, Response};

fn secret(seed: u8) -> SecretKey {
    let mut bytes = [0u8; 32];
    for (i, b) in bytes.iter_mut().enumerate() {
        *b = seed.wrapping_mul(31).wrapping_add(i as u8);
    }
    SecretKey::from_bytes(&bytes)
}

#[test]
fn bytes_data_overflow() -> Result<(), Error> {
    let sk1 = secret(1);
    let pk1 = hex::encode(sk1.public().to_bytes());
    let pk2 = hex::encode(secret(2).public().to_bytes());
    let sk1 = hex::encode(sk1.to_bytes());
    let base_string = format!(
        "\
private_key={sk1}
listen_port=12912
public_key={pk1}
endpoint=[abcd:23::33%2]:51820
allowed_ip=192.168.4.4/32
allowed_ip=fd74:656c:696::beef:4/128
last_handshake_time_nsec=1234
last_handshake_time_sec=1
public_key={pk2}
rx_bytes=RXBYTES
tx_bytes=TXBYTES
last_handshake_time_nsec=51204
last_handshake_time_sec=100
endpoint=182.122.22.19:3233
persistent_keepalive_interval=111
allowed_ip=192.168.4.10/32
allowed_ip=192.168.4.11/32
allowed_ip=fd74:656c:696f::ceed:3/128
errno=0
"
    );

    let received_bytes_overflow_string = base_string
        .replace("RXBYTES", "1000000000000")
        .replace("TXBYTES", "100"); // more than 4gb received in total
    let sent_bytes_overflow_string = base_string
        .replace("RXBYTES", "100")
        .replace("TXBYTES", "1000000000000"); // more than 4gb sent in total

    response_from_str(&received_bytes_overflow_string)?;
    response_from_str(&sent_bytes_overflow_string)?;
    Ok(())
}

#[test]
fn zero_listen_port_becomes_none() {
    let resp_str = "\
listen_port=0
errno=0
";
    let resp = Response {
        errno: 0,
        interface: Some(Interface::default()),
    };
    assert_eq!(response_from_str(&resp_str), Ok(resp));
}

#[test]
fn parsed_peers_hold_what_the_lines_say() {
    let sk = secret(3);
    let pk1 = secret(4).public();
    let text = format!(
        "private_key={}\nlisten_port=51820\nfwmark=7\npublic_key={}\nendpoint=10.0.0.1:1000\nrx_bytes=1000000000000\ntx_bytes=100\nlast_handshake_time_sec=1646405900\nlast_handshake_time_nsec=500\nallowed_ip=100.64.0.2/32\nerrno=0\n\n",
        sk.to_hex(),
        pk1.to_hex()
    );
    let now = Duration { secs: 1646405984, nanos: 0 };
    let resp = response_from_str_at(&text, Some(now)).unwrap();
    assert_eq!(resp.errno, 0);
    let itf = resp.interface.unwrap();
    assert_eq!(itf.private_key, Some(sk));
    assert_eq!(itf.listen_port, Some(51820));
    assert_eq!(itf.fwmark, 7);
    assert_eq!(itf.peers.len(), 1);
    let p = &itf.peers[0];
    assert_eq!(p.public_key, pk1);
    assert_eq!(p.rx_bytes, Some(1000000000000));
    assert_eq!(p.tx_bytes, Some(100));
    assert_eq!(
        p.time_since_last_handshake,
        Some(Duration { secs: 83, nanos: 999_999_500 })
    );
    assert!(p.is_connected());
    let _ = PublicKey::default();
}

fn peer_after(secs: u64, nanos: u32) -> telio::uapi::Peer {
    let mut p = telio::uapi::Peer::new(PublicKey::default());
    p.time_since_last_handshake = Some(Duration { secs, nanos });
    p
}

#[test]
fn a_peer_is_connected_for_180_334_seconds_after_a_handshake() {
    assert!(peer_after(0, 0).is_connected());
    assert!(peer_after(179, 999_000_000).is_connected());
    assert!(peer_after(180, 0).is_connected());
    assert!(peer_after(180, 333_999_999).is_connected());
    assert!(!peer_after(180, 334_000_000).is_connected());
    assert!(!peer_after(181, 0).is_connected());
    assert!(!telio::uapi::Peer::new(PublicKey::default()).is_connected());
    assert_eq!(
        peer_after(10, 0).state(),
        telio::mesh::NodeState::Connected
    );
    assert_eq!(
        peer_after(500, 0).state(),
        telio::mesh::NodeState::Connecting
    );
}

#[test]
fn time_since_the_last_handshake_is_taken_from_the_clock() {
    let now = Duration { secs: 1646405984, nanos: 5 };
    assert_eq!(Peer::calculate_time_since_last_handshake_at(None, now), None);
    assert_eq!(
        Peer::calculate_time_since_last_handshake_at(Some(Duration::from_secs(0)), now),
        None
    );
    assert_eq!(
        Peer::calculate_time_since_last_handshake_at(
            Some(Duration { secs: 1646405983, nanos: 6 }),
            now
        ),
        Some(Duration { secs: 0, nanos: 999_999_999 })
    );
    assert_eq!(
        Peer::calculate_time_since_last_handshake_at(Some(now), now),
        Some(Duration::from_secs(0))
    );
    assert_eq!(
        Peer::calculate_time_since_last_handshake_at(
            Some(Duration { secs: 1646405984, nanos: 6 }),
            now
        ),
        None
    );
    assert_eq!(Peer::calculate_time_since_last_handshake(None), None);
    // a handshake at the start of 2022 is in the past
    assert!(
        Peer::calculate_time_since_last_handshake(Some(Duration::from_secs(1640995200)))
            .is_some()
    );
}

#[test]
fn same_event_looks_at_endpoint_and_allowed_networks() {
    let mut a = telio::uapi::Peer::new(secret(1).public());
    let mut b = telio::uapi::Peer::new(secret(2).public());
    b.rx_bytes = Some(4);
    assert!(a.is_same_event(&b));
    assert!(!a.same_config(&b));
    a.endpoint = Some(Endpoint::new(IpAddress::v4(1, 1, 1, 1), 1));
    assert!(!a.is_same_event(&b));
    b.endpoint = a.endpoint;
    b.allowed_ips.push(IpAddress::v4(1, 1, 1, 1).host_net());
    assert!(!a.is_same_event(&b));
}

fn failure(text: &str) -> (&'static str, String) {
    match response_from_str_at(text, None) {
        Err(Error::ParsingError(key, message)) => (key, message),
        Ok(r) => panic!("read as {:?}", r),
    }
}

#[test]
fn each_key_says_why_its_value_is_refused() {
    assert_eq!(failure("listen_port\n"), ("cmd", "not in A=B format".to_owned()));
    assert_eq!(
        failure("listen_port=\n"),
        ("listen_port", "cannot parse integer from empty string".to_owned())
    );
    assert_eq!(
        failure("listen_port=65536\n"),
        ("listen_port", "number too large to fit in target type".to_owned())
    );
    assert_eq!(
        failure("fwmark=-1\n"),
        ("fwmark", "invalid digit found in string".to_owned())
    );
    assert_eq!(
        failure("errno=-2147483649\n"),
        ("errno", "number too small to fit in target type".to_owned())
    );
    assert_eq!(
        failure("private_key=00\n"),
        ("private_key", "expected 64 hexadecimal digits".to_owned())
    );
    assert_eq!(
        failure("public_key=zz\n"),
        ("public_key", "expected 64 hexadecimal digits".to_owned())
    );
    let head = format!("public_key={}\n", "00".repeat(32));
    let peer = |line: &str| failure(&format!("{head}{line}\n"));
    assert_eq!(peer("oops"), ("cmd", "not in A=B format".to_owned()));
    assert_eq!(
        peer("endpoint=1.2.3.4"),
        ("endpoint", "invalid socket address syntax".to_owned())
    );
    assert_eq!(
        peer("allowed_ip=1.2.3.4/33"),
        ("allowed_ip", "invalid address: 1.2.3.4/33".to_owned())
    );
    assert_eq!(
        peer("persistent_keepalive_interval=x"),
        (
            "persistent_keepalive_interval",
            "invalid digit found in string".to_owned()
        )
    );
    assert_eq!(
        peer("rx_bytes=18446744073709551616"),
        ("rx_bytes", "number too large to fit in target type".to_owned())
    );
    assert_eq!(
        peer("tx_bytes=+"),
        ("tx_bytes", "invalid digit found in string".to_owned())
    );
    assert_eq!(
        peer("last_handshake_time_sec=18446744073709551615\nlast_handshake_time_nsec=1000000000"),
        (
            "last_handshake_time_nsec",
            "overflow when adding durations".to_owned()
        )
    );
    assert_eq!(
        peer("last_handshake_time_sec=a"),
        (
            "last_handshake_time_sec",
            "invalid digit found in string".to_owned()
        )
    );
    assert_eq!(
        peer("public_key=12"),
        ("public_key", "expected 64 hexadecimal digits".to_owned())
    );
    assert_eq!(
        peer("errno=1x"),
        ("errno", "invalid digit found in string".to_owned())
    );
    assert_eq!(
        Error::ParsingError("cmd", "not in A=B format".to_owned()).message(),
        "Parsing of 'cmd' failed: not in A=B format"
    );
}

#[test]
fn lines_are_read_as_the_protocol_says() {
    // nothing at all, and an empty line at once
    let none = Response { errno: 0, interface: None };
    assert_eq!(response_from_str_at("", None), Ok(none));
    let none = Response { errno: 0, interface: None };
    assert_eq!(response_from_str_at("\nlisten_port=5\n", None), Ok(none));
    // unknown keys are passed over; an error code alone describes no interface
    let failed = Response { errno: 13, interface: None };
    assert_eq!(response_from_str_at("foo=bar=baz\nerrno=+13\n\n", None), Ok(failed));
    let failed = Response { errno: -5, interface: None };
    assert_eq!(response_from_str_at("errno=-5\n", None), Ok(failed));
    // a last line without a line feed loses its last character
    let mut itf = Interface::new();
    itf.listen_port = Some(12);
    itf.fwmark = 4;
    assert_eq!(
        response_from_str_at("fwmark=+4\nlisten_port=123", None),
        Ok(Response { errno: 0, interface: Some(itf) })
    );
    // a second line for a key replaces the first; a peer met twice is kept once
    let k = secret(9).public();
    let text = format!(
        "listen_port=1\nlisten_port=0\npublic_key={0}\nrx_bytes=1\npublic_key={0}\ntx_bytes=2\nunknown=1\nerrno=7\nfwmark=3\n",
        k.to_hex().to_uppercase()
    );
    let resp = response_from_str_at(&text, None).unwrap();
    assert_eq!(resp.errno, 7);
    let itf = resp.interface.unwrap();
    assert_eq!(itf.listen_port, Some(1));
    assert_eq!(itf.fwmark, 3);
    assert_eq!(itf.peers.len(), 1);
    assert_eq!(itf.peers[0].public_key, k);
    assert_eq!(itf.peers[0].rx_bytes, None);
    assert_eq!(itf.peers[0].tx_bytes, Some(2));
}

#[test]
fn peers_stand_in_the_order_of_their_keys() {
    let mut keys: Vec<PublicKey> = (1..6).map(|i| secret(i).public()).collect();
    let text: String = keys
        .iter()
        .map(|k| format!("public_key={}\nallowed_ip=10.0.0.1/32\n", k.to_hex()))
        .collect();
    let itf = response_from_str_at(&text, None).unwrap().interface.unwrap();
    keys.sort_by_key(|k| k.to_bytes());
    let read: Vec<PublicKey> = itf.peers.iter().map(|p| p.public_key).collect();
    assert_eq!(read, keys);
    let mut itf = itf;
    itf.remove_peer(&keys[2]);
    itf.remove_peer(&keys[2]);
    assert_eq!(itf.peers.len(), 4);
    assert!(itf.get_peer(&keys[2]).is_none());
    assert_eq!(itf.position_of(&keys[3]), Some(2));
}

#[test]
fn an_answer_tells_its_error_in_one_line() {
    let answer = |errno| Response { errno, interface: None };
    assert_eq!(answer(0).to_text(), "");
    assert_eq!(answer(13).to_text(), "error=13\n");
    assert_eq!(answer(-2147483648).to_text(), "error=-2147483648\n");
}
