use telio::cmd::{Cmd, GetDevice, GetPeer, SetDevice, SetPeer};
use telio::ip::{Endpoint, IpAddress, IpNet};
use telio::keys::{PublicKey, SecretKey};
use telio::parse::response_from_str_at;
use telio::time::Duration;
use telio::uapi::{Interface, Peer, Response};
use telio::wg_controller::UapiOp;
use telio::text::string_of;

fn key(seed: u8) -> PublicKey {
    let mut bytes = [0u8; 32];
    for (i, b) in bytes.iter_mut().enumerate() {
        *b = seed.wrapping_mul(41).wrapping_add((i as u8).wrapping_mul(7));
    }
    PublicKey::from_bytes(&bytes)
}

fn ip_text(ip: IpAddress) -> String {
    let mut out = Vec::new();
    ip.write(&mut out);
    string_of(&out)
}

fn endpoint_text(e: Endpoint) -> String {
    let mut out = Vec::new();
    e.write(&mut out);
    string_of(&out)
}

fn outside_peer(p: &SetPeer) -> wireguard_uapi::xplatform::set::Peer {
    wireguard_uapi::xplatform::set::Peer {
        public_key: p.public_key.to_bytes(),
        remove: p.remove,
        update_only: p.update_only,
        preshared_key: None,
        endpoint: p.endpoint.map(|e| endpoint_text(e).parse().unwrap()),
        persistent_keepalive_interval: p.persistent_keepalive_interval,
        replace_allowed_ips: p.replace_allowed_ips,
        allowed_ips: p
            .allowed_ips
            .iter()
            .map(|n| wireguard_uapi::xplatform::set::AllowedIp {
                ipaddr: ip_text(n.ip).parse().unwrap(),
                cidr_mask: n.prefix,
            })
            .collect(),
    }
}

fn outside_device(d: &SetDevice) -> wireguard_uapi::xplatform::set::Device {
    wireguard_uapi::xplatform::set::Device {
        private_key: d.private_key.map(|k| k.to_bytes()),
        listen_port: d.listen_port,
        fwmark: d.fwmark,
        replace_peers: d.replace_peers,
        peers: d.peers.iter().map(outside_peer).collect(),
    }
}

fn sample() -> Interface {
    let mut itf = Interface::new();
    itf.private_key = Some(SecretKey::from_bytes(&[7u8; 32]));
    itf.listen_port = Some(12912);
    itf.fwmark = 77;
    let mut a = Peer::new(key(1));
    a.endpoint = Some(Endpoint {
        ip: IpAddress::V6(0xabcd_0023_0000_0000_0000_0000_0000_0033),
        port: 51820,
        scope_id: 2,
    });
    a.allowed_ips = vec![
        IpNet {
            ip: IpAddress::v4(192, 168, 4, 4),
            prefix: 32,
        },
        IpNet {
            ip: IpAddress::V6(0xfd74_656c_0696_0000_0000_0000_beef_0004),
            prefix: 128,
        },
    ];
    let mut b = Peer::new(key(2));
    b.endpoint = Some(Endpoint::new(IpAddress::v4(182, 122, 22, 19), 3233));
    b.persistent_keepalive_interval = Some(111);
    b.allowed_ips = vec![
        IpNet {
            ip: IpAddress::v4(192, 168, 4, 0),
            prefix: 24,
        },
        IpNet {
            ip: IpAddress::V6(0),
            prefix: 0,
        },
    ];
    itf.insert_peer(a);
    itf.insert_peer(b);
    itf.insert_peer(Peer::new(key(3)));
    itf
}

#[test]
fn get_is_one_line() {
    assert_eq!(Cmd::Get.to_text(), "get=1\n");
}

#[test]
fn set_is_written_line_by_line() {
    let mut d = SetDevice::new();
    d.private_key = Some(SecretKey::from_bytes(&[0xabu8; 32]));
    d.listen_port = Some(0);
    d.fwmark = Some(0);
    d.replace_peers = Some(true);
    let mut p = SetPeer::from_public_key(PublicKey::from_bytes(&[0x01u8; 32]));
    p.remove = Some(false);
    p.update_only = Some(true);
    p.endpoint = Some(Endpoint::new(IpAddress::v4(10, 0, 0, 1), 65535));
    p.persistent_keepalive_interval = Some(25);
    p.replace_allowed_ips = Some(true);
    p.allowed_ips = vec![IpNet {
        ip: IpAddress::v4(100, 64, 0, 1),
        prefix: 32,
    }];
    d.peers.push(p);
    let ab = "ab".repeat(32);
    let one = "01".repeat(32);
    assert_eq!(
        Cmd::SetDevice(d).to_text(),
        format!(
            "set=1\nprivate_key={ab}\nlisten_port=0\nfwmark=0\nreplace_peers=true\npublic_key={one}\nremove=false\nupdate_only=true\nendpoint=10.0.0.1:65535\npersistent_keepalive_interval=25\nreplace_allowed_ips=true\nallowed_ip=100.64.0.1/32\n\n"
        )
    );
}

#[test]
fn set_text_is_that_of_the_wireguard_uapi_crate() {
    let d = sample().to_set_device();
    let expected = format!("set=1\n{}\n", outside_device(&d));
    assert_eq!(Cmd::SetDevice(d).to_text(), expected);

    let mut flags = SetDevice::new();
    flags.replace_peers = Some(false);
    let mut p = SetPeer::from_public_key(key(9));
    p.remove = Some(true);
    p.update_only = Some(false);
    p.replace_allowed_ips = Some(false);
    p.endpoint = Some(Endpoint::new(IpAddress::V6(1), 1));
    flags.peers.push(p);
    let expected = format!("set=1\n{}\n", outside_device(&flags));
    assert_eq!(Cmd::SetDevice(flags).to_text(), expected);
}

#[test]
fn what_is_written_is_read_back() {
    let itf = sample();
    let text = Cmd::SetDevice(itf.to_set_device()).to_text();
    let now = Some(Duration::from_secs(1646405984));
    assert_eq!(
        response_from_str_at(&text, now),
        Ok(Response {
            errno: 0,
            interface: Some(itf)
        })
    );
}

#[test]
fn nothing_to_set_reads_back_as_no_interface() {
    let text = Cmd::SetDevice(Interface::new().to_set_device()).to_text();
    assert_eq!(text, "set=1\n\n");
    assert_eq!(
        response_from_str_at(&text, None),
        Ok(Response {
            errno: 0,
            interface: None
        })
    );
}

#[test]
fn listen_port_zero_reads_back_as_none() {
    let mut itf = Interface::new();
    itf.listen_port = Some(0);
    let text = Cmd::SetDevice(itf.to_set_device()).to_text();
    assert_eq!(text, "set=1\nlisten_port=0\n\n");
    assert_eq!(
        response_from_str_at(&text, None),
        Ok(Response {
            errno: 0,
            interface: Some(Interface::new())
        })
    );
}

#[test]
fn a_peer_is_set_by_its_networks_and_a_short_keepalive() {
    let mut peer = Peer::new(key(4));
    peer.persistent_keepalive_interval = Some(65536 + 25);
    peer.rx_bytes = Some(5);
    peer.allowed_ips = vec![
        IpNet {
            ip: IpAddress::v4(10, 1, 9, 32),
            prefix: 16,
        },
        IpNet {
            ip: IpAddress::V6(0x2001_0db8_0000_0000_0000_0000_0000_0001),
            prefix: 96,
        },
        IpNet {
            ip: IpAddress::v4(1, 2, 3, 4),
            prefix: 0,
        },
    ];
    let set = peer.to_set_peer();
    assert_eq!(set.persistent_keepalive_interval, Some(25));
    assert_eq!(
        set.allowed_ips,
        vec![
            IpNet {
                ip: IpAddress::v4(10, 1, 0, 0),
                prefix: 16
            },
            IpNet {
                ip: IpAddress::V6(0x2001_0db8_0000_0000_0000_0000_0000_0000),
                prefix: 96
            },
            IpNet {
                ip: IpAddress::V4(0),
                prefix: 0
            },
        ]
    );
    for (mine, theirs) in peer.allowed_ips.iter().zip(set.allowed_ips.iter()) {
        let outside = ipnetwork::IpNetwork::new(ip_text(mine.ip).parse().unwrap(), mine.prefix)
            .unwrap();
        assert_eq!(outside.network().to_string(), ip_text(theirs.ip));
        assert_eq!(outside.prefix(), theirs.prefix);
    }
    let back = Peer::from_set_peer(&set);
    assert_eq!(back.rx_bytes, None);
    assert_eq!(back.persistent_keepalive_interval, Some(25));
    assert_eq!(back.allowed_ips, set.allowed_ips);
}

#[test]
fn an_interface_is_made_of_what_is_set() {
    let itf = sample();
    let mut d = itf.to_set_device();
    assert_eq!(d.fwmark, Some(77));
    assert_eq!(Interface::from_set_device(&d), itf);
    d.fwmark = None;
    d.peers.reverse();
    d.peers[0].allowed_ips = vec![IpNet {
        ip: IpAddress::V4(1),
        prefix: 33,
    }];
    let other = Interface::from_set_device(&d);
    assert_eq!(other.fwmark, 0);
    assert_eq!(other.peers.len(), 3);
    assert!(other.peers[0].public_key < other.peers[1].public_key);
    assert!(other.peers[1].public_key < other.peers[2].public_key);
    assert!(other.get_peer(&key(3)).unwrap().allowed_ips.is_empty());
    assert_eq!(Interface::new().to_set_device().fwmark, None);
}

#[test]
fn an_interface_is_made_of_what_a_device_reports() {
    let report = GetDevice {
        private_key: None,
        listen_port: 4000,
        fwmark: 3,
        peers: vec![
            GetPeer {
                public_key: key(1),
                endpoint: None,
                persistent_keepalive_interval: 25,
                last_handshake_time: Duration::from_secs(1646405900),
                rx_bytes: 1,
                tx_bytes: 2,
                allowed_ips: vec![IpAddress::v4(1, 1, 1, 1).host_net()],
            },
            GetPeer {
                public_key: key(2),
                endpoint: None,
                persistent_keepalive_interval: 0,
                last_handshake_time: Duration::from_secs(0),
                rx_bytes: 0,
                tx_bytes: 0,
                allowed_ips: vec![],
            },
        ],
    };
    let now = Some(Duration::from_secs(1646405984));
    let itf = Interface::from_get_device(&report, now);
    assert_eq!(itf.listen_port, Some(4000));
    assert_eq!(itf.fwmark, 3);
    let a = itf.get_peer(&key(1)).unwrap();
    assert_eq!(a.time_since_last_handshake, Some(Duration::from_secs(84)));
    assert_eq!(a.persistent_keepalive_interval, Some(25));
    assert_eq!(a.rx_bytes, Some(1));
    assert_eq!(a.tx_bytes, Some(2));
    assert!(a.is_connected());
    let b = itf.get_peer(&key(2)).unwrap();
    assert_eq!(b.time_since_last_handshake, None);
    assert!(!b.is_connected());
    assert_eq!(
        Peer::from_get_peer(&report.peers[0], None).time_since_last_handshake,
        None
    );
}

#[test]
fn each_write_is_a_request() {
    let k = key(5);
    assert_eq!(
        UapiOp::SetFwmark(0).to_cmd().to_text(),
        "set=1\nfwmark=0\n\n"
    );
    assert_eq!(
        UapiOp::SetPrivateKey(SecretKey::from_bytes(&[1u8; 32]))
            .to_cmd()
            .to_text(),
        format!("set=1\nprivate_key={}\n\n", "01".repeat(32))
    );
    assert_eq!(
        UapiOp::RemovePeer(k).to_cmd().to_text(),
        format!("set=1\npublic_key={}\nremove=true\n\n", k.to_hex())
    );
    assert_eq!(
        UapiOp::UpdateEndpoint(k, Endpoint::new(IpAddress::v4(1, 2, 3, 4), 5))
            .to_cmd()
            .to_text(),
        format!(
            "set=1\npublic_key={}\nupdate_only=true\nendpoint=1.2.3.4:5\n\n",
            k.to_hex()
        )
    );
    let mut peer = Peer::new(k);
    peer.persistent_keepalive_interval = Some(25);
    peer.allowed_ips = vec![IpAddress::v4(100, 64, 0, 9).host_net()];
    assert_eq!(
        UapiOp::AddPeer(peer).to_cmd().to_text(),
        format!(
            "set=1\npublic_key={}\npersistent_keepalive_interval=25\nreplace_allowed_ips=true\nallowed_ip=100.64.0.9/32\n\n",
            k.to_hex()
        )
    );
}

#[test]
fn a_request_is_given_where_it_reads_back() {
    let itf = sample();
    let text = itf.set_request().unwrap();
    assert_eq!(
        text,
        Cmd::SetDevice(itf.to_set_device()).to_text()
    );
    assert_eq!(
        response_from_str_at(&text, None),
        Ok(Response {
            errno: 0,
            interface: Some(itf.clone())
        })
    );
    // an allowed network that is not the lowest address of itself is not read back
    let mut other = itf.clone();
    other.peers[0].allowed_ips = vec![IpNet {
        ip: IpAddress::v4(10, 1, 9, 32),
        prefix: 16,
    }];
    assert!(!other.peers[0].is_settable());
    assert_eq!(other.set_request(), None);
    let read = response_from_str_at(&Cmd::SetDevice(other.to_set_device()).to_text(), None)
        .unwrap()
        .interface
        .unwrap();
    assert_ne!(read, other);
    // nor is a counter, nor a keepalive interval that does not fit 16 bits
    let mut other = itf.clone();
    other.peers[1].rx_bytes = Some(1);
    assert_eq!(other.set_request(), None);
    let mut other = itf.clone();
    other.peers[1].persistent_keepalive_interval = Some(65536);
    assert_eq!(other.set_request(), None);
    assert!(itf.peers.iter().all(|p| p.is_settable()));
}
