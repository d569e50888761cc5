use telio::config::{
    Config, EndpointMap, EndpointProvider, FeatureDirect, Features, Peer, PeerBase, Server,
};
use telio::device::{
    Action, Component, Device, DeviceConfig, Effect, Error, Event, LocalDnsResolver,
    RequestedState, Runtime, Stimulus,
};
use telio::ip::{Endpoint, IpAddress, IpNet};
use telio::keys::{PublicKey, SecretKey};
use telio::mesh::{ExitNode, NodeState, PathType};
use telio::time::Duration;
use telio::uapi::Interface;
use telio::wg_controller;

fn secret(seed: u8) -> SecretKey {
    let mut bytes = [0u8; 32];
    for (i, b) in bytes.iter_mut().enumerate() {
        *b = seed.wrapping_mul(37).wrapping_add(i as u8);
    }
    SecretKey::from_bytes(&bytes)
}

fn v4(a: u8, b: u8, c: u8, d: u8) -> IpAddress {
    IpAddress::v4(a, b, c, d)
}

fn record<'a>(records: &'a [(String, Vec<IpAddress>)], name: &str) -> &'a Vec<IpAddress> {
    &records.iter().rev().find(|r| r.0 == name).unwrap().1
}

/// Stands in for the parts of the device: it does what the actions ask of
/// the proxy and of the tunnel driver, and counts the writes to the driver.
fn perform(rt: &mut Runtime, actions: &[Action]) -> Result<usize, Error> {
    let mut writes = 0;
    for action in actions {
        match action {
            Action::ConfigureProxy => {
                let config = rt.proxy_config();
                let mut proxy = EndpointMap::new();
                for (i, key) in config.peers.iter().enumerate() {
                    proxy
                        .entries
                        .push((*key, Endpoint::new(v4(127, 0, 0, 1), 40000 + i as u16)));
                }
                rt.entities.proxy = proxy;
            }
            Action::Consolidate => {
                let ops = rt.consolidate()?;
                writes += ops.len();
                rt.entities.wireguard_interface.apply_all(&ops);
            }
            _ => {}
        }
    }
    Ok(writes)
}

fn started(private_key: SecretKey, features: Features) -> Runtime {
    Runtime::start(
        DeviceConfig {
            private_key,
            ..Default::default()
        },
        features,
        false,
    )
}

fn build_peer_base(hostname: String, ip_addresses: Vec<IpAddress>) -> PeerBase {
    PeerBase {
        hostname,
        ip_addresses: Some(ip_addresses),
        ..Default::default()
    }
}

fn build_peer(hostname: String, ip_addresses: Vec<IpAddress>) -> Peer {
    Peer {
        base: build_peer_base(hostname, ip_addresses),
        ..Default::default()
    }
}

fn build_mesh_config(peers: Option<Vec<Peer>>) -> Config {
    Config {
        peers,
        ..Default::default()
    }
}

#[test]
fn test_collect_dns_records() {
    let alpha_ipv4 = v4(1, 2, 3, 4);
    let alpha_ipv6 = IpAddress::V6(0x0001_0002_0003_0004_0005_0006_0007_0008);
    let beta_ipv4 = v4(4, 3, 2, 1);
    let gamma_ipv6 = IpAddress::V6(0x0008_0007_0006_0005_0004_0003_0002_0001);

    let peers = Some(vec![
        build_peer(String::from("alpha"), vec![alpha_ipv4, alpha_ipv6]),
        build_peer(String::from("beta"), vec![beta_ipv4]),
        build_peer(String::from("gamma"), vec![gamma_ipv6]),
    ]);

    let requested_state = RequestedState {
        meshnet_config: Some(build_mesh_config(peers)),
        ..Default::default()
    };

    let records = requested_state.collect_dns_records();

    assert!(record(&records, "alpha").contains(&alpha_ipv4));
    assert!(record(&records, "alpha").contains(&alpha_ipv6));

    assert_eq!(record(&records, "beta").clone(), vec![beta_ipv4]);
    assert_eq!(record(&records, "gamma").clone(), vec![gamma_ipv6]);
}

#[test]
fn collect_dns_records_lists_peers_then_the_device() {
    let mut config = build_mesh_config(Some(vec![
        build_peer(String::from("alpha"), vec![v4(1, 2, 3, 4)]),
        Peer::default(),
    ]));
    config.this = build_peer_base(String::from("me"), vec![v4(9, 9, 9, 9)]);
    let requested_state = RequestedState {
        meshnet_config: Some(config),
        ..Default::default()
    };
    assert_eq!(
        requested_state.collect_dns_records(),
        vec![
            (String::from("alpha"), vec![v4(1, 2, 3, 4)]),
            (String::from("me"), vec![v4(9, 9, 9, 9)]),
        ]
    );
    assert!(RequestedState::default().collect_dns_records().is_empty());
}

#[test]
fn test_mocked_adapter() {
    let features = Features::default();
    let private_key = secret(1);

    let mut rt = started(private_key, features);
    rt.entities.wireguard_interface.listen_port = Some(1234);

    assert_eq!(
        Interface {
            private_key: Some(private_key),
            listen_port: Some(1234),
            ..Default::default()
        },
        rt.entities.wireguard_interface
    );
}

#[test]
fn test_disconnect_exit_nodes() {
    let features = Features::default();
    let private_key = secret(2);
    let mut rt = started(private_key, features);

    let pubkey = private_key.public();
    let exit_node = ExitNode {
        public_key: pubkey,
        ..Default::default()
    };
    let peer_base = PeerBase {
        identifier: "identifier".to_owned(),
        public_key: pubkey,
        hostname: "hostname".to_owned(),
        ip_addresses: Some(vec![v4(127, 0, 0, 1)]),
    };
    let get_config = Config {
        this: peer_base.clone(),
        peers: Some(vec![Peer {
            base: peer_base.clone(),
            ..Default::default()
        }]),
        derp_servers: None,
        dns: None,
    };

    rt.entities.wireguard_interface.listen_port = Some(1234);

    let actions = rt.set_config(Some(get_config));
    assert!(actions.is_ok());
    assert!(rt.requested_state.exit_node.is_none());
    assert_eq!(perform(&mut rt, &actions.unwrap()), Ok(1));

    let actions = rt.connect_exit_node(exit_node);
    assert!(actions.is_ok());
    assert!(rt.requested_state.exit_node.is_some());
    assert_eq!(perform(&mut rt, &actions.unwrap()), Ok(1));

    let actions = rt.disconnect_exit_nodes();
    assert!(actions.is_ok());
    assert!(rt.requested_state.exit_node.is_none());
    assert_eq!(perform(&mut rt, &actions.unwrap()), Ok(1));
}

fn two_peer_config(private_key: &SecretKey, first: IpAddress, second: IpAddress) -> Config {
    Config {
        this: PeerBase {
            identifier: "identifier".to_owned(),
            public_key: private_key.public(),
            hostname: "hostname".to_owned(),
            ip_addresses: Some(vec![v4(127, 0, 0, 1)]),
        },
        peers: Some(vec![
            Peer {
                base: PeerBase {
                    public_key: secret(31).public(),
                    ip_addresses: Some(vec![first]),
                    ..Default::default()
                },
                ..Default::default()
            },
            Peer {
                base: PeerBase {
                    public_key: secret(32).public(),
                    ip_addresses: Some(vec![second]),
                    ..Default::default()
                },
                ..Default::default()
            },
        ]),
        derp_servers: None,
        dns: None,
    }
}

#[test]
fn test_duplicate_allowed_ips() {
    let features = Features::default();
    let private_key = secret(3);
    let mut rt = started(private_key, features);

    let first_ip_network = v4(1, 2, 3, 4).host_net();
    let second_ip_network = v4(4, 3, 2, 1).host_net();

    let config = two_peer_config(&private_key, first_ip_network.ip, second_ip_network.ip);

    let vpn_node = ExitNode {
        public_key: secret(33).public(),
        allowed_ips: Some(vec![first_ip_network]),
        ..Default::default()
    };

    rt.entities.wireguard_interface.listen_port = Some(1234);

    let actions = rt.set_config(Some(config));
    assert!(matches!(actions, Ok(_)));
    assert_eq!(perform(&mut rt, &actions.unwrap()), Ok(2));

    let before = rt.entities.wireguard_interface.clone();
    assert!(matches!(rt.connect_exit_node(vpn_node), Err(_)));
    assert_eq!(rt.consolidate().map(|ops| ops.len()), Ok(0));
    assert_eq!(rt.entities.wireguard_interface, before);
}

#[test]
fn vpn_exit_that_takes_a_mesh_address_is_refused() {
    let private_key = secret(3);
    let mut rt = started(private_key, Features::default());
    let first = v4(1, 2, 3, 4);
    rt.entities.wireguard_interface.listen_port = Some(1234);
    let actions = rt
        .set_config(Some(two_peer_config(&private_key, first, v4(4, 3, 2, 1))))
        .unwrap();
    assert_eq!(perform(&mut rt, &actions), Ok(2));

    let vpn_node = ExitNode {
        public_key: secret(33).public(),
        allowed_ips: Some(vec![first.host_net()]),
        endpoint: Some(Endpoint::new(v4(8, 8, 8, 8), 51820)),
        ..Default::default()
    };
    assert_eq!(
        rt.connect_exit_node(vpn_node),
        Err(Error::ControllerError(wg_controller::Error::BadAllowedIps))
    );
    assert!(rt.requested_state.exit_node.is_none());
    assert_eq!(rt.consolidate().map(|ops| ops.len()), Ok(0));

    let vpn_node = ExitNode {
        public_key: secret(33).public(),
        allowed_ips: None,
        endpoint: Some(Endpoint::new(v4(8, 8, 8, 8), 51820)),
        ..Default::default()
    };
    let actions = rt.connect_exit_node(vpn_node.clone()).unwrap();
    assert_eq!(
        actions,
        vec![Action::SetShouldBindTun(true), Action::Consolidate]
    );
    assert_eq!(rt.requested_state.exit_node, Some(vpn_node.clone()));
    assert_eq!(perform(&mut rt, &actions), Ok(1));
    let exit = rt
        .entities
        .wireguard_interface
        .get_peer(&vpn_node.public_key)
        .unwrap();
    assert_eq!(
        exit.allowed_ips,
        vec![IpNet::default_v4(), IpNet::default_v6()]
    );
    assert_eq!(exit.persistent_keepalive_interval, Some(15));
    assert_eq!(exit.endpoint, vpn_node.endpoint);
}

#[test]
fn exit_node_without_endpoint_outside_the_mesh_is_refused() {
    let mut rt = started(secret(4), Features::default());
    let node = ExitNode {
        public_key: secret(5).public(),
        ..Default::default()
    };
    assert_eq!(rt.connect_exit_node(node), Err(Error::EndpointNotProvided));
    assert!(rt.requested_state.exit_node.is_none());
}

fn one_peer_config(public_key: PublicKey) -> Config {
    let peer_base = PeerBase {
        identifier: "identifier".to_owned(),
        public_key,
        hostname: "hostname".to_owned(),
        ip_addresses: Some(vec![v4(127, 0, 0, 1)]),
    };
    Config {
        this: peer_base.clone(),
        peers: Some(vec![Peer {
            base: peer_base.clone(),
            ..Default::default()
        }]),
        derp_servers: None,
        dns: None,
    }
}

#[test]
fn test_exit_node_demote() {
    let features = Default::default();
    let private_key = secret(6);
    let mut rt = started(private_key, features);

    let pubkey = private_key.public();
    let node = ExitNode {
        public_key: pubkey,
        ..Default::default()
    };
    let config = Some(one_peer_config(pubkey));

    rt.entities.wireguard_interface.listen_port = Some(1234);

    let actions = rt.set_config(config.clone());
    assert!(actions.is_ok());
    assert!(rt.requested_state.exit_node.is_none());
    assert_eq!(perform(&mut rt, &actions.unwrap()), Ok(1));

    let actions = rt.connect_exit_node(node);
    assert!(actions.is_ok());
    assert_eq!(
        rt.requested_state.exit_node.as_ref().unwrap().public_key,
        pubkey
    );
    assert_eq!(perform(&mut rt, &actions.unwrap()), Ok(1));

    let actions = rt.set_config(config.clone());
    assert!(actions.is_ok());
    assert_eq!(
        rt.requested_state.exit_node.as_ref().unwrap().public_key,
        pubkey
    );
    assert_eq!(perform(&mut rt, &actions.unwrap()), Ok(0));

    let actions = rt.disconnect_exit_node(&pubkey);
    assert!(actions.is_ok());
    assert!(rt.requested_state.exit_node.is_none());
    assert_eq!(perform(&mut rt, &actions.unwrap()), Ok(1));
}

#[test]
fn exit_node_is_dropped_when_it_leaves_the_mesh() {
    let private_key = secret(6);
    let pubkey = private_key.public();
    let mut rt = started(private_key, Features::default());
    rt.entities.wireguard_interface.listen_port = Some(1234);

    let other = secret(7).public();
    let mut config = one_peer_config(pubkey);
    config.peers.as_mut().unwrap()[0].base.public_key = other;
    let actions = rt.set_config(Some(config.clone())).unwrap();
    perform(&mut rt, &actions).unwrap();
    let actions = rt
        .connect_exit_node(ExitNode {
            public_key: other,
            ..Default::default()
        })
        .unwrap();
    perform(&mut rt, &actions).unwrap();
    assert!(rt.requested_state.exit_node.is_some());

    // the mesh goes on without the exit node
    let mut without = config.clone();
    without.peers = Some(vec![]);
    let actions = rt.set_config(Some(without)).unwrap();
    assert!(rt.requested_state.exit_node.is_none());
    perform(&mut rt, &actions).unwrap();
    assert!(rt.entities.wireguard_interface.peers.is_empty());

    // the mesh is switched off while a node of it is the exit node
    let actions = rt.set_config(Some(config)).unwrap();
    perform(&mut rt, &actions).unwrap();
    let actions = rt
        .connect_exit_node(ExitNode {
            public_key: other,
            ..Default::default()
        })
        .unwrap();
    perform(&mut rt, &actions).unwrap();
    let actions = rt.set_config(None).unwrap();
    assert!(rt.requested_state.exit_node.is_none());
    perform(&mut rt, &actions).unwrap();
    assert!(rt.entities.wireguard_interface.peers.is_empty());
}

#[test]
fn vpn_exit_node_outlives_the_mesh() {
    let private_key = secret(6);
    let mut rt = started(private_key, Features::default());
    rt.entities.wireguard_interface.listen_port = Some(1234);
    let actions = rt
        .set_config(Some(one_peer_config(private_key.public())))
        .unwrap();
    perform(&mut rt, &actions).unwrap();
    let vpn = ExitNode {
        public_key: secret(8).public(),
        endpoint: Some(Endpoint::new(v4(1, 1, 1, 1), 51820)),
        ..Default::default()
    };
    let actions = rt.connect_exit_node(vpn.clone()).unwrap();
    perform(&mut rt, &actions).unwrap();
    let actions = rt.set_config(None).unwrap();
    assert_eq!(rt.requested_state.exit_node, Some(vpn.clone()));
    perform(&mut rt, &actions).unwrap();
    assert_eq!(rt.entities.wireguard_interface.peers.len(), 1);
    assert_eq!(
        rt.entities.wireguard_interface.peers[0].public_key,
        vpn.public_key
    );
}

#[test]
fn test_default_features_when_direct_is_empty() {
    let features = Features {
        direct: Some(FeatureDirect {
            providers: None,
            endpoint_interval_secs: None,
        }),
        ..Default::default()
    };

    let rt = started(secret(9), features);

    let entities = rt.entities.direct.as_ref().unwrap();

    assert!(entities.upnp_endpoint_provider);
    assert!(entities.local_interfaces_endpoint_provider);
    assert!(entities.stun_endpoint_provider);
}

#[test]
fn test_default_features_when_provider_is_empty() {
    let features = Features {
        direct: Some(FeatureDirect {
            providers: Some(Vec::<EndpointProvider>::new()),
            endpoint_interval_secs: None,
        }),
        ..Default::default()
    };

    let rt = started(secret(10), features);

    let entities = rt.entities.direct.as_ref().unwrap();

    assert!(!entities.upnp_endpoint_provider);
    assert!(!entities.local_interfaces_endpoint_provider);
    assert!(!entities.stun_endpoint_provider);
}

#[test]
fn test_enable_all_direct_features() {
    let mut providers = Vec::<EndpointProvider>::new();
    providers.push(EndpointProvider::Stun);
    providers.push(EndpointProvider::Upnp);
    providers.push(EndpointProvider::Local);

    let features = Features {
        direct: Some(FeatureDirect {
            providers: Some(providers),
            endpoint_interval_secs: None,
        }),
        ..Default::default()
    };

    let rt = started(secret(11), features);

    let entities = rt.entities.direct.as_ref().unwrap();

    assert!(entities.upnp_endpoint_provider);
    assert!(entities.local_interfaces_endpoint_provider);
    assert!(entities.stun_endpoint_provider);
}

#[test]
fn test_set_config_with_wrong_public_key() {
    let features = Features::default();
    let private_key = secret(12);
    let mut rt = started(private_key, features);

    let valid_cfg = Some(one_peer_config(private_key.public()));
    let invalid_cfg = Some(one_peer_config(secret(13).public()));

    rt.entities.wireguard_interface.listen_port = Some(1234);

    assert!(rt.set_config(valid_cfg.clone()).is_ok());
    assert!(matches!(
        rt.set_config(invalid_cfg).unwrap_err(),
        Error::BadPublicKey
    ));
    assert_eq!(rt.requested_state.meshnet_config, valid_cfg);
}

#[test]
fn set_config_takes_any_key_when_keys_are_not_validated() {
    let features = Features {
        validate_keys: false,
        ..Default::default()
    };
    let mut rt = started(secret(12), features);
    rt.entities.wireguard_interface.listen_port = Some(1234);
    assert!(rt
        .set_config(Some(one_peer_config(secret(13).public())))
        .is_ok());
}

#[test]
fn set_config_needs_a_listen_port_and_a_private_key() {
    let private_key = secret(12);
    let mut rt = started(private_key, Features::default());
    let config = Some(one_peer_config(private_key.public()));
    assert_eq!(rt.set_config(config.clone()), Err(Error::Adapter));
    assert_eq!(rt.requested_state.meshnet_config, config);
    rt.entities.wireguard_interface.listen_port = Some(1);
    rt.entities.wireguard_interface.private_key = None;
    assert_eq!(rt.set_config(None), Err(Error::BadPrivateKey));
    assert_eq!(rt.requested_state.old_meshnet_config, config);
    assert_eq!(rt.requested_state.meshnet_config, None);
}

#[test]
fn test_set_private_key_when_meshnet_is_on() {
    let features = Features::default();
    let old_private_key = secret(14);
    let new_private_key = secret(15);
    let mut rt = started(old_private_key, features);

    let config = Some(one_peer_config(new_private_key.public()));

    rt.entities.wireguard_interface.listen_port = Some(1234);

    let actions = rt.set_private_key(&new_private_key);
    assert!(actions.is_ok());
    assert_eq!(perform(&mut rt, &actions.unwrap()), Ok(1));
    assert_eq!(
        rt.entities.wireguard_interface.private_key,
        Some(new_private_key)
    );

    let actions = rt.set_config(config).unwrap();
    assert_eq!(perform(&mut rt, &actions), Ok(1));
    assert!(matches!(
        rt.set_private_key(&secret(16)).unwrap_err(),
        Error::BadPublicKey
    ));
    assert_eq!(rt.get_private_key(), new_private_key);
    assert_eq!(perform(&mut rt, &[Action::Consolidate]), Ok(0));
    // the key that the device has is taken again
    assert!(rt.set_private_key(&new_private_key).is_ok());
}

#[test]
fn set_private_key_is_refused_while_the_resolver_runs() {
    let mut rt = started(secret(14), Features::default());
    rt.entities.dns.resolver = Some(LocalDnsResolver {
        auto_switch_ips: true,
    });
    assert_eq!(
        rt.set_private_key(&secret(15)),
        Err(Error::DnsNotDisabled)
    );
    assert_eq!(rt.get_private_key(), secret(14));
}

#[test]
fn consolidation_is_idempotent() {
    let private_key = secret(17);
    let mut rt = started(private_key, Features::default());
    rt.entities.wireguard_interface.listen_port = Some(1234);
    let _ = rt.set_fwmark(11).unwrap();
    let actions = rt
        .set_config(Some(two_peer_config(
            &private_key,
            v4(10, 0, 0, 1),
            v4(10, 0, 0, 2),
        )))
        .unwrap();
    assert_eq!(perform(&mut rt, &actions), Ok(3));
    assert_eq!(rt.entities.wireguard_interface.fwmark, 11);
    assert_eq!(perform(&mut rt, &[Action::Consolidate]), Ok(0));
    assert_eq!(rt.on_event(Stimulus::Tick), Effect::Consolidate);
    assert_eq!(perform(&mut rt, &[Action::Consolidate]), Ok(0));
}

#[test]
fn a_new_endpoint_alone_is_sent_as_an_update() {
    let private_key = secret(18);
    let features = Features {
        direct: Some(FeatureDirect::default()),
        ..Default::default()
    };
    let mut rt = started(private_key, features);
    rt.entities.wireguard_interface.listen_port = Some(1234);
    let peer = secret(19).public();
    let mut config = one_peer_config(private_key.public());
    config.peers.as_mut().unwrap()[0].base.public_key = peer;
    let actions = rt.set_config(Some(config)).unwrap();
    assert_eq!(perform(&mut rt, &actions), Ok(1));
    let relayed = rt.entities.wireguard_interface.get_peer(&peer).unwrap();
    assert_eq!(
        relayed.endpoint,
        Some(Endpoint::new(v4(127, 0, 0, 1), 40000))
    );
    assert_eq!(relayed.persistent_keepalive_interval, Some(25));

    // the cross-ping check has found an endpoint, the peer has not agreed yet
    let direct = Endpoint::new(v4(192, 168, 1, 7), 7000);
    rt.entities
        .direct
        .as_mut()
        .unwrap()
        .cross_ping_check
        .entries
        .push((peer, direct));
    assert_eq!(rt.on_event(Stimulus::WgEndpointPublish), Effect::Consolidate);
    assert_eq!(rt.consolidate().unwrap(), vec![]);

    // the peer has agreed: endpoint and keepalive interval change
    rt.entities.direct.as_mut().unwrap().upgrade_sync.push(peer);
    assert_eq!(rt.on_event(Stimulus::UpgradeRequest), Effect::Consolidate);
    let ops = rt.consolidate().unwrap();
    assert_eq!(ops.len(), 1);
    assert!(matches!(&ops[0], wg_controller::UapiOp::AddPeer(p) if p.endpoint == Some(direct)
        && p.persistent_keepalive_interval == Some(5)));
    rt.entities.wireguard_interface.apply_all(&ops);

    // another endpoint, and nothing else: an update
    let moved = Endpoint::new(v4(192, 168, 1, 8), 7000);
    rt.entities.direct.as_mut().unwrap().cross_ping_check.entries[0].1 = moved;
    let ops = rt.consolidate().unwrap();
    assert_eq!(ops, vec![wg_controller::UapiOp::UpdateEndpoint(peer, moved)]);
    rt.entities.wireguard_interface.apply_all(&ops);
    assert_eq!(
        rt.entities
            .wireguard_interface
            .get_peer(&peer)
            .unwrap()
            .endpoint,
        Some(moved)
    );
    assert_eq!(rt.consolidate().unwrap(), vec![]);
}

#[test]
fn stun_server_becomes_a_peer_while_the_mesh_is_on() {
    let private_key = secret(20);
    let mut rt = started(private_key, Features::default());
    rt.entities.wireguard_interface.listen_port = Some(1234);
    let server = telio::config::StunServer {
        public_key: secret(21).public(),
        ipv4: 0x0a00_0005,
        stun_port: 3478,
    };
    assert_eq!(
        rt.on_event(Stimulus::StunServer(Some(server))),
        Effect::Consolidate
    );
    assert_eq!(rt.requested_state.wg_stun_server, Some(server));
    assert_eq!(rt.consolidate().unwrap(), vec![]);
    let actions = rt
        .set_config(Some(one_peer_config(private_key.public())))
        .unwrap();
    assert_eq!(perform(&mut rt, &actions), Ok(2));
    let stun = rt
        .entities
        .wireguard_interface
        .get_peer(&server.public_key)
        .unwrap();
    assert_eq!(stun.allowed_ips, vec![v4(10, 0, 0, 5).host_net()]);
    assert_eq!(stun.endpoint, Some(Endpoint::new(v4(10, 0, 0, 5), 3478)));
    assert_eq!(stun.persistent_keepalive_interval, Some(50));
    assert_eq!(rt.on_event(Stimulus::StunServer(None)), Effect::Consolidate);
    assert_eq!(perform(&mut rt, &[Action::Consolidate]), Ok(1));
}

#[test]
fn nodes_are_reported_with_their_path() {
    let private_key = secret(22);
    let mut rt = started(private_key, Features::default());
    rt.entities.wireguard_interface.listen_port = Some(1234);
    let peer = secret(23).public();
    let mut config = one_peer_config(private_key.public());
    config.peers.as_mut().unwrap()[0].base.public_key = peer;
    config.peers.as_mut().unwrap()[0].allow_incoming_connections = true;
    let actions = rt.set_config(Some(config)).unwrap();
    perform(&mut rt, &actions).unwrap();

    let nodes = rt.external_nodes();
    assert_eq!(nodes.len(), 1);
    assert_eq!(nodes[0].public_key, peer);
    assert_eq!(nodes[0].identifier, "identifier");
    assert_eq!(nodes[0].hostname, Some("hostname".to_owned()));
    assert_eq!(nodes[0].path, PathType::Relay);
    assert_eq!(nodes[0].state, NodeState::Connecting);
    assert!(!nodes[0].is_exit);
    assert!(!nodes[0].is_vpn);
    assert!(nodes[0].allow_incoming_connections);
    assert_eq!(nodes[0].ip_addresses, vec![v4(127, 0, 0, 1)]);

    let mut live = rt.entities.wireguard_interface.peers[0].clone();
    live.endpoint = Some(Endpoint::new(v4(5, 5, 5, 5), 5));
    live.time_since_last_handshake = Some(Duration::from_secs(10));
    let node = rt.peer_to_node(&live, None).unwrap();
    assert_eq!(node.path, PathType::Direct);
    assert_eq!(node.state, NodeState::Connected);
    let node = rt
        .peer_to_node(&live, Some(NodeState::Disconnected))
        .unwrap();
    assert_eq!(node.state, NodeState::Disconnected);
    live.endpoint = None;
    assert_eq!(rt.peer_to_node(&live, None).unwrap().path, PathType::Direct);

    // a peer that is no node of the mesh and no exit node is not reported
    let stranger = telio::uapi::Peer::new(secret(24).public());
    assert_eq!(rt.peer_to_node(&stranger, None), None);
    let event = telio::uapi::Event {
        state: NodeState::Connected,
        peer: stranger,
    };
    assert_eq!(rt.on_event(Stimulus::WgEvent(event)), Effect::Nothing);
    let event = telio::uapi::Event {
        state: NodeState::Connected,
        peer: live.clone(),
    };
    assert!(matches!(
        rt.on_event(Stimulus::WgEvent(event)),
        Effect::Publish(Event::Node(n)) if n.public_key == peer && n.state == NodeState::Connected
    ));
    let server = Server {
        hostname: "relay".to_owned(),
        ..Default::default()
    };
    assert_eq!(
        rt.on_event(Stimulus::DerpEvent(server.clone())),
        Effect::Publish(Event::Relay(server))
    );
}

#[test]
fn vpn_exit_node_is_reported_by_its_key_even_once_disconnected() {
    let private_key = secret(25);
    let mut rt = started(private_key, Features::default());
    let vpn = ExitNode {
        identifier: "vpn".to_owned(),
        public_key: secret(26).public(),
        endpoint: Some(Endpoint::new(v4(1, 1, 1, 1), 51820)),
        ..Default::default()
    };
    let actions = rt.connect_exit_node(vpn.clone()).unwrap();
    assert_eq!(perform(&mut rt, &actions), Ok(1));
    let nodes = rt.external_nodes();
    assert_eq!(nodes.len(), 1);
    assert!(nodes[0].is_exit);
    assert!(nodes[0].is_vpn);
    assert_eq!(nodes[0].identifier, "vpn");
    assert_eq!(nodes[0].hostname, None);
    assert_eq!(
        nodes[0].ip_addresses,
        vec![v4(10, 5, 0, 1), v4(100, 64, 0, 1)]
    );
    assert_eq!(nodes[0].path, PathType::Direct);

    let live = rt.entities.wireguard_interface.peers[0].clone();
    assert_eq!(
        rt.disconnect_exit_node(&secret(27).public()),
        Err(Error::InvalidNode)
    );
    let actions = rt.disconnect_exit_node(&vpn.public_key).unwrap();
    assert_eq!(
        actions,
        vec![
            Action::RemoveFromFirewallWhitelist(vpn.public_key),
            Action::SetShouldBindTun(false),
            Action::Consolidate
        ]
    );
    assert_eq!(rt.requested_state.last_exit_node, Some(vpn));
    assert_eq!(perform(&mut rt, &actions), Ok(1));
    assert!(rt.external_nodes().is_empty());
    assert!(rt
        .peer_to_node(&live, Some(NodeState::Disconnected))
        .unwrap()
        .is_vpn);
    assert_eq!(rt.disconnect_exit_nodes(), Ok(vec![]));
}

#[test]
fn set_config_asks_for_each_part_in_turn() {
    let private_key = secret(28);
    let features = Features {
        nurse: true,
        direct: Some(FeatureDirect {
            providers: Some(vec![EndpointProvider::Stun, EndpointProvider::Local]),
            endpoint_interval_secs: Some(7),
        }),
        ..Default::default()
    };
    let mut rt = started(private_key, features);
    rt.entities.wireguard_interface.listen_port = Some(1234);
    rt.entities.dns.resolver = Some(LocalDnsResolver {
        auto_switch_ips: false,
    });
    let mut config = one_peer_config(private_key.public());
    config.derp_servers = Some(vec![
        Server {
            ipv4: 0x0101_0101,
            stun_port: 1,
            weight: 5,
            ..Default::default()
        },
        Server {
            ipv4: 0x0202_0202,
            stun_port: 2,
            weight: 2,
            ..Default::default()
        },
        Server {
            ipv4: 0x0303_0303,
            stun_port: 3,
            weight: 2,
            ..Default::default()
        },
    ]);
    assert_eq!(
        rt.set_config(Some(config.clone())),
        Ok(vec![
            Action::ConfigureProxy,
            Action::ConfigureDerp,
            Action::ConfigureStunProvider,
            Action::UpsertDnsRecords,
            Action::ConfigureCrossPingCheck,
            Action::Consolidate,
            Action::TriggerEndpointDiscovery(EndpointProvider::Local),
            Action::TriggerEndpointDiscovery(EndpointProvider::Stun),
            Action::LogNat,
            Action::NotifyNurseConfig,
        ])
    );
    assert_eq!(
        rt.nat_probe_target(),
        Some(Endpoint::new(v4(2, 2, 2, 2), 2))
    );
    let proxy = rt.proxy_config();
    assert_eq!(proxy.wg_port, Some(1234));
    assert_eq!(proxy.peers, vec![private_key.public()]);
    let derp = rt.derp_config().unwrap();
    assert_eq!(derp.secret_key, private_key);
    assert_eq!(derp.servers, config.derp_servers.unwrap());
    assert_eq!(derp.allowed_pk, vec![private_key.public()]);
    assert_eq!(derp.timeout_secs, 10);
    assert!(!derp.enable_polling);
    assert_eq!(
        rt.notify_network_change(),
        Ok(vec![
            Action::DropConnectedSockets,
            Action::ReconnectStun,
            Action::ReconnectDerp,
            Action::LogNat
        ])
    );
    assert_eq!(
        rt.trigger_analytics_event(),
        Ok(vec![Action::TriggerNurseCollection])
    );
    assert_eq!(
        rt.set_config(None),
        Ok(vec![
            Action::ConfigureProxy,
            Action::UpsertDnsRecords,
            Action::ConfigureDerp,
            Action::ConfigureStunProvider,
            Action::ConfigureCrossPingCheck,
            Action::Consolidate,
            Action::TriggerEndpointDiscovery(EndpointProvider::Local),
            Action::TriggerEndpointDiscovery(EndpointProvider::Stun),
            Action::NotifyNurseConfig,
        ])
    );
    assert_eq!(rt.proxy_config().wg_port, None);
    assert!(rt.derp_config().is_none());
    assert_eq!(rt.nat_probe_target(), None);
    let direct = rt.features.direct.clone().unwrap();
    assert_eq!(
        telio::device::endpoint_poll_interval(&direct),
        Duration::from_secs(7)
    );
    assert_eq!(
        telio::device::endpoint_poll_interval(&FeatureDirect::default()),
        Duration::from_secs(25)
    );
    let bounds = telio::device::backoff_bounds(&direct);
    assert_eq!(bounds.initial, Duration::from_secs(7));
    assert_eq!(bounds.maximal, Some(Duration::from_secs(120)));
}

#[test]
fn resolver_is_started_forwarded_and_stopped() {
    let private_key = secret(29);
    let mut rt = started(private_key, Features::default());
    let upstream = vec![v4(1, 1, 1, 1)];
    assert_eq!(rt.start_dns(upstream.clone()), Err(Error::Adapter));
    rt.entities.wireguard_interface.listen_port = Some(1234);
    assert_eq!(
        rt.start_dns(upstream.clone()),
        Ok(vec![
            Action::StartDns,
            Action::UpsertDnsRecords,
            Action::Consolidate
        ])
    );
    assert_eq!(rt.requested_state.upstream_servers, Some(upstream.clone()));
    rt.entities.dns.resolver = Some(LocalDnsResolver {
        auto_switch_ips: true,
    });
    assert_eq!(
        rt.start_dns(upstream.clone()),
        Ok(vec![
            Action::ForwardDnsToUpstream,
            Action::UpsertDnsRecords,
            Action::Consolidate
        ])
    );
    // a node of the mesh as exit node: the resolver forwards to its default servers
    let actions = rt
        .set_config(Some(one_peer_config(private_key.public())))
        .unwrap();
    perform(&mut rt, &actions).unwrap();
    assert_eq!(
        rt.connect_exit_node(ExitNode {
            public_key: private_key.public(),
            ..Default::default()
        }),
        Ok(vec![
            Action::SetShouldBindTun(true),
            Action::ForwardDnsToDefault,
            Action::Consolidate
        ])
    );
    assert_eq!(
        rt.disconnect_exit_nodes(),
        Ok(vec![
            Action::SetShouldBindTun(false),
            Action::ForwardDnsToUpstream,
            Action::Consolidate
        ])
    );
    assert_eq!(
        rt.stop_dns(),
        Ok(vec![Action::StopDns, Action::Consolidate])
    );
    assert_eq!(rt.requested_state.upstream_servers, None);
    rt.entities.dns.resolver = None;
    assert_eq!(rt.stop_dns(), Ok(vec![Action::Consolidate]));
    rt.entities.wireguard_interface.private_key = None;
    assert_eq!(
        rt.start_dns(upstream),
        Err(Error::AdapterConfig(
            "Adapter does not have a private key".to_owned()
        ))
    );
    assert_eq!(
        rt.trigger_analytics_event(),
        Err(Error::NotStarted)
    );
}

#[test]
fn parts_stop_in_the_reverse_of_their_start() {
    let features = Features {
        nurse: true,
        direct: Some(FeatureDirect {
            providers: Some(vec![EndpointProvider::Upnp]),
            endpoint_interval_secs: None,
        }),
        ..Default::default()
    };
    let mut rt = Runtime::start(DeviceConfig::default(), features, true);
    let start = rt.startup_sequence();
    assert_eq!(
        start,
        vec![
            Component::Firewall,
            Component::SocketPool,
            Component::Multiplexer,
            Component::Relay,
            Component::UdpProxy,
            Component::WireGuard,
            Component::Nurse,
            Component::UpnpEndpointProvider,
            Component::CrossPingCheck,
            Component::UpgradeSync,
            Component::SessionKeeper,
            Component::EventLoop,
        ]
    );
    rt.entities.dns.resolver = Some(LocalDnsResolver {
        auto_switch_ips: true,
    });
    let mut expected = start.clone();
    expected.push(Component::Dns);
    expected.reverse();
    assert_eq!(rt.shutdown_sequence(), expected);
    let _ = rt.set_fwmark(3);
    assert_eq!(rt.stop(), expected);
    assert_eq!(rt.requested_state, RequestedState::default());
    assert_eq!(rt.entities.endpoint_providers(), vec![EndpointProvider::Upnp]);
    assert!(rt.entities.cross_ping_check().is_some());
    assert!(rt.entities.upgrade_sync().is_some());

    let plain = started(secret(1), Features::default());
    assert_eq!(
        plain.startup_sequence(),
        vec![
            Component::Firewall,
            Component::SocketPool,
            Component::Multiplexer,
            Component::Relay,
            Component::UdpProxy,
            Component::WireGuard,
            Component::EventLoop,
        ]
    );
    assert!(plain.entities.cross_ping_check().is_none());
}

#[test]
fn device_runs_between_start_and_stop() {
    let mut device = Device::new(Features::default());
    assert!(!device.is_running());
    assert_eq!(device.get_private_key(), Err(Error::NotStarted));
    assert_eq!(device.set_config(None), Err(Error::NotStarted));
    assert_eq!(device.set_fwmark(1), Err(Error::NotStarted));
    assert_eq!(device.set_private_key(&secret(1)), Err(Error::NotStarted));
    assert_eq!(device.notify_network_change(), Err(Error::NotStarted));
    assert_eq!(
        device.connect_exit_node(ExitNode::default()),
        Err(Error::NotStarted)
    );
    assert_eq!(
        device.disconnect_exit_node(&PublicKey::default()),
        Err(Error::NotStarted)
    );
    assert_eq!(device.disconnect_exit_nodes(), Err(Error::NotStarted));
    assert_eq!(device.enable_magic_dns(vec![]), Err(Error::NotStarted));
    assert_eq!(device.disable_magic_dns(), Err(Error::NotStarted));
    assert_eq!(device.external_nodes(), Err(Error::NotStarted));
    assert_eq!(device.trigger_analytics_event(), Err(Error::NotStarted));
    assert!(device.stop().is_empty());

    let config = DeviceConfig {
        private_key: secret(2),
        ..Default::default()
    };
    assert_eq!(device.start(config.clone(), false).unwrap().len(), 7);
    assert!(device.is_running());
    assert_eq!(device.start(config, false), Err(Error::AlreadyStarted));
    assert_eq!(device.get_private_key(), Ok(secret(2)));
    assert_eq!(
        device.set_fwmark(9),
        Ok(vec![Action::SetSocketPoolFwmark(9), Action::Consolidate])
    );
    assert_eq!(device.external_nodes(), Ok(vec![]));
    assert_eq!(device.stop().len(), 7);
    assert!(!device.is_running());
    assert_eq!(telio::device::set_tunnel_interface(Some(4), Some(5)), Some(4));
    assert_eq!(telio::device::set_tunnel_interface(None, Some(5)), Some(5));
    assert_eq!(telio::device::set_tunnel_interface(None, None), None);
}

#[test]
fn at_most_one_peer_routes_everything() {
    let private_key = secret(40);
    let mut rt = started(private_key, Features::default());
    rt.entities.wireguard_interface.listen_port = Some(1234);
    let config = two_peer_config(&private_key, v4(10, 0, 0, 1), v4(10, 0, 0, 2));
    let keys: Vec<PublicKey> = config
        .peers
        .as_ref()
        .unwrap()
        .iter()
        .map(|p| p.base.public_key)
        .collect();
    let actions = rt.set_config(Some(config)).unwrap();
    perform(&mut rt, &actions).unwrap();
    let routing = |rt: &Runtime| -> Vec<PublicKey> {
        rt.entities
            .wireguard_interface
            .peers
            .iter()
            .filter(|p| p.allowed_ips.contains(&IpNet::default_v4()))
            .map(|p| p.public_key)
            .collect()
    };
    assert!(routing(&rt).is_empty());
    for exit in [keys[0], keys[1], keys[0]] {
        let actions = rt
            .connect_exit_node(ExitNode {
                public_key: exit,
                ..Default::default()
            })
            .unwrap();
        perform(&mut rt, &actions).unwrap();
        assert_eq!(routing(&rt), vec![exit]);
    }
    let vpn = secret(41).public();
    let actions = rt
        .connect_exit_node(ExitNode {
            public_key: vpn,
            endpoint: Some(Endpoint::new(v4(3, 3, 3, 3), 3)),
            ..Default::default()
        })
        .unwrap();
    perform(&mut rt, &actions).unwrap();
    assert_eq!(routing(&rt), vec![vpn]);
    assert_eq!(rt.entities.wireguard_interface.peers.len(), 3);
}
