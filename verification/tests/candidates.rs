use lan_discovery::candidates::{connection_candidates_from, push_unique};
use lan_discovery::endpoint::{endpoint_at, Endpoint, IpAddress, IpValue, Readings};
use lan_discovery::peer::{has_fingerprint_form, DiscoveryPeer, RecentLanEndpoint};
use lan_discovery::text_map::TextMap;

const DEFAULT_PORT: u16 = 21118;

fn v4(text: &str) -> IpAddress {
    let bits = text
        .split('.')
        .fold(0u32, |bits, part| (bits << 8) | part.parse::<u32>().unwrap());
    IpAddress {
        value: IpValue::V4(bits),
        text: text.to_owned(),
    }
}

fn read_v4_endpoint(readings: &mut Readings, text: &str) {
    let (host, port) = text.rsplit_once(':').unwrap();
    readings.endpoints.insert(
        text.to_owned(),
        Endpoint {
            authority: text.to_owned(),
            host: host.to_owned(),
            port: port.parse().unwrap(),
        },
    );
    readings.addresses.insert(host.to_owned(), v4(host));
}

fn addresses(keys: &[&str]) -> TextMap<String> {
    let mut map = TextMap::new();
    for key in keys {
        map.insert((*key).to_owned(), String::new());
    }
    map
}

#[test]
fn connection_candidates_keep_vpn_endpoint_and_add_discovered_addresses() {
    let fingerprint = "a".repeat(64);
    let recent = RecentLanEndpoint {
        endpoint: "10.8.0.15:21118".to_owned(),
        fingerprint: fingerprint.clone(),
        ..Default::default()
    };
    let peers = vec![DiscoveryPeer {
        endpoint: "192.168.1.99:21118".to_owned(),
        fingerprint: fingerprint.clone(),
        ip_mac: addresses(&["192.168.1.99", "10.8.0.15"]),
        ..Default::default()
    }];
    let mut readings = Readings::new();
    read_v4_endpoint(&mut readings, "10.8.0.15:21118");
    read_v4_endpoint(&mut readings, "192.168.1.99:21118");

    let (resolved_fingerprint, candidates) = connection_candidates_from(
        &recent.endpoint,
        &[recent.clone()],
        &peers,
        &readings,
        DEFAULT_PORT,
    );

    assert_eq!(resolved_fingerprint, Some(fingerprint));
    assert_eq!(candidates[0], "10.8.0.15:21118");
    assert!(candidates.contains(&"192.168.1.99:21118".to_owned()));
    assert_eq!(
        candidates
            .iter()
            .filter(|endpoint| endpoint.as_str() == "10.8.0.15:21118")
            .count(),
        1
    );
}

#[test]
fn connection_candidates_can_identify_device_from_discovery_cache() {
    let fingerprint = "b".repeat(64);
    let peers = vec![DiscoveryPeer {
        endpoint: "192.168.1.20:21118".to_owned(),
        fingerprint: fingerprint.clone(),
        ip_mac: addresses(&["10.9.0.20"]),
        ..Default::default()
    }];
    let mut readings = Readings::new();
    read_v4_endpoint(&mut readings, "10.9.0.20:21118");
    read_v4_endpoint(&mut readings, "192.168.1.20:21118");

    let (resolved_fingerprint, candidates) =
        connection_candidates_from("10.9.0.20:21118", &[], &peers, &readings, DEFAULT_PORT);

    assert_eq!(resolved_fingerprint, Some(fingerprint));
    assert_eq!(candidates[0], "10.9.0.20:21118");
    assert!(candidates.contains(&"192.168.1.20:21118".to_owned()));
}

#[test]
fn unreadable_endpoint_is_the_only_candidate() {
    let recent = RecentLanEndpoint {
        endpoint: "no endpoint".to_owned(),
        fingerprint: "a".repeat(64),
    };
    let result =
        connection_candidates_from("no endpoint", &[recent], &[], &Readings::new(), DEFAULT_PORT);
    assert_eq!(result, (None, vec!["no endpoint".to_owned()]));
}

#[test]
fn unknown_device_has_the_requested_candidate_only() {
    let mut readings = Readings::new();
    readings.endpoints.insert(
        "Box".to_owned(),
        Endpoint {
            authority: "box:21118".to_owned(),
            host: "box".to_owned(),
            port: 21118,
        },
    );
    let other = RecentLanEndpoint {
        endpoint: "other:21118".to_owned(),
        fingerprint: "a".repeat(64),
    };
    let result = connection_candidates_from("Box", &[other], &[], &readings, DEFAULT_PORT);
    assert_eq!(result, (None, vec!["box:21118".to_owned()]));
}

#[test]
fn recent_endpoint_with_a_malformed_fingerprint_hides_the_discovered_one() {
    let mut readings = Readings::new();
    read_v4_endpoint(&mut readings, "10.0.0.1:21118");
    let recent = RecentLanEndpoint {
        endpoint: "10.0.0.1:21118".to_owned(),
        fingerprint: "short".to_owned(),
    };
    let peer = DiscoveryPeer {
        endpoint: "10.0.0.1:21118".to_owned(),
        fingerprint: "c".repeat(64),
        ..Default::default()
    };
    let result =
        connection_candidates_from("10.0.0.1:21118", &[recent], &[peer], &readings, DEFAULT_PORT);
    assert_eq!(result, (None, vec!["10.0.0.1:21118".to_owned()]));
}

#[test]
fn host_of_the_authority_counts_only_if_the_authority_is_readable() {
    let mut readings = Readings::new();
    readings.endpoints.insert(
        "10.0.0.1".to_owned(),
        Endpoint {
            authority: "10.0.0.1:21118".to_owned(),
            host: "10.0.0.1".to_owned(),
            port: 21118,
        },
    );
    let peers = [DiscoveryPeer {
        endpoint: "10.0.0.2:21118".to_owned(),
        fingerprint: "d".repeat(64),
        ip_mac: addresses(&["10.0.0.1"]),
        ..Default::default()
    }];
    let (unknown, _) =
        connection_candidates_from("10.0.0.1", &[], &peers, &readings, DEFAULT_PORT);
    assert_eq!(unknown, None);
    read_v4_endpoint(&mut readings, "10.0.0.1:21118");
    let (known, _) = connection_candidates_from("10.0.0.1", &[], &peers, &readings, DEFAULT_PORT);
    assert_eq!(known, Some("d".repeat(64)));
}

#[test]
fn candidates_come_in_order_with_ports_and_brackets() {
    let upper = "AB".repeat(32);
    let lower = "ab".repeat(32);
    let mut readings = Readings::new();
    read_v4_endpoint(&mut readings, "10.0.0.1:5000");
    read_v4_endpoint(&mut readings, "10.0.0.9:6000");
    readings.addresses.insert("10.0.0.10".to_owned(), v4("10.0.0.10"));
    readings.addresses.insert(
        "FE80::1".to_owned(),
        IpAddress {
            value: IpValue::V6(0xfe80_0000_0000_0000_0000_0000_0000_0001),
            text: "fe80::1".to_owned(),
        },
    );
    let recent = [
        RecentLanEndpoint {
            endpoint: "10.0.0.1:5000".to_owned(),
            fingerprint: upper.clone(),
        },
        RecentLanEndpoint {
            endpoint: "elsewhere:1".to_owned(),
            fingerprint: "f".repeat(64),
        },
        RecentLanEndpoint {
            endpoint: "vpn:7000".to_owned(),
            fingerprint: lower.clone(),
        },
        RecentLanEndpoint {
            endpoint: String::new(),
            fingerprint: lower.clone(),
        },
    ];
    let peers = [
        DiscoveryPeer {
            endpoint: "10.0.0.9:6000".to_owned(),
            fingerprint: upper.clone(),
            ip_mac: addresses(&["b.local", "FE80::1", "10.0.0.9", "10.0.0.10"]),
            ..Default::default()
        },
        DiscoveryPeer {
            endpoint: "10.0.0.77:6000".to_owned(),
            fingerprint: "e".repeat(64),
            ip_mac: addresses(&["10.0.0.10"]),
            ..Default::default()
        },
        DiscoveryPeer {
            endpoint: "unreadable".to_owned(),
            fingerprint: lower.clone(),
            ip_mac: addresses(&["10.0.0.10"]),
            ..Default::default()
        },
    ];
    let (fingerprint, list) =
        connection_candidates_from("10.0.0.1:5000", &recent, &peers, &readings, 4242);
    assert_eq!(fingerprint, Some(lower));
    assert_eq!(
        list,
        [
            "10.0.0.1:5000",
            "vpn:7000",
            "10.0.0.9:6000",
            "10.0.0.10:6000",
            "[fe80::1]:6000",
            "unreadable",
            "10.0.0.10:4242",
        ]
    );
}

#[test]
fn order_of_recorded_addresses_does_not_matter() {
    let mut readings = Readings::new();
    read_v4_endpoint(&mut readings, "10.0.0.1:1");
    for host in ["10.0.0.2", "10.0.0.10", "9.0.0.1"] {
        readings.addresses.insert(host.to_owned(), v4(host));
    }
    let list = |keys: &[&str]| {
        let peers = [DiscoveryPeer {
            endpoint: "10.0.0.1:1".to_owned(),
            fingerprint: "0".repeat(64),
            ip_mac: addresses(keys),
            ..Default::default()
        }];
        connection_candidates_from("10.0.0.1:1", &[], &peers, &readings, 1).1
    };
    let expected = ["10.0.0.1:1", "10.0.0.10:1", "10.0.0.2:1", "9.0.0.1:1"];
    assert_eq!(list(&["10.0.0.2", "10.0.0.10", "9.0.0.1"]), expected);
    assert_eq!(list(&["9.0.0.1", "10.0.0.10", "10.0.0.2"]), expected);
}

#[test]
fn records_of_other_devices_change_nothing() {
    let mut readings = Readings::new();
    read_v4_endpoint(&mut readings, "10.0.0.1:1");
    for host in ["10.0.0.2", "10.0.0.3"] {
        readings.addresses.insert(host.to_owned(), v4(host));
    }
    let recents = || {
        ["10.0.0.1:1", "vpn:2"].map(|endpoint| RecentLanEndpoint {
            endpoint: endpoint.to_owned(),
            fingerprint: "Ab".repeat(32),
        })
    };
    let peer = |endpoint: &str, fingerprint: &str, address: &str| DiscoveryPeer {
        endpoint: endpoint.to_owned(),
        fingerprint: fingerprint.repeat(32),
        ip_mac: addresses(&[address]),
        ..Default::default()
    };
    let own = || vec![peer("x:1", "aB", "10.0.0.2"), peer("y:1", "AB", "10.0.0.2")];
    let expected = connection_candidates_from("10.0.0.1:1", &recents(), &own(), &readings, 7);
    assert_eq!(expected.0, Some("ab".repeat(32)));
    assert_eq!(expected.1, ["10.0.0.1:1", "vpn:2", "x:1", "10.0.0.2:7", "y:1"]);
    for at in 0..=2 {
        let mut recent = recents().to_vec();
        recent.insert(
            at,
            RecentLanEndpoint {
                endpoint: "z:1".to_owned(),
                fingerprint: "cd".repeat(32),
            },
        );
        let mut peers = own();
        peers.insert(at, peer("z:1", "cd", "10.0.0.3"));
        assert_eq!(
            connection_candidates_from("10.0.0.1:1", &recent, &own(), &readings, 7),
            expected
        );
        assert_eq!(
            connection_candidates_from("10.0.0.1:1", &recents(), &peers, &readings, 7),
            expected
        );
    }
}

#[test]
fn empty_authority_is_no_candidate() {
    let mut readings = Readings::new();
    readings.endpoints.insert(
        ":".to_owned(),
        Endpoint {
            authority: String::new(),
            host: String::new(),
            port: 0,
        },
    );
    let result = connection_candidates_from(":", &[], &[], &readings, 1);
    assert_eq!(result, (None, Vec::<String>::new()));
}

#[test]
fn push_unique_leaves_out_empty_and_known_values() {
    let mut values = vec!["a".to_owned()];
    push_unique(&mut values, String::new());
    push_unique(&mut values, "a".to_owned());
    assert_eq!(values, ["a"]);
    push_unique(&mut values, "A".to_owned());
    push_unique(&mut values, "ab".to_owned());
    push_unique(&mut values, "A".to_owned());
    assert_eq!(values, ["a", "A", "ab"]);
}

#[test]
fn fingerprint_form_is_checked() {
    assert!(has_fingerprint_form(&"0aF9".repeat(16)));
    assert!(!has_fingerprint_form(&"0".repeat(63)));
    assert!(!has_fingerprint_form(&"0".repeat(65)));
    assert!(!has_fingerprint_form(&"g".repeat(64)));
    assert!(!has_fingerprint_form(&"é".repeat(32)));
    assert!(!has_fingerprint_form(&"é".repeat(64)));
}

#[test]
fn endpoint_text_has_the_port_in_decimal() {
    assert_eq!(endpoint_at(&v4("10.0.0.1"), 0), "10.0.0.1:0");
    assert_eq!(endpoint_at(&v4("10.0.0.1"), 9), "10.0.0.1:9");
    assert_eq!(endpoint_at(&v4("10.0.0.1"), 10), "10.0.0.1:10");
    assert_eq!(endpoint_at(&v4("10.0.0.1"), 65535), "10.0.0.1:65535");
    let v6 = IpAddress {
        value: IpValue::V6(1),
        text: "::1".to_owned(),
    };
    assert_eq!(endpoint_at(&v6, 21118), "[::1]:21118");
}
