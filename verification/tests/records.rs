use lan_discovery::book::{mark_offline, receive_peer, store_is_due};
use lan_discovery::candidates::connection_candidates_from;
use lan_discovery::endpoint::{Endpoint, IpAddress, IpValue, Readings};
use lan_discovery::interface::{get_mac, Interface};
use lan_discovery::peer::DiscoveryPeer;
use lan_discovery::text_map::TextMap;
use lan_discovery::wake::{push_targets, wake_targets, WakeTarget};

fn peer(id: &str, endpoint: &str, macs: &[(&str, &str)]) -> DiscoveryPeer {
    let mut ip_mac = TextMap::new();
    for (address, mac) in macs {
        ip_mac.insert((*address).to_owned(), (*mac).to_owned());
    }
    DiscoveryPeer {
        id: id.to_owned(),
        endpoint: endpoint.to_owned(),
        fingerprint: "a".repeat(64),
        ip_mac,
        online: true,
        ..Default::default()
    }
}

fn readings() -> Readings {
    let mut readings = Readings::new();
    for (text, host, port) in [("10.0.0.1:1", "10.0.0.1", 1), ("box:2", "box", 2)] {
        readings.endpoints.insert(
            text.to_owned(),
            Endpoint {
                authority: text.to_owned(),
                host: host.to_owned(),
                port,
            },
        );
    }
    readings.addresses.insert(
        "10.0.0.1".to_owned(),
        IpAddress {
            value: IpValue::V4(0x0a00_0001),
            text: "10.0.0.1".to_owned(),
        },
    );
    readings
}

fn mac_at<'a>(peer: &'a DiscoveryPeer, address: &str) -> Option<&'a str> {
    peer.ip_mac.get(address).map(String::as_str)
}

#[test]
fn all_peers_go_offline() {
    let mut peers = vec![peer("a", "x", &[("1", "m")]), peer("b", "y", &[])];
    mark_offline(&mut peers);
    assert!(peers.iter().all(|peer| !peer.online));
    assert_eq!(peers[0].id, "a");
    assert_eq!(mac_at(&peers[0], "1"), Some("m"));
    assert_eq!(peers[1].endpoint, "y");
}

#[test]
fn new_peer_comes_first() {
    let mut peers = vec![peer("a", "x", &[]), peer("b", "y", &[])];
    receive_peer(&mut peers, peer("c", "z", &[("3", "m")]), &[false, false], &readings());
    let ids: Vec<&str> = peers.iter().map(|peer| peer.id.as_str()).collect();
    assert_eq!(ids, ["c", "a", "b"]);
    assert_eq!(peers[0].ip_mac.len(), 1);
}

#[test]
fn known_peer_takes_over_its_addresses() {
    let mut peers = vec![
        peer("a", "x", &[]),
        peer("b", "10.0.0.1:1", &[("10.0.0.7", "old"), ("10.0.0.8", "seven")]),
        peer("c", "y", &[]),
    ];
    peers[1].online = false;
    let found = peer("b2", "10.0.0.7:1", &[("10.0.0.7", "new"), ("10.0.0.9", "nine")]);
    receive_peer(&mut peers, found, &[false, true, true], &readings());
    let ids: Vec<&str> = peers.iter().map(|peer| peer.id.as_str()).collect();
    assert_eq!(ids, ["b2", "a", "c"]);
    assert!(peers[0].online);
    assert_eq!(peers[0].endpoint, "10.0.0.7:1");
    // The MAC address on record stays.
    assert_eq!(mac_at(&peers[0], "10.0.0.7"), Some("old"));
    assert_eq!(mac_at(&peers[0], "10.0.0.8"), Some("seven"));
    assert_eq!(mac_at(&peers[0], "10.0.0.9"), Some("nine"));
    // The host of the endpoint before is an address, of which no MAC address is known.
    assert_eq!(mac_at(&peers[0], "10.0.0.1"), Some(""));
    assert_eq!(peers[0].ip_mac.len(), 4);
}

#[test]
fn host_that_is_no_ip_address_is_not_taken_over() {
    for endpoint in ["box:2", "unreadable"] {
        let mut peers = vec![peer("a", endpoint, &[])];
        receive_peer(&mut peers, peer("a", "x", &[("1", "m")]), &[true], &readings());
        assert_eq!(peers.len(), 1);
        assert_eq!(peers[0].ip_mac.len(), 1);
    }
}

#[test]
fn known_address_of_the_host_is_not_overwritten() {
    let mut peers = vec![peer("a", "10.0.0.1:1", &[])];
    receive_peer(&mut peers, peer("a", "x", &[("10.0.0.1", "m")]), &[true], &readings());
    assert_eq!(mac_at(&peers[0], "10.0.0.1"), Some("m"));
}

#[test]
fn list_holds_one_record_of_each_peer() {
    let mut peers = Vec::new();
    for (id, endpoint) in [("a", "1"), ("b", "2"), ("a", "3"), ("c", "4"), ("b", "5"), ("b", "6")] {
        let same: Vec<bool> = peers.iter().map(|peer: &DiscoveryPeer| peer.id == id).collect();
        receive_peer(&mut peers, peer(id, endpoint, &[]), &same, &readings());
        mark_offline(&mut peers);
    }
    let records: Vec<(&str, &str)> =
        peers.iter().map(|peer| (peer.id.as_str(), peer.endpoint.as_str())).collect();
    assert_eq!(records, [("b", "6"), ("c", "4"), ("a", "3")]);
}

#[test]
fn missing_flags_count_as_unset() {
    let mut peers = vec![peer("a", "x", &[]), peer("b", "y", &[])];
    receive_peer(&mut peers, peer("c", "z", &[]), &[], &readings());
    receive_peer(&mut peers, peer("d", "w", &[]), &[false, false, false, true], &readings());
    assert_eq!(peers.len(), 4);
}

#[test]
fn endpoint_before_still_leads_to_the_device() {
    let mut peers = vec![peer("a", "10.0.0.1:1", &[])];
    receive_peer(&mut peers, peer("a", "10.0.0.2:1", &[]), &[true], &readings());
    let (fingerprint, list) =
        connection_candidates_from("10.0.0.1:1", &[], &peers, &readings(), 9);
    assert_eq!(fingerprint, Some("a".repeat(64)));
    assert_eq!(list, ["10.0.0.1:1", "10.0.0.2:1", "10.0.0.1:9"]);
}

#[test]
fn list_is_stored_at_intervals() {
    assert!(store_is_due(None));
    assert!(!store_is_due(Some(0)));
    assert!(!store_is_due(Some(300)));
    assert!(store_is_due(Some(301)));
}

fn interfaces() -> Vec<Interface> {
    vec![
        Interface {
            mac: Some([0x0a, 0, 0xff, 1, 2, 3]),
            ipv4: vec![11, 12],
            ipv6: vec![],
        },
        Interface {
            mac: None,
            ipv4: vec![13],
            ipv6: vec![4],
        },
    ]
}

#[test]
fn every_readable_mac_is_woken_from_every_address() {
    let peers = [
        peer("a", "x", &[("1", "01:02:03:04:05:06")]),
        peer(
            "b",
            "y",
            &[("1", "0a:0b:0c:0d:0e:0f"), ("2", ""), ("3", "nonsense"), ("4", "FF-FF-FF-00-00-00")],
        ),
        peer("b", "z", &[("1", "01:02:03:04:05:06")]),
    ];
    let mut targets: Vec<([u8; 6], u32)> = wake_targets("b", &peers, &interfaces())
        .iter()
        .map(|target| (target.mac, target.source))
        .collect();
    targets.sort();
    let first = [0x0a, 0x0b, 0x0c, 0x0d, 0x0e, 0x0f];
    let second = [0xff, 0xff, 0xff, 0, 0, 0];
    assert_eq!(
        targets,
        [(first, 11), (first, 12), (first, 13), (second, 11), (second, 12), (second, 13)]
    );
    assert!(wake_targets("c", &peers, &interfaces()).is_empty());
    assert!(wake_targets("b", &peers, &[]).is_empty());
}

/// The MAC address that is woken where `text` is the one on record.
fn woken(text: &str) -> Option<[u8; 6]> {
    let here = [Interface {
        mac: None,
        ipv4: vec![7],
        ipv6: vec![],
    }];
    let peers = [peer("a", "x", &[("1", text)])];
    wake_targets("a", &peers, &here).first().map(|target| target.mac)
}

#[test]
fn usual_forms_of_a_mac_are_read() {
    let mac = Some([0x00, 0x0a, 0x0b, 0x0c, 0x0d, 0xe0]);
    for text in [
        "00:0a:0b:0c:0d:e0",
        "00-0A-0B-0C-0D-E0",
        "0:a:b:c:d:e0",
        "0-A.b:0c-D.E0",
        "000a.0b0c.0de0",
        "000a0b0c0de0",
        "0x000a0b0c0de0",
        "0:a:b:c:d:e0:",
    ] {
        assert_eq!(woken(text), mac, "{text}");
    }
    assert_eq!(woken("1:2:3:4:5:6"), Some([1, 2, 3, 4, 5, 6]));
}

#[test]
fn other_characters_in_a_mac_are_passed_over() {
    assert_eq!(woken("G0:01:11:34:88:99"), Some([0, 1, 0x11, 0x34, 0x88, 0x99]));
    assert_eq!(woken(" 1, 2, 3,4,5,6"), Some([1, 2, 3, 4, 5, 6]));
    assert_eq!(woken("é1::2:3:4:5:6"), Some([1, 2, 3, 4, 5, 6]));
    assert_eq!(woken("0x1,0x2,0x34567"), None);
    assert_eq!(woken("0x1,0xx2,0x34567"), Some([1, 0, 2, 0x34, 0x56, 7]));
}

#[test]
fn mac_has_six_bytes() {
    for text in [
        "",
        "01:02:03:04:05",
        "0102030405:",
        "01:02:03:4:5:6:7",
        "1:2:3:4:5:",
        "01:02:03:04:05:06:",
        "0x01:02:03:04:05:06",
    ] {
        assert_eq!(woken(text), None, "{text}");
    }
}

#[test]
fn announced_mac_can_be_woken() {
    for first in 0..=255u8 {
        let octets = [first, 0x0f, 0xf0, 0xab, 0, 255 - first];
        let all = [Interface {
            mac: Some(octets),
            ipv4: vec![7],
            ipv6: vec![],
        }];
        let here = IpAddress {
            value: IpValue::V4(7),
            text: "0.0.0.7".to_owned(),
        };
        let mac = get_mac(&here, &all);
        let peers = [peer("a", "x", &[("1", &mac)])];
        assert_eq!(
            wake_targets("a", &peers, &all),
            [WakeTarget {
                mac: octets,
                source: 7
            }]
        );
    }
}

#[test]
fn targets_are_added_for_a_mac_only() {
    let mut targets = vec![WakeTarget {
        mac: [1; 6],
        source: 1,
    }];
    push_targets(&mut targets, None, &[2, 3]);
    assert_eq!(targets.len(), 1);
    push_targets(&mut targets, Some([2; 6]), &[2, 3]);
    assert_eq!(targets.len(), 3);
    assert_eq!(targets[2].mac, [2; 6]);
    assert_eq!(targets[2].source, 3);
}
