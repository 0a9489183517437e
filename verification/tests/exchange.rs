use lan_discovery::announcement::{announce, listen_port, port_from_number, read_announced_port};
use lan_discovery::endpoint::{IpAddress, IpValue};
use lan_discovery::error::DiscoveryError;
use lan_discovery::interface::{broadcast_addresses, get_mac, get_mac_by_ip, list_ipv4, Interface};
use lan_discovery::message::{
    answers_message, check_transports, discovery_query, get_broadcast_port, listener_reply, ping_admitted,
    pong_reply, DeviceProfile, DiscoveryGate, PeerDiscovery, LAN_BROADCAST_ADDRESS,
};
use lan_discovery::response::{
    classify_response, peer_at, waiting_is_over, ResponseKind, ResponseWaiter,
};

const FINGERPRINT: &str = "00112233445566778899aabbccddeeff00112233445566778899AABBCCDDEEFF";

fn address(bits: u32, text: &str) -> IpAddress {
    IpAddress {
        value: IpValue::V4(bits),
        text: text.to_owned(),
    }
}

fn interfaces() -> Vec<Interface> {
    vec![
        Interface {
            mac: None,
            ipv4: vec![0x7f00_0001],
            ipv6: vec![1],
        },
        Interface {
            mac: None,
            ipv4: vec![0x0a00_0005],
            ipv6: vec![],
        },
        Interface {
            mac: Some([0x00, 0x1a, 0x2b, 0xc3, 0x0d, 0xff]),
            ipv4: vec![0x0a00_0004, 0x0a00_0005],
            ipv6: vec![5],
        },
        Interface {
            mac: Some([9; 6]),
            ipv4: vec![0x0a00_0005],
            ipv6: vec![],
        },
    ]
}

fn open_gate() -> DiscoveryGate {
    DiscoveryGate {
        discovery_option: String::new(),
        credentials_configured: true,
        service_stopped: false,
        source_allowed: true,
    }
}

fn profile() -> DeviceProfile {
    DeviceProfile {
        custom_name: " Studio ".to_owned(),
        system_hostname: "host".to_owned(),
        platform: "Linux".to_owned(),
        listen_port_option: "4000".to_owned(),
        protocol_version: 3,
        default_port: 21118,
    }
}

fn message(cmd: &str, id: &str) -> PeerDiscovery {
    PeerDiscovery {
        cmd: cmd.to_owned(),
        id: id.to_owned(),
        ..Default::default()
    }
}

#[test]
fn announcement_is_compact_json() {
    assert_eq!(
        announce(3, 4000, "ab"),
        "{\"fingerprint\":\"ab\",\"port\":4000,\"protocol_version\":3}"
    );
    assert_eq!(
        announce(u64::MAX, 0, ""),
        "{\"fingerprint\":\"\",\"port\":0,\"protocol_version\":18446744073709551615}"
    );
    assert_eq!(
        announce(1, 1, "é\u{7f}"),
        "{\"fingerprint\":\"é\u{7f}\",\"port\":1,\"protocol_version\":1}"
    );
}

#[test]
fn announced_text_is_escaped() {
    assert_eq!(
        announce(3, 4000, "a\"b\\c/"),
        "{\"fingerprint\":\"a\\\"b\\\\c/\",\"port\":4000,\"protocol_version\":3}"
    );
    assert_eq!(
        announce(3, 4000, "\u{8}\t\n\u{c}\r"),
        "{\"fingerprint\":\"\\b\\t\\n\\f\\r\",\"port\":4000,\"protocol_version\":3}"
    );
    assert_eq!(
        announce(3, 4000, "\u{0}\u{7}\u{b}\u{1f} \u{7f}\u{80}"),
        "{\"fingerprint\":\"\\u0000\\u0007\\u000b\\u001f \u{7f}\u{80}\",\"port\":4000,\
         \"protocol_version\":3}"
    );
}

#[test]
fn announced_port_is_read_back() {
    for fingerprint in [FINGERPRINT, "", "\"port\":7,\\", "\n\u{0}é"] {
        for port in [1u16, 4000, 65535] {
            assert_eq!(read_announced_port(&announce(9, port, fingerprint), 21118), port);
        }
        assert_eq!(read_announced_port(&announce(9, 0, fingerprint), 21118), 21118);
    }
}

#[test]
fn port_is_the_default_where_none_is_announced() {
    for misc in [
        "", "no json", "[]", "7", "null", "{}", "{\"port\":\"4000\"}", "{\"port\":-1}",
        "{\"port\":0}", "{\"port\":65536}", "{\"port\":4000.0}", "{\"Port\":4000}",
        "{\"inner\":{\"port\":4000}}", "{\"port\":4000",
    ] {
        assert_eq!(read_announced_port(misc, 21118), 21118, "{misc}");
    }
    assert_eq!(read_announced_port(" { \"x\" : [1], \"port\" : 65535 } ", 21118), 65535);
    assert_eq!(read_announced_port("{\"port\":1,\"port\":2}", 21118), 2);
}

#[test]
fn port_numbers_are_checked() {
    assert_eq!(port_from_number(None, 5), 5);
    assert_eq!(port_from_number(Some(0), 5), 5);
    assert_eq!(port_from_number(Some(1), 5), 1);
    assert_eq!(port_from_number(Some(65535), 5), 65535);
    assert_eq!(port_from_number(Some(65536), 5), 5);
    assert_eq!(port_from_number(Some(u64::MAX), 5), 5);
}

#[test]
fn listening_option_names_the_port() {
    assert_eq!(listen_port("4000", 21118), 4000);
    assert_eq!(listen_port("", 21118), 21118);
    assert_eq!(listen_port("0", 21118), 21118);
    assert_eq!(listen_port("65536", 21118), 21118);
    assert_eq!(listen_port("port", 21118), 21118);
}

#[test]
fn mac_address_is_found_by_address() {
    let all = interfaces();
    assert_eq!(get_mac(&address(0x0a00_0004, "10.0.0.4"), &all), "00:1a:2b:c3:0d:ff");
    // An interface without a MAC address is passed over.
    assert_eq!(get_mac(&address(0x0a00_0005, "10.0.0.5"), &all), "00:1a:2b:c3:0d:ff");
    assert_eq!(get_mac(&address(0x7f00_0001, "127.0.0.1"), &all), "");
    let v6 = |bits: u128| IpAddress {
        value: IpValue::V6(bits),
        text: "v6".to_owned(),
    };
    assert_eq!(get_mac(&v6(5), &all), "00:1a:2b:c3:0d:ff");
    assert_eq!(get_mac(&v6(0x0a00_0004), &all), "");
    match get_mac_by_ip(&address(9, "0.0.0.9"), &all) {
        Err(error) => assert_eq!(error.message(), "No interface found for ip: 0.0.0.9"),
        Ok(_) => panic!("no interface has the address"),
    }
}

#[test]
fn queries_go_out_from_every_address() {
    assert_eq!(
        list_ipv4(&interfaces()),
        [0x7f00_0001, 0x0a00_0005, 0x0a00_0004, 0x0a00_0005, 0x0a00_0005]
    );
    assert_eq!(
        broadcast_addresses(&interfaces()),
        [0x7f00_0001, 0x0a00_0005, 0x0a00_0004, 0x0a00_0005, 0x0a00_0005, 0]
    );
    assert_eq!(broadcast_addresses(&[]), [0]);
    assert_eq!(get_broadcast_port(), 21119);
    assert_eq!(LAN_BROADCAST_ADDRESS, u32::MAX);
}

#[test]
fn query_needs_a_socket() {
    match discovery_query(2, "me") {
        Ok(query) => {
            assert_eq!(query.cmd, "ping");
            assert_eq!(query.id, "me");
            assert_eq!(query.mac, "");
            assert_eq!(query.misc, "");
        }
        Err(_) => panic!("there are sockets"),
    }
    match discovery_query(0, "me") {
        Err(error) => {
            assert!(matches!(error, DiscoveryError::NoBindableAddress));
            assert_eq!(error.message(), "Found no bindable ipv4 addresses");
        }
        Ok(_) => panic!("there is no socket"),
    }
}

#[test]
fn one_transport_is_enough() {
    assert!(check_transports(true, false).is_ok());
    assert!(check_transports(false, true).is_ok());
    assert!(check_transports(true, true).is_ok());
    match check_transports(false, false) {
        Err(error) => {
            assert!(matches!(error, DiscoveryError::NoTransport));
            assert_eq!(error.message(), "No LAN discovery transport is available");
        }
        Ok(()) => panic!("there is no transport"),
    }
}

#[test]
fn gate_lets_queries_through() {
    let ping = message("ping", "other");
    assert!(ping_admitted(&ping, &open_gate()));
    assert!(!ping_admitted(&message("pong", "other"), &open_gate()));
    assert!(!ping_admitted(&message("Ping", "other"), &open_gate()));
    let gate = |option: &str, credentials, stopped, allowed| DiscoveryGate {
        discovery_option: option.to_owned(),
        credentials_configured: credentials,
        service_stopped: stopped,
        source_allowed: allowed,
    };
    assert!(ping_admitted(&ping, &gate("n", true, false, true)));
    assert!(!ping_admitted(&ping, &gate("N", true, false, true)));
    assert!(!ping_admitted(&ping, &gate("Y", false, false, true)));
    assert!(!ping_admitted(&ping, &gate("Y", true, true, true)));
    assert!(!ping_admitted(&ping, &gate("Y", true, false, false)));
}

#[test]
fn own_query_is_not_answered() {
    assert!(answers_message(&message("ping", "other"), &open_gate(), FINGERPRINT));
    assert!(!answers_message(&message("ping", FINGERPRINT), &open_gate(), FINGERPRINT));
    assert!(!answers_message(&message("pong", "other"), &open_gate(), FINGERPRINT));
}

#[test]
fn listener_answers_others_only() {
    let all = interfaces();
    let local = address(0x0a00_0004, "10.0.0.4");
    let reply = |id: &str, local: Option<&IpAddress>| {
        listener_reply(
            &message("ping", id),
            &open_gate(),
            FINGERPRINT,
            local,
            &all,
            &profile(),
        )
    };
    assert!(reply(FINGERPRINT, Some(&local)).is_none());
    assert!(reply("other", None).is_none());
    let pong = reply("other", Some(&local)).unwrap();
    assert_eq!(pong.cmd, "pong");
    assert_eq!(pong.mac, "00:1a:2b:c3:0d:ff");
    assert_eq!(pong.id, FINGERPRINT);
    assert_eq!(pong.username, "");
    assert_eq!(pong.hostname, "Studio");
    assert_eq!(pong.platform, "Linux");
    assert_eq!(pong.misc, announce(3, 4000, FINGERPRINT));
    // A reply is not answered.
    assert!(
        listener_reply(&pong, &open_gate(), "third", Some(&local), &all, &profile()).is_none()
    );
}

#[test]
fn responses_are_told_apart() {
    assert!(matches!(classify_response(None), ResponseKind::Unrelated));
    assert!(matches!(
        classify_response(Some(&message("ping", FINGERPRINT))),
        ResponseKind::NoReply
    ));
    assert!(matches!(
        classify_response(Some(&message("pong", "short"))),
        ResponseKind::BadFingerprint
    ));
    assert!(matches!(
        classify_response(Some(&message("pong", FINGERPRINT))),
        ResponseKind::Reply
    ));
    assert!(!ResponseKind::Unrelated.is_heard());
    assert!(ResponseKind::NoReply.is_heard());
    assert!(ResponseKind::BadFingerprint.is_heard());
    assert!(ResponseKind::Reply.is_heard());
}

#[test]
fn waiting_ends_after_three_seconds_of_silence() {
    assert!(!waiting_is_over(ResponseKind::Unrelated, 3000));
    assert!(waiting_is_over(ResponseKind::Unrelated, 3001));
    assert!(waiting_is_over(ResponseKind::Reply, 3001));
    assert!(!waiting_is_over(ResponseKind::BadFingerprint, u128::MAX));
}

#[test]
fn reply_tells_of_the_device() {
    let source = address(0x0a00_0004, "10.0.0.4");
    let pong = pong_reply(&source, &interfaces(), FINGERPRINT, &profile());
    let mut waiter = ResponseWaiter::new(None);
    let peer = waiter.receive(&pong, &source, None, &[], 21118).unwrap();
    assert_eq!(peer.id, "10.0.0.4:4000");
    assert_eq!(peer.endpoint, "10.0.0.4:4000");
    assert_eq!(peer.fingerprint, FINGERPRINT);
    assert_eq!(peer.ip_mac.len(), 1);
    assert_eq!(
        peer.ip_mac.get("10.0.0.4").map(String::as_str),
        Some("00:1a:2b:c3:0d:ff")
    );
    assert_eq!(peer.username, "");
    assert_eq!(peer.hostname, "Studio");
    assert_eq!(peer.platform, "Linux");
    assert!(peer.online);
}

#[test]
fn peer_is_placed_at_the_given_port() {
    let source = IpAddress {
        value: IpValue::V6(1),
        text: "::1".to_owned(),
    };
    let peer = peer_at(&message("pong", "x"), &source, 80);
    assert_eq!(peer.endpoint, "[::1]:80");
    assert!(peer.ip_mac.contains_key("::1"));
}

#[test]
fn device_does_not_list_itself() {
    let here = address(0x0a00_0004, "10.0.0.4");
    let own = pong_reply(&here, &interfaces(), FINGERPRINT, &profile());
    let mut by_route = ResponseWaiter::new(Some(address(0, "0.0.0.0")));
    assert!(by_route.needs_route());
    assert!(by_route
        .receive(&own, &here, Some(&here), &interfaces(), 21118)
        .is_none());
    let elsewhere = address(0x7f00_0001, "127.0.0.1");
    assert!(by_route
        .receive(&own, &here, Some(&elsewhere), &interfaces(), 21118)
        .is_some());
    // Where neither side knows a MAC address the reply counts.
    let mut nameless = message("pong", FINGERPRINT);
    nameless.misc = "{}".to_owned();
    let peer = by_route.receive(&nameless, &here, None, &[], 21118).unwrap();
    assert_eq!(peer.endpoint, "10.0.0.4:21118");
}

#[test]
fn mac_of_a_bound_socket_is_looked_up_once() {
    let bound = address(0x0a00_0004, "10.0.0.4");
    let mut waiter = ResponseWaiter::new(Some(address(0x0a00_0004, "10.0.0.4")));
    assert!(!waiter.needs_route());
    assert!(waiter.needs_interfaces());
    assert_eq!(waiter.local_mac(None, &interfaces()), "00:1a:2b:c3:0d:ff");
    assert!(!waiter.needs_interfaces());
    assert_eq!(waiter.local_mac(Some(&bound), &[]), "00:1a:2b:c3:0d:ff");
}

#[test]
fn unknown_mac_of_a_bound_socket_is_kept_too() {
    let mut waiter = ResponseWaiter::new(Some(address(77, "0.0.0.77")));
    assert_eq!(waiter.local_mac(None, &interfaces()), "");
    let changed = [Interface {
        mac: Some([1; 6]),
        ipv4: vec![77],
        ipv6: vec![],
    }];
    assert_eq!(waiter.local_mac(None, &changed), "");
}

#[test]
fn only_replies_tell_of_peers() {
    let here = address(1, "0.0.0.1");
    let mut waiter = ResponseWaiter::new(Some(address(0x0a00_0004, "10.0.0.4")));
    assert!(waiter
        .receive(&message("ping", FINGERPRINT), &here, None, &interfaces(), 1)
        .is_none());
    assert!(waiter
        .receive(&message("pong", "bad"), &here, None, &interfaces(), 1)
        .is_none());
    assert!(waiter.needs_interfaces());
}
