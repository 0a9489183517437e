//! What each operation does, told by what goes into a call and what comes out of it.

use vstd::prelude::*;

use crate::announcement::announce;
use crate::announcement::announced_integers;
use crate::announcement::escaped;
use crate::announcement::json_reading;
use crate::announcement::law_announced_port_is_read_back;
use crate::announcement::law_announcement_has_three_members;
use crate::announcement::law_member_port_is_announced;
use crate::announcement::law_named_port_is_listened_on;
use crate::announcement::law_port_numbers;
use crate::announcement::listen_port;
use crate::announcement::port_from_number;
use crate::announcement::read_announced_port;
use crate::book::law_found_peer_takes_over_its_addresses;
use crate::book::law_new_peer_is_entered_as_found;
use crate::book::mark_offline;
use crate::book::receive_peer;
use crate::book::store_is_due;
use crate::candidate_laws::law_candidates_of_a_known_device;
use crate::candidate_laws::law_discovered_addresses_are_candidates;
use crate::candidate_laws::law_discovered_peer_tells_the_device;
use crate::candidate_laws::law_every_candidate_has_a_source;
use crate::candidate_laws::law_push_unique_adds_the_value_only;
use crate::candidate_laws::law_recent_endpoint_tells_the_device;
use crate::candidate_laws::law_recent_endpoints_are_candidates;
use crate::candidate_laws::law_requested_endpoint_comes_first;
use crate::candidate_laws::law_unseen_device_is_not_known;
use crate::candidates::connection_candidates_from;
use crate::candidates::distinct;
use crate::candidates::push_unique;
use crate::device_name::law_device_name_of_a_text;
use crate::device_name::sanitize_lan_device_name;
use crate::device_name::sanitized;
use crate::device_name::select_device_display_name;
use crate::endpoint::endpoint_at;
use crate::endpoint::endpoint_text;
use crate::endpoint::IpAddress;
use crate::endpoint::IpValue;
use crate::endpoint::Readings;
use crate::error::DiscoveryError;
use crate::interface::broadcast_addresses;
use crate::interface::get_mac;
use crate::interface::get_mac_by_ip;
use crate::interface::has_address;
use crate::interface::ipv4_addresses;
use crate::interface::law_first_interface_gives_the_mac;
use crate::interface::law_no_interface_gives_no_mac;
use crate::interface::list_ipv4;
use crate::interface::mac_text;
use crate::interface::mac_text_of;
use crate::interface::Interface;
use crate::message::answers_message;
use crate::message::check_transports;
use crate::message::discovery_query;
use crate::message::get_broadcast_port;
use crate::message::law_chosen_name_goes_first;
use crate::message::law_reply_tells_all;
use crate::message::law_service_is_at_the_named_port;
use crate::message::listener_reply;
use crate::message::ping_admitted;
use crate::message::pong_reply;
use crate::message::DeviceProfile;
use crate::message::DiscoveryGate;
use crate::message::PeerDiscovery;
use crate::message::LAN_BROADCAST_ADDRESS;
use crate::number::decimal;
use crate::number::parse_u16;
use crate::number::u16_value;
use crate::order::in_order;
use crate::peer::has_fingerprint_form;
use crate::peer::is_fingerprint;
use crate::peer::peer_views;
use crate::peer::DiscoveryPeer;
use crate::peer::DiscoveryPeerView;
use crate::peer::RecentLanEndpoint;
use crate::response::classify_response;
use crate::response::law_different_macs_are_different_devices;
use crate::response::law_local_mac_goes_with_the_socket;
use crate::response::law_peer_is_entered_as_told;
use crate::response::peer_at;
use crate::response::waiting_is_over;
use crate::response::ResponseKind;
use crate::response::ResponseWaiter;
use crate::text::ascii_lower;
use crate::text::is_control_char;
use crate::text::is_white_space;
use crate::text::texts;
use crate::wake::law_device_is_woken_from_every_address;
use crate::wake::law_first_record_with_the_id_is_woken;
use crate::wake::parsed_mac;
use crate::wake::push_targets;
use crate::wake::targets_of;
use crate::wake::wake_targets;
use crate::wake::WakeTarget;

verus! {

/// The port to listen on is the one that the option names, if it names one other than
/// zero, and the default otherwise.
pub proof fn law_listen_port(option: &str, default_port: u16, port: u16)
    requires
        call_ensures(listen_port, (option, default_port), port),
    ensures
        forall|n: u16| n > 0 && option@ == #[trigger] decimal(n as nat) ==> port == n,
        u16_value(option@) matches Some(n) && n > 0 ==> Some(port) == u16_value(option@),
        u16_value(option@) is None || u16_value(option@) == Some(0u16) ==> port == default_port,
{
    law_named_port_is_listened_on(option@, default_port);
}

/// The port that a number stands for is the number, if it is one of the ports from 1
/// on, and the default otherwise.
pub proof fn law_port_from_number(number: Option<u64>, default_port: u16, port: u16)
    requires
        call_ensures(port_from_number, (number, default_port), port),
    ensures
        number matches Some(n) && 1 <= n <= 65535 ==> port == number->0,
        number is None || number->0 == 0 || number->0 > 65535 ==> port == default_port,
{
    law_port_numbers(number->0, default_port);
}

/// The port of a reply is the member `port` of its JSON text, if that is a port from 1
/// on, and the default otherwise.
pub proof fn law_read_announced_port(misc: &str, default_port: u16, port: u16)
    requires
        call_ensures(read_announced_port, (misc, default_port), port),
    ensures
        json_reading(misc@) matches Some(integers) && integers.contains_key("port"@) && 1
            <= integers["port"@] <= 65535 ==> port == json_reading(misc@)->0["port"@],
        json_reading(misc@) is None || !json_reading(misc@)->0.contains_key("port"@)
            || json_reading(misc@)->0["port"@] == 0 || json_reading(misc@)->0["port"@] > 65535
            ==> port == default_port,
{
    law_member_port_is_announced(misc@, json_reading(misc@)->0, default_port);
}

/// An announcement holds the fingerprint, the port and the version of the protocol,
/// and the numbers in it are read back as they are.
pub proof fn law_announce(protocol_version: u64, port: u16, fingerprint: &str, misc: String)
    requires
        call_ensures(announce, (protocol_version, port, fingerprint), misc),
    ensures
        misc@ == "{\"fingerprint\":\""@ + escaped(fingerprint@) + "\",\"port\":"@ + decimal(
            port as nat,
        ) + ",\"protocol_version\":"@ + decimal(protocol_version as nat) + "}"@,
        json_reading(misc@) matches Some(integers) && integers.dom() == set![
            "port"@,
            "protocol_version"@,
        ] && integers["port"@] == port && integers["protocol_version"@] == protocol_version,
{
    law_announcement_has_three_members(protocol_version, port, fingerprint@);
}

/// What is announced by one device is what another one reads.
pub proof fn law_announce_and_read(
    protocol_version: u64,
    port: u16,
    fingerprint: &str,
    misc: String,
    text: &str,
    default_port: u16,
    read: u16,
)
    requires
        port > 0,
        call_ensures(announce, (protocol_version, port, fingerprint), misc),
        text@ == misc@,
        call_ensures(read_announced_port, (text, default_port), read),
    ensures
        read == port,
{
    law_announced_port_is_read_back(misc@, protocol_version, port, default_port);
}

/// A device name is what a text holds between the white space at its ends, without
/// control characters, up to 64 characters.
pub proof fn law_sanitize_lan_device_name(
    value: &str,
    name: String,
    front: Seq<char>,
    text: Seq<char>,
    back: Seq<char>,
)
    requires
        call_ensures(sanitize_lan_device_name, (value,), name),
        value@ == front + text + back,
        forall|i: int| 0 <= i < front.len() ==> is_white_space(#[trigger] front[i]),
        forall|i: int| 0 <= i < back.len() ==> is_white_space(#[trigger] back[i]),
        text.len() > 0 ==> !is_white_space(text[0]) && !is_white_space(text[text.len() - 1]),
    ensures
        ({
            let kept = text.filter(|c: char| !is_control_char(c));
            &&& kept.len() <= 64 ==> name@ == kept
            &&& kept.len() > 64 ==> name@ == kept.take(64)
        }),
{
    law_device_name_of_a_text(front, text, back);
}

/// The name to show is the device name that the chosen name makes; if that is empty
/// the one that the name of the system makes; and if that is empty too a fixed one.
pub proof fn law_select_device_display_name(
    custom_name: &str,
    system_hostname: &str,
    custom: String,
    system: String,
    name: String,
)
    requires
        call_ensures(sanitize_lan_device_name, (custom_name,), custom),
        call_ensures(sanitize_lan_device_name, (system_hostname,), system),
        call_ensures(select_device_display_name, (custom_name, system_hostname), name),
    ensures
        custom@.len() > 0 ==> name@ == custom@,
        custom@.len() == 0 && system@.len() > 0 ==> name@ == system@,
        custom@.len() == 0 && system@.len() == 0 ==> name@ == "SubnetDesk"@,
{
}

/// An endpoint text that does not read as one is the only candidate, and nothing is
/// known of the device.
pub proof fn law_candidates_for_an_unreadable_endpoint(
    endpoint: &str,
    recent: &[RecentLanEndpoint],
    peers: &[DiscoveryPeer],
    readings: &Readings,
    default_port: u16,
    result: (Option<String>, Vec<String>),
)
    requires
        call_ensures(
            connection_candidates_from,
            (endpoint, recent, peers, readings, default_port),
            result,
        ),
        !readings@.endpoints.contains_key(endpoint@),
    ensures
        result.0 is None,
        texts(result.1@) == seq![endpoint@],
{
}

/// The fingerprint of the device is that of the first recent endpoint that is the
/// requested one, in lower case, if it is a proper one.
pub proof fn law_fingerprint_from_a_recent_endpoint(
    endpoint: &str,
    recent: &[RecentLanEndpoint],
    peers: &[DiscoveryPeer],
    readings: &Readings,
    default_port: u16,
    result: (Option<String>, Vec<String>),
    i: int,
)
    requires
        call_ensures(
            connection_candidates_from,
            (endpoint, recent, peers, readings, default_port),
            result,
        ),
        readings@.endpoints.contains_key(endpoint@),
        0 <= i < recent@.len(),
        recent@[i].endpoint@ == readings@.endpoints[endpoint@].authority,
        forall|j: int|
            0 <= j < i ==> (#[trigger] recent@[j]).endpoint@
                != readings@.endpoints[endpoint@].authority,
    ensures
        is_fingerprint(recent@[i].fingerprint@) ==> result.0 is Some && result.0->0@
            == ascii_lower(recent@[i].fingerprint@),
        !is_fingerprint(recent@[i].fingerprint@) ==> result.0 is None,
{
    law_recent_endpoint_tells_the_device(
        endpoint@,
        recent@,
        peer_views(peers@),
        readings@,
        default_port,
        i,
    );
}

/// Where no recent endpoint is the requested one, the fingerprint of the device is
/// that of the first peer with the requested endpoint, or with its host among its
/// addresses, in lower case, if it is a proper one.
pub proof fn law_fingerprint_from_a_discovered_peer(
    endpoint: &str,
    recent: &[RecentLanEndpoint],
    peers: &[DiscoveryPeer],
    readings: &Readings,
    default_port: u16,
    result: (Option<String>, Vec<String>),
    i: int,
)
    requires
        call_ensures(
            connection_candidates_from,
            (endpoint, recent, peers, readings, default_port),
            result,
        ),
        readings@.endpoints.contains_key(endpoint@),
        0 <= i < peers@.len(),
        ({
            let authority = readings@.endpoints[endpoint@].authority;
            let at_host = readings@.endpoints.contains_key(authority);
            let host = readings@.endpoints[authority].host;
            &&& forall|j: int|
                0 <= j < recent@.len() ==> (#[trigger] recent@[j]).endpoint@ != authority
            &&& peers@[i].endpoint@ == authority || at_host && peers@[i].ip_mac@.contains_key(host)
            &&& forall|j: int|
                0 <= j < i ==> (#[trigger] peers@[j]).endpoint@ != authority && !(at_host
                    && peers@[j].ip_mac@.contains_key(host))
        }),
    ensures
        is_fingerprint(peers@[i].fingerprint@) ==> result.0 is Some && result.0->0@ == ascii_lower(
            peers@[i].fingerprint@,
        ),
        !is_fingerprint(peers@[i].fingerprint@) ==> result.0 is None,
{
    let views = peer_views(peers@);
    let authority = readings@.endpoints[endpoint@].authority;
    let at_host = readings@.endpoints.contains_key(authority);
    let host = readings@.endpoints[authority].host;
    assert(views[i] == peers@[i]@);
    assert forall|j: int| 0 <= j < i implies (#[trigger] views[j]).endpoint != authority && !(at_host
        && views[j].ip_mac.contains_key(host)) by {
        assert(views[j] == peers@[j]@);
        assert(peers@[j].endpoint@ != authority);
    }
    law_discovered_peer_tells_the_device(endpoint@, recent@, views, readings@, default_port, i);
}

/// Where no recent endpoint is the requested one, and no peer has it or its host among
/// its addresses, nothing is known of the device and the requested endpoint is the
/// only candidate.
pub proof fn law_candidates_for_an_unseen_device(
    endpoint: &str,
    recent: &[RecentLanEndpoint],
    peers: &[DiscoveryPeer],
    readings: &Readings,
    default_port: u16,
    result: (Option<String>, Vec<String>),
)
    requires
        call_ensures(
            connection_candidates_from,
            (endpoint, recent, peers, readings, default_port),
            result,
        ),
        readings@.endpoints.contains_key(endpoint@),
        readings@.endpoints[endpoint@].authority.len() > 0,
        ({
            let authority = readings@.endpoints[endpoint@].authority;
            let at_host = readings@.endpoints.contains_key(authority);
            let host = readings@.endpoints[authority].host;
            &&& forall|j: int|
                0 <= j < recent@.len() ==> (#[trigger] recent@[j]).endpoint@ != authority
            &&& forall|j: int|
                0 <= j < peers@.len() ==> (#[trigger] peers@[j]).endpoint@ != authority && !(at_host
                    && peers@[j].ip_mac@.contains_key(host))
        }),
    ensures
        result.0 is None,
        texts(result.1@) == seq![readings@.endpoints[endpoint@].authority],
{
    let views = peer_views(peers@);
    let authority = readings@.endpoints[endpoint@].authority;
    let at_host = readings@.endpoints.contains_key(authority);
    let host = readings@.endpoints[authority].host;
    assert forall|j: int| 0 <= j < views.len() implies (#[trigger] views[j]).endpoint != authority
        && !(at_host && views[j].ip_mac.contains_key(host)) by {
        assert(views[j] == peers@[j]@);
        assert(peers@[j].endpoint@ != authority);
    }
    law_unseen_device_is_not_known(endpoint@, recent@, views, readings@, default_port);
    law_requested_endpoint_comes_first(endpoint@, recent@, views, readings@, default_port);
}

/// The requested endpoint is the first candidate, and the only one where the device is
/// not known.
pub proof fn law_requested_endpoint_is_the_first_candidate(
    endpoint: &str,
    recent: &[RecentLanEndpoint],
    peers: &[DiscoveryPeer],
    readings: &Readings,
    default_port: u16,
    result: (Option<String>, Vec<String>),
)
    requires
        call_ensures(
            connection_candidates_from,
            (endpoint, recent, peers, readings, default_port),
            result,
        ),
        readings@.endpoints.contains_key(endpoint@),
        readings@.endpoints[endpoint@].authority.len() > 0,
    ensures
        result.1@.len() > 0,
        result.1@[0]@ == readings@.endpoints[endpoint@].authority,
        result.0 is None ==> result.1@.len() == 1,
{
    law_requested_endpoint_comes_first(
        endpoint@,
        recent@,
        peer_views(peers@),
        readings@,
        default_port,
    );
    let list = texts(result.1@);
    assert(list.len() == result.1@.len());
    assert(list[0] == result.1@[0]@);
}

/// The candidates for a known device, in their order: the requested endpoint, the
/// recent endpoints of the device, and for each of its peer records the endpoint and
/// then the port of that endpoint at each IP address of the record. The default port
/// stands in only where the endpoint of the record does not read as one.
///
/// `told` is what a record tells.
pub proof fn law_candidates_in_their_order(
    endpoint: &str,
    recent: &[RecentLanEndpoint],
    peers: &[DiscoveryPeer],
    readings: &Readings,
    default_port: u16,
    result: (Option<String>, Vec<String>),
    told: spec_fn(DiscoveryPeerView) -> Seq<Seq<char>>,
)
    requires
        call_ensures(
            connection_candidates_from,
            (endpoint, recent, peers, readings, default_port),
            result,
        ),
        readings@.endpoints.contains_key(endpoint@),
        result.0 is Some,
        forall|p: DiscoveryPeerView| #[trigger]
            told(p) == ({
                let port = if readings@.endpoints.contains_key(p.endpoint) {
                    readings@.endpoints[p.endpoint].port
                } else {
                    default_port
                };
                seq![p.endpoint] + in_order(p.ip_mac.dom()).filter(
                    |k: Seq<char>| readings@.addresses.contains_key(k),
                ).map_values(|k: Seq<char>| endpoint_text(readings@.addresses[k], port))
            }),
    ensures
        texts(result.1@) == distinct(
            seq![readings@.endpoints[endpoint@].authority] + recent@.filter(
                |r: RecentLanEndpoint| ascii_lower(r.fingerprint@) == result.0->0@,
            ).map_values(|r: RecentLanEndpoint| r.endpoint@) + peer_views(peers@).filter(
                |p: DiscoveryPeerView| ascii_lower(p.fingerprint) == result.0->0@,
            ).map_values(told).flatten(),
        ),
{
    law_candidates_of_a_known_device(
        endpoint@,
        recent@,
        peer_views(peers@),
        readings@,
        default_port,
        result.0->0@,
        told,
    );
}

/// Of a known device every recent endpoint is a candidate, and of every peer record
/// the endpoint and, at each IP address of the record, the port of that endpoint. The
/// default port stands in only where the endpoint of the record does not read as one.
pub proof fn law_all_that_is_known_is_a_candidate(
    endpoint: &str,
    recent: &[RecentLanEndpoint],
    peers: &[DiscoveryPeer],
    readings: &Readings,
    default_port: u16,
    result: (Option<String>, Vec<String>),
)
    requires
        call_ensures(
            connection_candidates_from,
            (endpoint, recent, peers, readings, default_port),
            result,
        ),
        readings@.endpoints.contains_key(endpoint@),
        result.0 is Some,
    ensures
        forall|i: int|
            0 <= i < recent@.len() && ascii_lower((#[trigger] recent@[i]).fingerprint@)
                == result.0->0@ && recent@[i].endpoint@.len() > 0 ==> texts(result.1@).contains(
                recent@[i].endpoint@,
            ),
        forall|i: int|
            0 <= i < peers@.len() && ascii_lower((#[trigger] peers@[i]).fingerprint@)
                == result.0->0@ && peers@[i].endpoint@.len() > 0 ==> texts(result.1@).contains(
                peers@[i].endpoint@,
            ),
        forall|i: int, k: Seq<char>|
            0 <= i < peers@.len() && ascii_lower(peers@[i].fingerprint@) == result.0->0@
                && #[trigger] peers@[i].ip_mac@.contains_key(k)
                && readings@.addresses.contains_key(k) && readings@.endpoints.contains_key(
                peers@[i].endpoint@,
            ) ==> texts(result.1@).contains(
                endpoint_text(
                    readings@.addresses[k],
                    readings@.endpoints[peers@[i].endpoint@].port,
                ),
            ),
        forall|i: int, k: Seq<char>|
            0 <= i < peers@.len() && ascii_lower(peers@[i].fingerprint@) == result.0->0@
                && #[trigger] peers@[i].ip_mac@.contains_key(k)
                && readings@.addresses.contains_key(k) && !readings@.endpoints.contains_key(
                peers@[i].endpoint@,
            ) ==> texts(result.1@).contains(
                endpoint_text(readings@.addresses[k], default_port),
            ),
{
    let views = peer_views(peers@);
    assert forall|i: int|
        0 <= i < recent@.len() && ascii_lower((#[trigger] recent@[i]).fingerprint@) == result.0->0@
            && recent@[i].endpoint@.len() > 0 implies texts(result.1@).contains(
        recent@[i].endpoint@,
    ) by {
        law_recent_endpoints_are_candidates(
            endpoint@,
            recent@,
            views,
            readings@,
            default_port,
            i,
        );
    }
    assert forall|i: int|
        0 <= i < peers@.len() && ascii_lower((#[trigger] peers@[i]).fingerprint@) == result.0->0@
            && peers@[i].endpoint@.len() > 0 implies texts(result.1@).contains(
        peers@[i].endpoint@,
    ) by {
        law_discovered_addresses_are_candidates(
            endpoint@,
            recent@,
            peers@,
            readings@,
            default_port,
            i,
        );
    }
    assert forall|i: int, k: Seq<char>|
        0 <= i < peers@.len() && ascii_lower(peers@[i].fingerprint@) == result.0->0@
            && #[trigger] peers@[i].ip_mac@.contains_key(k) && readings@.addresses.contains_key(
            k,
        ) implies texts(result.1@).contains(
        endpoint_text(
            readings@.addresses[k],
            if readings@.endpoints.contains_key(peers@[i].endpoint@) {
                readings@.endpoints[peers@[i].endpoint@].port
            } else {
                default_port
            },
        ),
    ) by {
        law_discovered_addresses_are_candidates(
            endpoint@,
            recent@,
            peers@,
            readings@,
            default_port,
            i,
        );
    }
}

/// Nothing but what is known of the device is a candidate.
pub proof fn law_no_candidate_comes_from_elsewhere(
    endpoint: &str,
    recent: &[RecentLanEndpoint],
    peers: &[DiscoveryPeer],
    readings: &Readings,
    default_port: u16,
    result: (Option<String>, Vec<String>),
    candidate: Seq<char>,
)
    requires
        call_ensures(
            connection_candidates_from,
            (endpoint, recent, peers, readings, default_port),
            result,
        ),
        readings@.endpoints.contains_key(endpoint@),
        texts(result.1@).contains(candidate),
        candidate != readings@.endpoints[endpoint@].authority,
    ensures
        candidate.len() > 0,
        result.0 is Some,
        ({
            ||| exists|i: int|
                0 <= i < recent@.len() && ascii_lower((#[trigger] recent@[i]).fingerprint@)
                    == result.0->0@ && recent@[i].endpoint@ == candidate
            ||| exists|i: int|
                0 <= i < peers@.len() && ascii_lower((#[trigger] peers@[i]).fingerprint@)
                    == result.0->0@ && peers@[i].endpoint@ == candidate
            ||| exists|i: int, k: Seq<char>|
                #![trigger peers@[i], readings@.addresses[k]]
                0 <= i < peers@.len() && ascii_lower(peers@[i].fingerprint@) == result.0->0@
                    && peers@[i].ip_mac@.contains_key(k) && readings@.addresses.contains_key(k)
                    && candidate == endpoint_text(
                    readings@.addresses[k],
                    if readings@.endpoints.contains_key(peers@[i].endpoint@) {
                        readings@.endpoints[peers@[i].endpoint@].port
                    } else {
                        default_port
                    },
                )
        }),
{
    law_every_candidate_has_a_source(
        endpoint@,
        recent@,
        peers@,
        readings@,
        default_port,
        candidate,
    );
}

/// A value is added at the end of a list unless it is empty or in the list.
pub proof fn law_push_unique(values: &mut Vec<String>, value: String)
    requires
        call_ensures(push_unique, (values, value), ()),
    ensures
        value@.len() == 0 || texts(old(values)@).contains(value@) ==> texts(final(values)@)
            == texts(old(values)@),
        value@.len() > 0 && !texts(old(values)@).contains(value@) ==> texts(final(values)@)
            == texts(old(values)@) + seq![value@],
{
    law_push_unique_adds_the_value_only(texts(old(values)@), value@);
}

/// A peer that was found again takes the place of its first record and goes to the
/// front. It takes over every address on that record with the MAC address on record,
/// and the host of the endpoint on record if that is an IP address; it keeps its own
/// addresses and all that was told of it; and no other record changes.
pub proof fn law_receive_peer_again(
    peers: &mut Vec<DiscoveryPeer>,
    peer: DiscoveryPeer,
    same: &[bool],
    readings: &Readings,
    i: int,
)
    requires
        call_ensures(receive_peer, (peers, peer, same, readings), ()),
        0 <= i < old(peers)@.len(),
        i < same@.len(),
        same@[i],
        forall|j: int| 0 <= j < i ==> !(#[trigger] same@[j]),
    ensures
        ({
            let (after, first) = (final(peers)@, final(peers)@[0]@);
            let (own, before) = (peer@.ip_mac, old(peers)@[i]@.ip_mac);
            let left = old(peers)@[i]@.endpoint;
            &&& after.len() == old(peers)@.len()
            &&& peer_views(after).drop_first() == peer_views(old(peers)@).remove(i)
            &&& first == (DiscoveryPeerView { ip_mac: first.ip_mac, ..peer@ })
            &&& forall|k: Seq<char>| #[trigger]
                before.contains_key(k) ==> first.ip_mac.contains_key(k) && first.ip_mac[k]
                    == before[k]
            &&& forall|k: Seq<char>| #[trigger]
                own.contains_key(k) ==> first.ip_mac.contains_key(k) && (!before.contains_key(k)
                    ==> first.ip_mac[k] == own[k])
            &&& readings@.endpoints.contains_key(left) && readings@.addresses.contains_key(
                readings@.endpoints[left].host,
            ) ==> first.ip_mac.contains_key(readings@.endpoints[left].host)
            &&& forall|k: Seq<char>| #[trigger]
                first.ip_mac.contains_key(k) && !own.contains_key(k) && !before.contains_key(k)
                    ==> first.ip_mac[k].len() == 0 && readings@.endpoints.contains_key(left)
                    && readings@.addresses.contains_key(k) && readings@.endpoints[left].host == k
        }),
{
    let views = peer_views(old(peers)@);
    law_found_peer_takes_over_its_addresses(views, peer@, same@, readings@, i);
    assert(views[i] == old(peers)@[i]@);
    assert(peer_views(final(peers)@).len() == views.len());
    assert(peer_views(final(peers)@)[0] == final(peers)@[0]@);
}

/// A peer without a record goes to the front of the list as it was found.
pub proof fn law_receive_new_peer(
    peers: &mut Vec<DiscoveryPeer>,
    peer: DiscoveryPeer,
    same: &[bool],
    readings: &Readings,
)
    requires
        call_ensures(receive_peer, (peers, peer, same, readings), ()),
        forall|j: int| 0 <= j < old(peers)@.len() && j < same@.len() ==> !(#[trigger] same@[j]),
    ensures
        peer_views(final(peers)@) == seq![peer@] + peer_views(old(peers)@),
{
    law_new_peer_is_entered_as_found(peer_views(old(peers)@), peer@, same@, readings@);
}

/// Every peer goes offline, and nothing else about it changes.
pub proof fn law_mark_offline(peers: &mut Vec<DiscoveryPeer>)
    requires
        call_ensures(mark_offline, (peers,), ()),
    ensures
        final(peers)@.len() == old(peers)@.len(),
        forall|i: int|
            0 <= i < old(peers)@.len() ==> (#[trigger] final(peers)@[i])@ == (DiscoveryPeerView {
                online: false,
                ..old(peers)@[i]@
            }),
{
    let (before, after) = (peer_views(old(peers)@), peer_views(final(peers)@));
    assert(after.len() == before.len());
    assert forall|i: int| 0 <= i < old(peers)@.len() implies (#[trigger] final(peers)@[i])@ == (
    DiscoveryPeerView { online: false, ..old(peers)@[i]@ }) by {
        assert(after[i] == final(peers)@[i]@);
        assert(before[i] == old(peers)@[i]@);
    }
}

/// The list is stored at once the first time, and then when more than 300 milliseconds
/// have passed since it was stored.
pub proof fn law_store_is_due(since_store_ms: Option<u128>, due: bool)
    requires
        call_ensures(store_is_due, (since_store_ms,), due),
    ensures
        since_store_ms is None ==> due,
        since_store_ms matches Some(ms) ==> due == (ms > 300),
{
}

/// A device is woken, whatever its record says besides, by a packet for each readable
/// MAC address on its first record from each IPv4 address of each interface, and by no
/// other packet. Where no record has the id there is none.
pub proof fn law_wake_targets(
    id: &str,
    peers: &[DiscoveryPeer],
    interfaces: &[Interface],
    targets: Vec<WakeTarget>,
)
    requires
        call_ensures(wake_targets, (id, peers, interfaces), targets),
    ensures
        (forall|j: int| 0 <= j < peers@.len() ==> (#[trigger] peers@[j]).id@ != id@)
            ==> targets@.len() == 0,
        forall|i: int|
            0 <= i < peers@.len() && (#[trigger] peers@[i]).id@ == id@ && (forall|j: int|
                0 <= j < i ==> (#[trigger] peers@[j]).id@ != id@) ==> targets@ == targets_of(
                peers@[i].ip_mac.pairs(),
                ipv4_addresses(interfaces@),
            ),
        forall|i: int, target: WakeTarget|
            #![trigger peers@[i], targets@.contains(target)]
            0 <= i < peers@.len() && peers@[i].id@ == id@ && (forall|j: int|
                0 <= j < i ==> (#[trigger] peers@[j]).id@ != id@) ==> (targets@.contains(target)
                <==> {
                &&& exists|n: int|
                    0 <= n < peers@[i].ip_mac.pairs().len() && parsed_mac(
                        (#[trigger] peers@[i].ip_mac.pairs()[n]).1,
                    ) == Some(target.mac)
                &&& exists|n: int|
                    0 <= n < interfaces@.len() && (#[trigger] interfaces@[n]).ipv4@.contains(
                        target.source,
                    )
            }),
{
    law_first_record_with_the_id_is_woken(peers@, id@);
    assert forall|i: int, target: WakeTarget|
        #![trigger peers@[i], targets@.contains(target)]
        0 <= i < peers@.len() && peers@[i].id@ == id@ && (forall|j: int|
            0 <= j < i ==> (#[trigger] peers@[j]).id@ != id@) implies (targets@.contains(target)
        <==> {
        &&& exists|n: int|
            0 <= n < peers@[i].ip_mac.pairs().len() && parsed_mac(
                (#[trigger] peers@[i].ip_mac.pairs()[n]).1,
            ) == Some(target.mac)
        &&& exists|n: int|
            0 <= n < interfaces@.len() && (#[trigger] interfaces@[n]).ipv4@.contains(target.source)
    }) by {
        law_device_is_woken_from_every_address(peers@, id@, interfaces@, i, target);
    }
}

/// A MAC address gets one packet from each source, behind the packets that there are;
/// without a MAC address there is none.
pub proof fn law_push_targets(
    targets: &mut Vec<WakeTarget>,
    mac: Option<[u8; 6]>,
    sources: &[u32],
)
    requires
        call_ensures(push_targets, (targets, mac, sources), ()),
    ensures
        mac is None ==> final(targets)@ == old(targets)@,
        mac is Some ==> final(targets)@.len() == old(targets)@.len() + sources@.len(),
        old(targets)@.is_prefix_of(final(targets)@),
        mac matches Some(octets) ==> forall|j: int|
            0 <= j < sources@.len() ==> (#[trigger] final(targets)@[old(targets)@.len() + j]) == (
            WakeTarget { mac: octets, source: sources@[j] }),
{
    let (before, after) = (old(targets)@, final(targets)@);
    assert(before =~= after.subrange(0, before.len() as int));
}

/// A query is let through exactly if discovery is not switched off, credentials are
/// set up, the service runs, and the sender is allowed; and other messages never are.
pub proof fn law_ping_admitted(message: &PeerDiscovery, gate: &DiscoveryGate, admitted: bool)
    requires
        call_ensures(ping_admitted, (message, gate), admitted),
    ensures
        admitted <==> message.cmd@ == "ping"@ && gate.discovery_option@ != "N"@
            && gate.credentials_configured && !gate.service_stopped && gate.source_allowed,
{
}

/// A message is answered exactly if it is let through and of another device.
pub proof fn law_answers_message(
    message: &PeerDiscovery,
    gate: &DiscoveryGate,
    fingerprint: &str,
    answered: bool,
)
    requires
        call_ensures(answers_message, (message, gate, fingerprint), answered),
    ensures
        answered <==> message.cmd@ == "ping"@ && gate.discovery_option@ != "N"@
            && gate.credentials_configured && !gate.service_stopped && gate.source_allowed
            && message.id@ != fingerprint@,
{
}

/// With a socket to send it from, the query tells the fingerprint of who asks and
/// nothing else; without one there is none.
pub proof fn law_discovery_query(
    sockets: usize,
    fingerprint: &str,
    query: Result<PeerDiscovery, DiscoveryError>,
)
    requires
        call_ensures(discovery_query, (sockets, fingerprint), query),
    ensures
        sockets > 0 ==> query is Ok,
        query matches Ok(m) ==> m.cmd@ == "ping"@ && m.id@ == fingerprint@ && m.mac@.len() == 0
            && m.username@.len() == 0 && m.hostname@.len() == 0 && m.platform@.len() == 0
            && m.misc@.len() == 0,
        sockets == 0 ==> (query matches Err(error) && error is NoBindableAddress),
{
}

/// A reply tells the fingerprint, the name and the platform of the device, the MAC
/// address that goes with its address towards the sender, and the port that its option
/// names, or its default port if that names none.
pub proof fn law_pong_reply(
    local: &IpAddress,
    interfaces: &[Interface],
    fingerprint: &str,
    profile: &DeviceProfile,
    reply: PeerDiscovery,
)
    requires
        call_ensures(pong_reply, (local, interfaces, fingerprint, profile), reply),
    ensures
        reply.cmd@ == "pong"@,
        reply.id@ == fingerprint@,
        reply.mac@ == mac_text_of(interfaces@, local.value),
        reply.username@.len() == 0,
        reply.platform@ == profile.platform@,
        sanitized(profile.custom_name@).len() > 0 ==> reply.hostname@ == sanitized(
            profile.custom_name@,
        ),
        sanitized(profile.custom_name@).len() == 0 && sanitized(profile.system_hostname@).len() > 0
            ==> reply.hostname@ == sanitized(profile.system_hostname@),
        sanitized(profile.custom_name@).len() == 0 && sanitized(profile.system_hostname@).len()
            == 0 ==> reply.hostname@ == "SubnetDesk"@,
        ({
            let named = u16_value(profile.listen_port_option@);
            let port = if named matches Some(n) && n > 0 {
                named->0
            } else {
                profile.default_port
            };
            &&& reply.misc@ == "{\"fingerprint\":\""@ + escaped(fingerprint@) + "\",\"port\":"@
                + decimal(port as nat) + ",\"protocol_version\":"@ + decimal(
                profile.protocol_version as nat,
            ) + "}"@
            &&& json_reading(reply.misc@) matches Some(integers) && integers["port"@] == port
                && integers["protocol_version"@] == profile.protocol_version
        }),
{
    law_reply_tells_all(local.value, interfaces@, fingerprint@, *profile);
    law_chosen_name_goes_first(*profile);
    law_service_is_at_the_named_port(*profile);
    law_announcement_has_three_members(profile.protocol_version, profile.port(), fingerprint@);
}

/// A device sends a reply exactly if the message is answered and it has an address
/// towards the sender, and then the reply that it gives from that address.
pub proof fn law_listener_reply(
    message: &PeerDiscovery,
    gate: &DiscoveryGate,
    fingerprint: &str,
    local: Option<&IpAddress>,
    interfaces: &[Interface],
    profile: &DeviceProfile,
    reply: Option<PeerDiscovery>,
    given: PeerDiscovery,
)
    requires
        call_ensures(
            listener_reply,
            (message, gate, fingerprint, local, interfaces, profile),
            reply,
        ),
        local is Some ==> call_ensures(
            pong_reply,
            (local->0, interfaces, fingerprint, profile),
            given,
        ),
    ensures
        reply is Some <==> message.cmd@ == "ping"@ && gate.discovery_option@ != "N"@
            && gate.credentials_configured && !gate.service_stopped && gate.source_allowed
            && message.id@ != fingerprint@ && local is Some,
        reply matches Some(r) ==> r@ == given@,
{
}

/// Discovery fails exactly if neither way of finding peers could be started.
pub proof fn law_check_transports(
    udp_started: bool,
    mdns_started: bool,
    result: Result<(), DiscoveryError>,
)
    requires
        call_ensures(check_transports, (udp_started, mdns_started), result),
    ensures
        result is Ok <==> udp_started || mdns_started,
        result matches Err(error) ==> error is NoTransport,
{
}

/// Queries go to one fixed port, and to the address that reaches all devices.
pub proof fn law_get_broadcast_port(port: u16)
    requires
        call_ensures(get_broadcast_port, (), port),
    ensures
        port == 21_119,
        LAN_BROADCAST_ADDRESS == u32::MAX,
{
}

/// What a datagram is: a reply exactly if it holds a discovery message with the
/// command `pong` and a proper fingerprint.
pub proof fn law_classify_response(message: Option<&PeerDiscovery>, kind: ResponseKind)
    requires
        call_ensures(classify_response, (message,), kind),
    ensures
        kind == ResponseKind::Unrelated <==> message is None,
        kind == ResponseKind::NoReply <==> (message matches Some(m) && m.cmd@ != "pong"@),
        kind == ResponseKind::BadFingerprint <==> (message matches Some(m) && m.cmd@ == "pong"@
            && !is_fingerprint(m.id@)),
        kind == ResponseKind::Reply <==> (message matches Some(m) && m.cmd@ == "pong"@
            && is_fingerprint(m.id@)),
{
}

/// Every datagram that holds a discovery message breaks the silence, and no other.
pub proof fn law_is_heard(message: Option<&PeerDiscovery>, kind: ResponseKind, heard: bool)
    requires
        call_ensures(classify_response, (message,), kind),
        call_ensures(ResponseKind::is_heard, (&kind,), heard),
    ensures
        heard <==> message is Some,
{
}

/// Waiting ends after a silence of more than three seconds, whatever came in last but
/// a reply with a bad fingerprint.
pub proof fn law_waiting_is_over(kind: ResponseKind, silence_ms: u128, over: bool)
    requires
        call_ensures(waiting_is_over, (kind, silence_ms), over),
    ensures
        over <==> silence_ms > 3_000 && kind != ResponseKind::BadFingerprint,
{
}

/// A peer is entered as its reply tells of it, at the port and the address that the
/// reply came from, and as reachable.
pub proof fn law_peer_at(
    reply: &PeerDiscovery,
    source: &IpAddress,
    port: u16,
    peer: DiscoveryPeer,
)
    requires
        call_ensures(peer_at, (reply, source, port), peer),
    ensures
        peer.endpoint@ == endpoint_text(source@, port),
        peer.id@ == endpoint_text(source@, port),
        peer.fingerprint@ == reply.id@,
        peer.ip_mac@.dom() == set![source.text@],
        peer.ip_mac@[source.text@] == reply.mac@,
        peer.username@ == reply.username@,
        peer.hostname@ == reply.hostname@,
        peer.platform@ == reply.platform@,
        peer.online,
{
    law_peer_is_entered_as_told(reply@, source@, port);
    assert(peer@.ip_mac == peer.ip_mac@);
}

/// A socket counts as bound to its local address if that is known and not the
/// unspecified one, and no MAC address has been looked up for it at first.
pub proof fn law_new_waiter(
    local: Option<IpAddress>,
    waiter: ResponseWaiter,
    route_needed: bool,
    interfaces_needed: bool,
)
    requires
        call_ensures(ResponseWaiter::new, (local,), waiter),
        call_ensures(ResponseWaiter::needs_route, (&waiter,), route_needed),
        call_ensures(ResponseWaiter::needs_interfaces, (&waiter,), interfaces_needed),
    ensures
        local matches Some(address) && address.value != IpValue::V4(0) && address.value
            != IpValue::V6(0) ==> waiter.bound_to() == Some(local->0.value) && !route_needed,
        local is None || local->0.value == IpValue::V4(0) || local->0.value == IpValue::V6(0)
            ==> waiter.bound_to() is None && route_needed,
        waiter.known_mac() is None,
        interfaces_needed,
{
}

/// The interfaces are looked at for each reply, until the MAC address of a bound
/// socket is known.
pub proof fn law_needs_interfaces(waiter: &ResponseWaiter, needed: bool)
    requires
        call_ensures(ResponseWaiter::needs_interfaces, (waiter,), needed),
    ensures
        !needed <==> waiter.bound_to() is Some && waiter.known_mac() is Some,
{
}

/// The MAC address of this device towards a sender: at a bound socket the one that
/// goes with the bound address, which is looked up once; at another socket the one
/// that goes with the address of the route, and none without a route.
pub proof fn law_local_mac(
    waiter: &mut ResponseWaiter,
    route: Option<&IpAddress>,
    interfaces: &[Interface],
    mac: String,
)
    requires
        call_ensures(ResponseWaiter::local_mac, (waiter, route, interfaces), mac),
    ensures
        old(waiter).bound_to() matches Some(ip) ==> {
            &&& old(waiter).known_mac() is None ==> mac@ == mac_text_of(interfaces@, ip)
            &&& old(waiter).known_mac() matches Some(known) ==> mac@ == known
            &&& final(waiter).known_mac() == Some(mac@)
        },
        old(waiter).bound_to() is None ==> {
            &&& route matches Some(address) ==> mac@ == mac_text_of(interfaces@, address.value)
            &&& route is None ==> mac@.len() == 0
            &&& final(waiter).known_mac() == old(waiter).known_mac()
        },
        final(waiter).bound_to() == old(waiter).bound_to(),
{
    law_local_mac_goes_with_the_socket(
        *old(waiter),
        match route {
            Some(address) => Some(address.value),
            None => None,
        },
        interfaces@,
    );
}

/// A message tells of a peer exactly if it is a reply, and its MAC address is not that
/// of this device or neither is known. The peer is then entered at the port that the
/// reply announces.
pub proof fn law_receive(
    waiter: &mut ResponseWaiter,
    message: &PeerDiscovery,
    source: &IpAddress,
    route: Option<&IpAddress>,
    interfaces: &[Interface],
    default_port: u16,
    peer: Option<DiscoveryPeer>,
    text: &str,
    port: u16,
    entered: DiscoveryPeer,
)
    requires
        call_ensures(
            ResponseWaiter::receive,
            (waiter, message, source, route, interfaces, default_port),
            peer,
        ),
        text@ == message.misc@,
        call_ensures(read_announced_port, (text, default_port), port),
        call_ensures(peer_at, (message, source, port), entered),
    ensures
        ({
            let mac = match old(waiter).bound_to() {
                Some(ip) => match old(waiter).known_mac() {
                    Some(known) => known,
                    None => mac_text_of(interfaces@, ip),
                },
                None => match route {
                    Some(address) => mac_text_of(interfaces@, address.value),
                    None => seq![],
                },
            };
            let is_reply = message.cmd@ == "pong"@ && is_fingerprint(message.id@);
            &&& is_reply && mac != message.mac@ ==> peer is Some
            &&& is_reply && mac.len() == 0 && message.mac@.len() == 0 ==> peer is Some
            &&& is_reply && mac == message.mac@ && mac.len() > 0 ==> peer is None
            &&& !is_reply ==> peer is None && *final(waiter) == *old(waiter)
            &&& is_reply && old(waiter).bound_to() is Some ==> final(waiter).known_mac() == Some(
                mac,
            )
            &&& final(waiter).bound_to() == old(waiter).bound_to()
            &&& old(waiter).bound_to() is None ==> final(waiter).known_mac() == old(
                waiter,
            ).known_mac()
        }),
        peer matches Some(p) ==> p@ == entered@,
{
    let towards = match route {
        Some(address) => Some(address.value),
        None => None,
    };
    let mac = old(waiter).mac_towards(towards, interfaces@);
    law_local_mac_goes_with_the_socket(*old(waiter), towards, interfaces@);
    law_different_macs_are_different_devices(mac, message.mac@);
}

/// Two devices find each other: where the MAC addresses of the two differ, the reply of
/// one is entered by the other, with its fingerprint and with the endpoint of its
/// service at the port that its option names.
pub proof fn law_devices_find_each_other(
    query: &PeerDiscovery,
    gate: &DiscoveryGate,
    fingerprint: &str,
    local: &IpAddress,
    theirs: &[Interface],
    profile: &DeviceProfile,
    reply: Option<PeerDiscovery>,
    waiter: &mut ResponseWaiter,
    source: &IpAddress,
    route: Option<&IpAddress>,
    interfaces: &[Interface],
    default_port: u16,
    peer: Option<DiscoveryPeer>,
    port: u16,
)
    requires
        call_ensures(
            listener_reply,
            (query, gate, fingerprint, Some(local), theirs, profile),
            reply,
        ),
        query.cmd@ == "ping"@,
        query.id@ != fingerprint@,
        gate.discovery_option@ != "N"@,
        gate.credentials_configured,
        !gate.service_stopped,
        gate.source_allowed,
        is_fingerprint(fingerprint@),
        u16_value(profile.listen_port_option@) == Some(port),
        port > 0,
        call_ensures(
            ResponseWaiter::receive,
            (waiter, &reply->0, source, route, interfaces, default_port),
            peer,
        ),
        match old(waiter).bound_to() {
            Some(ip) => match old(waiter).known_mac() {
                Some(known) => known,
                None => mac_text_of(interfaces@, ip),
            },
            None => match route {
                Some(address) => mac_text_of(interfaces@, address.value),
                None => seq![],
            },
        } != mac_text_of(theirs@, local.value),
    ensures
        reply is Some,
        peer is Some,
        peer->0.fingerprint@ == fingerprint@,
        peer->0.endpoint@ == endpoint_text(source@, port),
        peer->0.ip_mac@.dom() == set![source.text@],
        peer->0.ip_mac@[source.text@] == mac_text_of(theirs@, local.value),
        peer->0.online,
{
    let towards = match route {
        Some(address) => Some(address.value),
        None => None,
    };
    let mac = old(waiter).mac_towards(towards, interfaces@);
    let answer = reply->0;
    law_local_mac_goes_with_the_socket(*old(waiter), towards, interfaces@);
    law_different_macs_are_different_devices(mac, answer.mac@);
    law_reply_tells_all(local.value, theirs@, fingerprint@, *profile);
    law_service_is_at_the_named_port(*profile);
    law_announced_port_is_read_back(
        answer.misc@,
        profile.protocol_version,
        profile.port(),
        default_port,
    );
    law_peer_is_entered_as_told(answer@, source@, port);
    assert(announced_integers(profile.protocol_version, port)["port"@] == port) by {
        law_announcement_has_three_members(profile.protocol_version, port, fingerprint@);
    }
    assert(peer->0@.ip_mac == peer->0.ip_mac@);
}

/// The MAC address for an IP address is that of the first interface that has both; it
/// is an error if there is none.
pub proof fn law_get_mac(
    ip: &IpAddress,
    interfaces: &[Interface],
    mac: String,
    result: Result<String, DiscoveryError>,
    i: int,
)
    requires
        call_ensures(get_mac, (ip, interfaces), mac),
        call_ensures(get_mac_by_ip, (ip, interfaces), result),
        0 <= i <= interfaces@.len(),
        forall|j: int|
            0 <= j < i ==> !has_address(#[trigger] interfaces@[j], ip.value)
                || interfaces@[j].mac is None,
        i < interfaces@.len() ==> has_address(interfaces@[i], ip.value) && interfaces@[i].mac
            is Some,
    ensures
        i < interfaces@.len() ==> mac@ == mac_text(interfaces@[i].mac->0) && (result matches Ok(m)
            && m@ == mac@),
        i == interfaces@.len() ==> mac@.len() == 0 && (result matches Err(
            DiscoveryError::NoInterface(text),
        ) && text@ == ip.text@),
{
    if i < interfaces@.len() {
        law_first_interface_gives_the_mac(interfaces@, ip.value, i);
    } else {
        law_no_interface_gives_no_mac(interfaces@, ip.value);
    }
}

/// Queries go out from each IPv4 address of the interfaces, in their order, and from
/// the unspecified address at the end.
pub proof fn law_broadcast_addresses(
    interfaces: &[Interface],
    listed: Vec<u32>,
    addresses: Vec<u32>,
)
    requires
        call_ensures(list_ipv4, (interfaces,), listed),
        call_ensures(broadcast_addresses, (interfaces,), addresses),
    ensures
        listed@ == ipv4_addresses(interfaces@),
        addresses@ == listed@ + seq![0u32],
{
    assert(addresses@ =~= listed@ + seq![0u32]);
}

/// An endpoint text is the address, in square brackets if it is an IPv6 one, a colon
/// and the port in decimal notation.
pub proof fn law_endpoint_at(address: &IpAddress, port: u16, endpoint: String)
    requires
        call_ensures(endpoint_at, (address, port), endpoint),
    ensures
        address.value is V4 ==> endpoint@ == address.text@ + ":"@ + decimal(port as nat),
        address.value is V6 ==> endpoint@ == "["@ + address.text@ + "]:"@ + decimal(port as nat),
{
    reveal_strlit(":");
    reveal_strlit("[");
    reveal_strlit("]:");
    assert(":"@ =~= seq![':']);
    assert("["@ =~= seq!['[']);
    assert("]:"@ =~= seq![']', ':']);
}

/// Numbers and fingerprints are read from texts as these are written.
pub proof fn law_texts_are_read(
    text: &str,
    number: Option<u16>,
    form: bool,
)
    requires
        call_ensures(parse_u16, (text,), number),
        call_ensures(has_fingerprint_form, (text,), form),
    ensures
        number == u16_value(text@),
        form == is_fingerprint(text@),
{
}

/// The words for each error.
pub proof fn law_error_words(error: &DiscoveryError, words: String)
    requires
        call_ensures(DiscoveryError::message, (error,), words),
    ensures
        match *error {
            DiscoveryError::NoTransport => words@ == "No LAN discovery transport is available"@,
            DiscoveryError::NoBindableAddress => words@ == "Found no bindable ipv4 addresses"@,
            DiscoveryError::NoInterface(ip) => words@ == "No interface found for ip: "@ + ip@,
        },
{
}

} // verus!
