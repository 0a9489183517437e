//! Where a device may be reached.

use vstd::prelude::*;

use crate::endpoint::endpoint_at;
use crate::endpoint::endpoint_text;
use crate::endpoint::EndpointView;
use crate::endpoint::IpAddressView;
use crate::endpoint::Readings;
use crate::endpoint::ReadingsView;
use crate::order::in_order;
use crate::peer::has_fingerprint_form;
use crate::peer::is_fingerprint;
use crate::peer::peer_views;
use crate::peer::DiscoveryPeer;
use crate::peer::DiscoveryPeerView;
use crate::peer::RecentLanEndpoint;
use crate::text::ascii_lower;
use crate::text::ascii_lowercase;
use crate::text::same_text;
use crate::text::same_text_ignoring_case;
use crate::text::texts;

verus! {

/// `list` with `value` at its end, unless the value is empty or in the list.
pub open spec fn with_unique(list: Seq<Seq<char>>, value: Seq<char>) -> Seq<Seq<char>> {
    if value.len() == 0 || list.contains(value) {
        list
    } else {
        list.push(value)
    }
}

/// The texts of `list` that are not empty, each at its first place only.
pub open spec fn distinct(list: Seq<Seq<char>>) -> Seq<Seq<char>>
    decreases list.len(),
{
    if list.len() == 0 {
        seq![]
    } else {
        with_unique(distinct(list.drop_last()), list.last())
    }
}

/// The fingerprint of the first recent endpoint that is `authority`.
pub open spec fn recent_fingerprint(
    recent: Seq<RecentLanEndpoint>,
    authority: Seq<char>,
) -> Option<Seq<char>>
    decreases recent.len(),
{
    if recent.len() == 0 {
        None
    } else if recent[0].endpoint@ == authority {
        Some(recent[0].fingerprint@)
    } else {
        recent_fingerprint(recent.drop_first(), authority)
    }
}

/// Whether `peer` was found at `authority`: its endpoint is that, or the host of
/// the authority is among its addresses.
pub open spec fn found_at(
    peer: DiscoveryPeerView,
    authority: Seq<char>,
    readings: ReadingsView,
) -> bool {
    ||| peer.endpoint == authority
    ||| readings.endpoints.contains_key(authority) && peer.ip_mac.contains_key(
        readings.endpoints[authority].host,
    )
}

/// The fingerprint of the first peer that was found at `authority`.
pub open spec fn peer_fingerprint(
    peers: Seq<DiscoveryPeerView>,
    authority: Seq<char>,
    readings: ReadingsView,
) -> Option<Seq<char>>
    decreases peers.len(),
{
    if peers.len() == 0 {
        None
    } else if found_at(peers[0], authority, readings) {
        Some(peers[0].fingerprint)
    } else {
        peer_fingerprint(peers.drop_first(), authority, readings)
    }
}

/// The fingerprint of the device at `authority`, in lower case: that of the recent
/// endpoint, or else that of the discovered peer. One that does not have the form
/// of a fingerprint is none.
pub open spec fn known_fingerprint(
    recent: Seq<RecentLanEndpoint>,
    peers: Seq<DiscoveryPeerView>,
    authority: Seq<char>,
    readings: ReadingsView,
) -> Option<Seq<char>> {
    let found = match recent_fingerprint(recent, authority) {
        Some(f) => Some(f),
        None => peer_fingerprint(peers, authority, readings),
    };
    match found {
        Some(f) if is_fingerprint(ascii_lower(f)) => Some(ascii_lower(f)),
        _ => None,
    }
}

/// The recent endpoints of the device with the fingerprint, in their order.
pub open spec fn recent_offers(
    recent: Seq<RecentLanEndpoint>,
    fingerprint: Seq<char>,
) -> Seq<Seq<char>>
    decreases recent.len(),
{
    if recent.len() == 0 {
        seq![]
    } else {
        let rest = recent_offers(recent.drop_last(), fingerprint);
        if ascii_lower(recent.last().fingerprint@) == ascii_lower(fingerprint) {
            rest.push(recent.last().endpoint@)
        } else {
            rest
        }
    }
}

/// The endpoints with `port` at those of the texts that read as IP addresses.
pub open spec fn address_offers(
    addresses: Seq<Seq<char>>,
    port: u16,
    readings: Map<Seq<char>, IpAddressView>,
) -> Seq<Seq<char>>
    decreases addresses.len(),
{
    if addresses.len() == 0 {
        seq![]
    } else {
        let rest = address_offers(addresses.drop_last(), port, readings);
        if readings.contains_key(addresses.last()) {
            rest.push(endpoint_text(readings[addresses.last()], port))
        } else {
            rest
        }
    }
}

/// The port of an endpoint, or `default_port` if the text does not read as one.
pub open spec fn port_of(
    endpoint: Seq<char>,
    readings: Map<Seq<char>, EndpointView>,
    default_port: u16,
) -> u16 {
    if readings.contains_key(endpoint) {
        readings[endpoint].port
    } else {
        default_port
    }
}

/// What one peer offers: its endpoint, and then the same port at each of its
/// addresses, in the order of their texts.
pub open spec fn offers_of(
    peer: DiscoveryPeerView,
    readings: ReadingsView,
    default_port: u16,
) -> Seq<Seq<char>> {
    seq![peer.endpoint] + address_offers(
        in_order(peer.ip_mac.dom()),
        port_of(peer.endpoint, readings.endpoints, default_port),
        readings.addresses,
    )
}

/// What the peers with the fingerprint offer, in their order.
pub open spec fn peer_offers(
    peers: Seq<DiscoveryPeerView>,
    fingerprint: Seq<char>,
    readings: ReadingsView,
    default_port: u16,
) -> Seq<Seq<char>>
    decreases peers.len(),
{
    if peers.len() == 0 {
        seq![]
    } else {
        let rest = peer_offers(peers.drop_last(), fingerprint, readings, default_port);
        if ascii_lower(peers.last().fingerprint) == ascii_lower(fingerprint) {
            rest + offers_of(peers.last(), readings, default_port)
        } else {
            rest
        }
    }
}

/// All that is offered for a request: the requested endpoint, and if the device is
/// known, its recent endpoints and what its peers' records offer.
pub open spec fn offers(
    authority: Seq<char>,
    fingerprint: Option<Seq<char>>,
    recent: Seq<RecentLanEndpoint>,
    peers: Seq<DiscoveryPeerView>,
    readings: ReadingsView,
    default_port: u16,
) -> Seq<Seq<char>> {
    match fingerprint {
        Some(f) => seq![authority] + recent_offers(recent, f) + peer_offers(
            peers,
            f,
            readings,
            default_port,
        ),
        None => seq![authority],
    }
}

/// The fingerprint and the candidates for a request.
pub open spec fn candidates(
    endpoint: Seq<char>,
    recent: Seq<RecentLanEndpoint>,
    peers: Seq<DiscoveryPeerView>,
    readings: ReadingsView,
    default_port: u16,
) -> (Option<Seq<char>>, Seq<Seq<char>>) {
    if readings.endpoints.contains_key(endpoint) {
        let authority = readings.endpoints[endpoint].authority;
        let fingerprint = known_fingerprint(recent, peers, authority, readings);
        (
            fingerprint,
            distinct(offers(authority, fingerprint, recent, peers, readings, default_port)),
        )
    } else {
        (None, seq![endpoint])
    }
}

/// Adds `value` to `values`, unless it is empty or in there.
pub fn push_unique(values: &mut Vec<String>, value: String)
    ensures
        texts(final(values)@) == with_unique(texts(old(values)@), value@),
{
    let ghost before = texts(values@);
    if value.as_str().is_empty() {
        return;
    }
    for i in 0..values.len()
        invariant
            before == texts(values@),
            values@ == old(values)@,
            value@.len() > 0,
            forall|j: int| 0 <= j < i ==> before[j] != value@,
    {
        assert(before[i as int] == values@[i as int]@);
        if same_text(values[i].as_str(), value.as_str()) {
            assert(before.contains(value@));
            return;
        }
    }
    let ghost v = value@;
    values.push(value);
    assert(texts(values@) =~= before.push(v));
}

proof fn lemma_distinct_push(list: Seq<Seq<char>>, value: Seq<char>)
    ensures
        distinct(list.push(value)) == with_unique(distinct(list), value),
{
    assert(list.push(value).drop_last() =~= list);
}

/// The lower-case fingerprint that `recent` has for `authority`.
fn find_recent(recent: &[RecentLanEndpoint], authority: &str) -> (found: Option<String>)
    ensures
        match found {
            Some(f) => recent_fingerprint(recent@, authority@) matches Some(r) && f@
                == ascii_lower(r),
            None => recent_fingerprint(recent@, authority@) is None,
        },
{
    assert(recent@.skip(0) =~= recent@);
    for i in 0..recent.len()
        invariant
            recent_fingerprint(recent@, authority@) == recent_fingerprint(
                recent@.skip(i as int),
                authority@,
            ),
    {
        assert(recent@.skip(i as int).drop_first() =~= recent@.skip(i + 1));
        assert(recent@.skip(i as int)[0] == recent@[i as int]);
        if same_text(recent[i].endpoint.as_str(), authority) {
            return Some(ascii_lowercase(recent[i].fingerprint.as_str()));
        }
    }
    None
}

/// The lower-case fingerprint of the first peer that was found at `authority`.
fn find_peer(peers: &[DiscoveryPeer], authority: &str, readings: &Readings) -> (found: Option<
    String,
>)
    ensures
        match found {
            Some(f) => peer_fingerprint(peer_views(peers@), authority@, readings@) matches Some(
                r,
            ) && f@ == ascii_lower(r),
            None => peer_fingerprint(peer_views(peers@), authority@, readings@) is None,
        },
{
    let ghost views = peer_views(peers@);
    assert(views.skip(0) =~= views);
    for i in 0..peers.len()
        invariant
            views == peer_views(peers@),
            peer_fingerprint(views, authority@, readings@) == peer_fingerprint(
                views.skip(i as int),
                authority@,
                readings@,
            ),
    {
        assert(views.skip(i as int).drop_first() =~= views.skip(i + 1));
        assert(views.skip(i as int)[0] == peers@[i as int]@);
        let at_host: bool = match readings.endpoints.get(authority) {
            Some(parts) => peers[i].ip_mac.contains_key(parts.host.as_str()),
            None => false,
        };
        if same_text(peers[i].endpoint.as_str(), authority) || at_host {
            return Some(ascii_lowercase(peers[i].fingerprint.as_str()));
        }
    }
    None
}

/// Adds what one peer offers to the candidates.
fn push_offers_of(
    list: &mut Vec<String>,
    peer: &DiscoveryPeer,
    readings: &Readings,
    default_port: u16,
    Ghost(offered): Ghost<Seq<Seq<char>>>,
)
    requires
        texts(old(list)@) == distinct(offered),
    ensures
        texts(final(list)@) == distinct(offered + offers_of(peer@, readings@, default_port)),
{
    push_unique(list, peer.endpoint.clone());
    let ghost first = offered.push(peer@.endpoint);
    proof {
        lemma_distinct_push(offered, peer@.endpoint);
    }
    let port: u16 = match readings.endpoints.get(peer.endpoint.as_str()) {
        Some(parts) => parts.port,
        None => default_port,
    };
    let addresses: Vec<String> = peer.ip_mac.sorted_keys();
    let ghost keys = texts(addresses@);
    assert(first + address_offers(keys.take(0), port, readings@.addresses) =~= first);
    for i in 0..addresses.len()
        invariant
            keys == texts(addresses@),
            texts(list@) == distinct(
                first + address_offers(keys.take(i as int), port, readings@.addresses),
            ),
    {
        let ghost here = address_offers(keys.take(i as int), port, readings@.addresses);
        proof {
            assert(keys.take(i + 1).drop_last() =~= keys.take(i as int));
            assert(keys.take(i + 1).last() == addresses@[i as int]@);
        }
        match readings.addresses.get(addresses[i].as_str()) {
            Some(address) => {
                let endpoint: String = endpoint_at(address, port);
                proof {
                    lemma_distinct_push(first + here, endpoint@);
                    assert((first + here).push(endpoint@) =~= first + here.push(endpoint@));
                }
                push_unique(list, endpoint);
            },
            None => {},
        }
    }
    proof {
        assert(keys.take(keys.len() as int) =~= keys);
        assert(first + address_offers(keys, port, readings@.addresses) =~= offered + offers_of(
            peer@,
            readings@,
            default_port,
        ));
    }
}

/// Where to look for the device at `endpoint`, best first, and the fingerprint of
/// that device, if it is known.
///
/// An endpoint text that does not read as one is the only candidate. Otherwise the
/// requested endpoint comes first; if a recent endpoint or a discovered peer tells
/// which device is there, all that is known of that device follows.
pub fn connection_candidates_from(
    endpoint: &str,
    recent: &[RecentLanEndpoint],
    peers: &[DiscoveryPeer],
    readings: &Readings,
    default_port: u16,
) -> (result: (Option<String>, Vec<String>))
    ensures
        (match result.0 {
            Some(f) => Some(f@),
            None => None,
        }, texts(result.1@)) == candidates(
            endpoint@,
            recent@,
            peer_views(peers@),
            readings@,
            default_port,
        ),
{
    let mut list: Vec<String> = Vec::new();
    let requested: String = match readings.endpoints.get(endpoint) {
        Some(parts) => parts.authority.clone(),
        None => {
            list.push(endpoint.to_owned());
            assert(texts(list@) =~= seq![endpoint@]);
            return (None, list);
        },
    };
    let ghost authority = requested@;
    let ghost views = peer_views(peers@);
    let found: Option<String> = match find_recent(recent, requested.as_str()) {
        Some(f) => Some(f),
        None => find_peer(peers, requested.as_str(), readings),
    };
    let fingerprint: Option<String> = match found {
        Some(f) => if has_fingerprint_form(f.as_str()) {
            Some(f)
        } else {
            None
        },
        None => None,
    };
    let ghost mut offered: Seq<Seq<char>> = seq![];
    assert(texts(list@) =~= distinct(offered));
    push_unique(&mut list, requested);
    proof {
        lemma_distinct_push(offered, authority);
        offered = offered.push(authority);
        assert(offered =~= seq![authority]);
    }
    if let Some(f) = &fingerprint {
        assert(offered + recent_offers(recent@.take(0), f@) =~= offered);
        for i in 0..recent.len()
            invariant
                texts(list@) == distinct(offered + recent_offers(recent@.take(i as int), f@)),
        {
            let ghost here = recent_offers(recent@.take(i as int), f@);
            proof {
                assert(recent@.take(i + 1).drop_last() =~= recent@.take(i as int));
                lemma_distinct_push(offered + here, recent@[i as int].endpoint@);
                assert((offered + here).push(recent@[i as int].endpoint@) =~= offered + here.push(
                    recent@[i as int].endpoint@,
                ));
            }
            if same_text_ignoring_case(recent[i].fingerprint.as_str(), f.as_str()) {
                push_unique(&mut list, recent[i].endpoint.clone());
            }
        }
        proof {
            assert(recent@.take(recent@.len() as int) =~= recent@);
            offered = offered + recent_offers(recent@, f@);
        }
        assert(offered + peer_offers(views.take(0), f@, readings@, default_port) =~= offered);
        for i in 0..peers.len()
            invariant
                views == peer_views(peers@),
                texts(list@) == distinct(
                    offered + peer_offers(views.take(i as int), f@, readings@, default_port),
                ),
        {
            let ghost here = peer_offers(views.take(i as int), f@, readings@, default_port);
            proof {
                assert(views.take(i + 1).drop_last() =~= views.take(i as int));
                assert(views.take(i + 1).last() == peers@[i as int]@);
            }
            if same_text_ignoring_case(peers[i].fingerprint.as_str(), f.as_str()) {
                push_offers_of(&mut list, &peers[i], readings, default_port, Ghost(offered + here));
                assert(offered + here + offers_of(peers@[i as int]@, readings@, default_port)
                    =~= offered + (here + offers_of(peers@[i as int]@, readings@, default_port)));
            }
        }
        proof {
            assert(views.take(views.len() as int) =~= views);
        }
    }
    (fingerprint, list)
}

} // verus!
