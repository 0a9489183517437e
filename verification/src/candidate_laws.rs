//! What holds of the candidates for every request.

use vstd::prelude::*;

use crate::candidates::address_offers;
use crate::candidates::candidates;
use crate::candidates::distinct;
use crate::candidates::found_at;
use crate::candidates::known_fingerprint;
use crate::candidates::offers;
use crate::candidates::offers_of;
use crate::candidates::peer_fingerprint;
use crate::candidates::peer_offers;
use crate::candidates::port_of;
use crate::candidates::recent_fingerprint;
use crate::candidates::recent_offers;
use crate::candidates::with_unique;
use crate::endpoint::endpoint_text;
use crate::endpoint::IpAddressView;
use crate::endpoint::ReadingsView;
use crate::order::in_order;
use crate::order::law_finite_set_is_listed_in_order;
use crate::peer::is_fingerprint;
use crate::peer::law_fingerprint_form;
use crate::peer::peer_views;
use crate::peer::DiscoveryPeer;
use crate::peer::DiscoveryPeerView;
use crate::peer::RecentLanEndpoint;
use crate::text::ascii_lower;
use crate::text_map::lemma_map_of_is_finite;

verus! {

/// Adding a value keeps a list free of duplicates and of empty texts, leaves what
/// was in the list in its place, and makes sure of the value unless it is empty.
pub proof fn law_push_unique_keeps_lists_distinct(list: Seq<Seq<char>>, value: Seq<char>)
    ensures
        list.no_duplicates() ==> with_unique(list, value).no_duplicates(),
        (forall|i: int| 0 <= i < list.len() ==> (#[trigger] list[i]).len() > 0) ==> (forall|i: int|
            0 <= i < with_unique(list, value).len() ==> (#[trigger] with_unique(
                list,
                value,
            )[i]).len() > 0),
        list.is_prefix_of(with_unique(list, value)),
        value.len() > 0 ==> with_unique(list, value).contains(value),
        with_unique(with_unique(list, value), value) == with_unique(list, value),
{
    let after = with_unique(list, value);
    assert(list =~= after.subrange(0, list.len() as int));
    if after.len() > list.len() {
        assert(after[list.len() as int] == value);
        assert forall|i: int, j: int|
            list.no_duplicates() && 0 <= i < after.len() && 0 <= j < after.len() && i
                != j implies after[i] != after[j] by {
            assert(forall|k: int| 0 <= k < list.len() ==> list.contains(#[trigger] list[k]));
        }
        assert forall|i: int|
            (forall|k: int| 0 <= k < list.len() ==> (#[trigger] list[k]).len() > 0) && 0 <= i
                < after.len() implies (#[trigger] after[i]).len() > 0 by {
            if i < list.len() {
                assert(after[i] == list[i]);
            }
        }
    }
}

/// What is distinct has no duplicates, and holds exactly the texts of the list that
/// are not empty.
pub proof fn law_distinct(list: Seq<Seq<char>>)
    ensures
        distinct(list).no_duplicates(),
        forall|x: Seq<char>| #[trigger]
            distinct(list).contains(x) <==> list.contains(x) && x.len() > 0,
    decreases list.len(),
{
    if list.len() > 0 {
        let front = list.drop_last();
        let value = list.last();
        law_distinct(front);
        law_push_unique_keeps_lists_distinct(distinct(front), value);
        assert forall|x: Seq<char>| #[trigger] distinct(list).contains(x) <==> list.contains(x)
            && x.len() > 0 by {
            assert(list[list.len() - 1] == value);
            if distinct(list).contains(x) {
                let i = choose|i: int| 0 <= i < distinct(list).len() && distinct(list)[i] == x;
                if i < distinct(front).len() {
                    assert(distinct(list)[i] == distinct(front)[i]);
                    assert(distinct(front).contains(x));
                    let j = choose|j: int| 0 <= j < front.len() && front[j] == x;
                    assert(list[j] == x);
                }
            }
            if list.contains(x) && x.len() > 0 {
                let i = choose|i: int| 0 <= i < list.len() && list[i] == x;
                if i < front.len() {
                    assert(front[i] == x);
                    assert(distinct(front).contains(x));
                    let j = choose|j: int| 0 <= j < distinct(front).len() && distinct(front)[j]
                        == x;
                    assert(distinct(list)[j] == x);
                }
            }
        }
    }
}

proof fn lemma_distinct_starts_with(list: Seq<Seq<char>>)
    requires
        list.len() > 0,
        list[0].len() > 0,
    ensures
        distinct(list).len() > 0,
        distinct(list)[0] == list[0],
    decreases list.len(),
{
    if list.len() > 1 {
        lemma_distinct_starts_with(list.drop_last());
    } else {
        assert(list.drop_last() =~= seq![]);
        assert(distinct(list.drop_last()) =~= seq![]);
    }
}

/// No candidate is offered twice.
pub proof fn law_candidates_differ(
    endpoint: Seq<char>,
    recent: Seq<RecentLanEndpoint>,
    peers: Seq<DiscoveryPeerView>,
    readings: ReadingsView,
    default_port: u16,
)
    ensures
        candidates(endpoint, recent, peers, readings, default_port).1.no_duplicates(),
{
    if readings.endpoints.contains_key(endpoint) {
        let authority = readings.endpoints[endpoint].authority;
        let fingerprint = known_fingerprint(recent, peers, authority, readings);
        law_distinct(offers(authority, fingerprint, recent, peers, readings, default_port));
    }
}

/// The requested endpoint is the first candidate; and where nothing tells which
/// device is there, it is the only one.
pub proof fn law_requested_endpoint_comes_first(
    endpoint: Seq<char>,
    recent: Seq<RecentLanEndpoint>,
    peers: Seq<DiscoveryPeerView>,
    readings: ReadingsView,
    default_port: u16,
)
    requires
        readings.endpoints.contains_key(endpoint),
        readings.endpoints[endpoint].authority.len() > 0,
    ensures
        ({
            let (fingerprint, list) = candidates(endpoint, recent, peers, readings, default_port);
            let authority = readings.endpoints[endpoint].authority;
            &&& list.len() > 0
            &&& list[0] == authority
            &&& fingerprint is None ==> list == seq![authority]
        }),
{
    let authority = readings.endpoints[endpoint].authority;
    let fingerprint = known_fingerprint(recent, peers, authority, readings);
    let offered = offers(authority, fingerprint, recent, peers, readings, default_port);
    lemma_distinct_starts_with(offered);
    if fingerprint is None {
        assert(offered.drop_last() =~= seq![]);
        assert(distinct(offered.drop_last()) =~= seq![]);
        assert(distinct(offered) =~= seq![authority]);
    }
}

/// An endpoint text that does not read as one is passed on as the only candidate.
pub proof fn law_unreadable_endpoint_is_passed_on(
    endpoint: Seq<char>,
    recent: Seq<RecentLanEndpoint>,
    peers: Seq<DiscoveryPeerView>,
    readings: ReadingsView,
    default_port: u16,
)
    requires
        !readings.endpoints.contains_key(endpoint),
    ensures
        candidates(endpoint, recent, peers, readings, default_port) == (
            None::<Seq<char>>,
            seq![endpoint],
        ),
{
}

proof fn lemma_lower_twice(s: Seq<char>)
    ensures
        ascii_lower(ascii_lower(s)) == ascii_lower(s),
{
    assert(ascii_lower(ascii_lower(s)) =~= ascii_lower(s));
}

/// A fingerprint that comes with the candidates has the form of one and is in lower
/// case.
pub proof fn law_resolved_fingerprint_is_normal(
    endpoint: Seq<char>,
    recent: Seq<RecentLanEndpoint>,
    peers: Seq<DiscoveryPeerView>,
    readings: ReadingsView,
    default_port: u16,
)
    ensures
        candidates(endpoint, recent, peers, readings, default_port).0 matches Some(f)
            ==> is_fingerprint(f) && ascii_lower(f) == f,
{
    if readings.endpoints.contains_key(endpoint) {
        let authority = readings.endpoints[endpoint].authority;
        match recent_fingerprint(recent, authority) {
            Some(f) => lemma_lower_twice(f),
            None => match peer_fingerprint(peers, authority, readings) {
                Some(f) => lemma_lower_twice(f),
                None => {},
            },
        }
    }
}

proof fn lemma_recent_offers_contain(recent: Seq<RecentLanEndpoint>, f: Seq<char>, i: int)
    requires
        0 <= i < recent.len(),
        ascii_lower(recent[i].fingerprint@) == ascii_lower(f),
    ensures
        recent_offers(recent, f).contains(recent[i].endpoint@),
    decreases recent.len(),
{
    let all = recent_offers(recent, f);
    let rest = recent_offers(recent.drop_last(), f);
    if i == recent.len() - 1 {
        assert(all[rest.len() as int] == recent[i].endpoint@);
    } else {
        lemma_recent_offers_contain(recent.drop_last(), f, i);
        let j = choose|j: int| 0 <= j < rest.len() && rest[j] == recent[i].endpoint@;
        assert(all[j] == rest[j]);
    }
}

proof fn lemma_address_offers_contain(
    addresses: Seq<Seq<char>>,
    port: u16,
    readings: Map<Seq<char>, IpAddressView>,
    i: int,
)
    requires
        0 <= i < addresses.len(),
        readings.contains_key(addresses[i]),
    ensures
        address_offers(addresses, port, readings).contains(
            endpoint_text(readings[addresses[i]], port),
        ),
    decreases addresses.len(),
{
    let all = address_offers(addresses, port, readings);
    let rest = address_offers(addresses.drop_last(), port, readings);
    let x = endpoint_text(readings[addresses[i]], port);
    if i == addresses.len() - 1 {
        assert(all[rest.len() as int] == x);
    } else {
        lemma_address_offers_contain(addresses.drop_last(), port, readings, i);
        let j = choose|j: int| 0 <= j < rest.len() && rest[j] == x;
        assert(all[j] == rest[j]);
    }
}

proof fn lemma_peer_offers_contain(
    peers: Seq<DiscoveryPeerView>,
    f: Seq<char>,
    readings: ReadingsView,
    default_port: u16,
    i: int,
    x: Seq<char>,
)
    requires
        0 <= i < peers.len(),
        ascii_lower(peers[i].fingerprint) == ascii_lower(f),
        offers_of(peers[i], readings, default_port).contains(x),
    ensures
        peer_offers(peers, f, readings, default_port).contains(x),
    decreases peers.len(),
{
    let all = peer_offers(peers, f, readings, default_port);
    let rest = peer_offers(peers.drop_last(), f, readings, default_port);
    if i == peers.len() - 1 {
        let own = offers_of(peers[i], readings, default_port);
        let j = choose|j: int| 0 <= j < own.len() && own[j] == x;
        assert(all[rest.len() + j] == x);
    } else {
        lemma_peer_offers_contain(peers.drop_last(), f, readings, default_port, i, x);
        let j = choose|j: int| 0 <= j < rest.len() && rest[j] == x;
        assert(all[j] == x);
    }
}

/// Once the device is known, every recent endpoint of it is a candidate.
pub proof fn law_recent_endpoints_are_candidates(
    endpoint: Seq<char>,
    recent: Seq<RecentLanEndpoint>,
    peers: Seq<DiscoveryPeerView>,
    readings: ReadingsView,
    default_port: u16,
    i: int,
)
    requires
        readings.endpoints.contains_key(endpoint),
        0 <= i < recent.len(),
        recent[i].endpoint@.len() > 0,
        candidates(endpoint, recent, peers, readings, default_port).0 == Some(
            ascii_lower(recent[i].fingerprint@),
        ),
    ensures
        candidates(endpoint, recent, peers, readings, default_port).1.contains(
            recent[i].endpoint@,
        ),
{
    let authority = readings.endpoints[endpoint].authority;
    let f = ascii_lower(recent[i].fingerprint@);
    let offered = offers(authority, Some(f), recent, peers, readings, default_port);
    let x = recent[i].endpoint@;
    lemma_lower_twice(recent[i].fingerprint@);
    lemma_recent_offers_contain(recent, f, i);
    let j = choose|j: int| 0 <= j < recent_offers(recent, f).len() && recent_offers(recent, f)[j]
        == x;
    assert(offered[1 + j] == x);
    law_distinct(offered);
}

/// Once the device is known, the endpoint of every peer record of it is a candidate,
/// and so is, at every IP address of that record, the port of that endpoint; the
/// default port stands in only where the endpoint does not read as one.
pub proof fn law_discovered_addresses_are_candidates(
    endpoint: Seq<char>,
    recent: Seq<RecentLanEndpoint>,
    peers: Seq<DiscoveryPeer>,
    readings: ReadingsView,
    default_port: u16,
    i: int,
)
    requires
        readings.endpoints.contains_key(endpoint),
        0 <= i < peers.len(),
        candidates(endpoint, recent, peer_views(peers), readings, default_port).0 == Some(
            ascii_lower(peers[i].fingerprint@),
        ),
    ensures
        ({
            let list = candidates(endpoint, recent, peer_views(peers), readings, default_port).1;
            let port = if readings.endpoints.contains_key(peers[i].endpoint@) {
                readings.endpoints[peers[i].endpoint@].port
            } else {
                default_port
            };
            &&& peers[i].endpoint@.len() > 0 ==> list.contains(peers[i].endpoint@)
            &&& forall|k: Seq<char>| #[trigger]
                peers[i].ip_mac@.contains_key(k) && readings.addresses.contains_key(k)
                    ==> list.contains(endpoint_text(readings.addresses[k], port))
        }),
{
    let authority = readings.endpoints[endpoint].authority;
    let f = ascii_lower(peers[i].fingerprint@);
    let views = peer_views(peers);
    let offered = offers(authority, Some(f), recent, views, readings, default_port);
    let own = offers_of(views[i], readings, default_port);
    let port = port_of(peers[i].endpoint@, readings.endpoints, default_port);
    let keys = in_order(peers[i].ip_mac@.dom());
    lemma_map_of_is_finite(peers[i].ip_mac.pairs());
    law_finite_set_is_listed_in_order(peers[i].ip_mac@.dom());
    lemma_lower_twice(peers[i].fingerprint@);
    law_distinct(offered);
    assert forall|x: Seq<char>| own.contains(x) && x.len() > 0 implies distinct(
        offered,
    ).contains(x) by {
        lemma_peer_offers_contain(views, f, readings, default_port, i, x);
        let theirs = peer_offers(views, f, readings, default_port);
        let j = choose|j: int| 0 <= j < theirs.len() && theirs[j] == x;
        assert(offered[1 + recent_offers(recent, f).len() + j] == x);
    }
    assert(own[0] == peers[i].endpoint@);
    assert(own.contains(peers[i].endpoint@));
    assert forall|k: Seq<char>| #[trigger]
        peers[i].ip_mac@.contains_key(k) && readings.addresses.contains_key(k) implies distinct(
        offered,
    ).contains(endpoint_text(readings.addresses[k], port)) by {
        assert(keys.contains(k));
        let n = choose|n: int| 0 <= n < keys.len() && keys[n] == k;
        lemma_address_offers_contain(keys, port, readings.addresses, n);
        let x = endpoint_text(readings.addresses[k], port);
        let at = address_offers(keys, port, readings.addresses);
        let j = choose|j: int| 0 <= j < at.len() && at[j] == x;
        assert(own[1 + j] == x);
        assert(own.contains(x));
        assert(x.len() > 0);
    }
}

proof fn lemma_recent_offer_has_source(recent: Seq<RecentLanEndpoint>, f: Seq<char>, n: int)
    requires
        0 <= n < recent_offers(recent, f).len(),
    ensures
        exists|i: int|
            0 <= i < recent.len() && ascii_lower((#[trigger] recent[i]).fingerprint@)
                == ascii_lower(f) && recent[i].endpoint@ == recent_offers(recent, f)[n],
    decreases recent.len(),
{
    let front = recent.drop_last();
    let rest = recent_offers(front, f);
    if n < rest.len() {
        lemma_recent_offer_has_source(front, f, n);
        let i = choose|i: int|
            0 <= i < front.len() && ascii_lower((#[trigger] front[i]).fingerprint@) == ascii_lower(
                f,
            ) && front[i].endpoint@ == rest[n];
        assert(recent[i] == front[i]);
    } else {
        assert(recent[recent.len() - 1] == recent.last());
    }
}

proof fn lemma_peer_offer_has_source(
    peers: Seq<DiscoveryPeerView>,
    f: Seq<char>,
    readings: ReadingsView,
    default_port: u16,
    n: int,
)
    requires
        0 <= n < peer_offers(peers, f, readings, default_port).len(),
    ensures
        exists|i: int|
            0 <= i < peers.len() && ascii_lower((#[trigger] peers[i]).fingerprint) == ascii_lower(f)
                && offers_of(peers[i], readings, default_port).contains(
                peer_offers(peers, f, readings, default_port)[n],
            ),
    decreases peers.len(),
{
    let front = peers.drop_last();
    let rest = peer_offers(front, f, readings, default_port);
    let all = peer_offers(peers, f, readings, default_port);
    if n < rest.len() {
        lemma_peer_offer_has_source(front, f, readings, default_port, n);
        let i = choose|i: int|
            0 <= i < front.len() && ascii_lower((#[trigger] front[i]).fingerprint) == ascii_lower(f)
                && offers_of(front[i], readings, default_port).contains(rest[n]);
        assert(peers[i] == front[i]);
        assert(all[n] == rest[n]);
    } else {
        let own = offers_of(peers.last(), readings, default_port);
        assert(own[n - rest.len()] == all[n]);
        assert(peers[peers.len() - 1] == peers.last());
    }
}

/// No other device gets in: apart from the requested endpoint, each candidate is a
/// recent endpoint of the known device or comes from a peer record of it.
pub proof fn law_candidates_belong_to_the_device(
    endpoint: Seq<char>,
    recent: Seq<RecentLanEndpoint>,
    peers: Seq<DiscoveryPeerView>,
    readings: ReadingsView,
    default_port: u16,
    candidate: Seq<char>,
)
    requires
        readings.endpoints.contains_key(endpoint),
        candidates(endpoint, recent, peers, readings, default_port).1.contains(candidate),
        candidate != readings.endpoints[endpoint].authority,
    ensures
        candidates(endpoint, recent, peers, readings, default_port).0 matches Some(f) && {
            ||| exists|i: int|
                0 <= i < recent.len() && ascii_lower((#[trigger] recent[i]).fingerprint@) == f
                    && recent[i].endpoint@ == candidate
            ||| exists|i: int|
                0 <= i < peers.len() && ascii_lower((#[trigger] peers[i]).fingerprint) == f
                    && offers_of(peers[i], readings, default_port).contains(candidate)
        },
{
    let authority = readings.endpoints[endpoint].authority;
    let fingerprint = known_fingerprint(recent, peers, authority, readings);
    let offered = offers(authority, fingerprint, recent, peers, readings, default_port);
    law_distinct(offered);
    law_resolved_fingerprint_is_normal(endpoint, recent, peers, readings, default_port);
    let n = choose|n: int| 0 <= n < offered.len() && offered[n] == candidate;
    match fingerprint {
        Some(f) => {
            let own = recent_offers(recent, f);
            if n < 1 + own.len() {
                assert(own[n - 1] == candidate);
                lemma_recent_offer_has_source(recent, f, n - 1);
            } else {
                let theirs = peer_offers(peers, f, readings, default_port);
                assert(theirs[n - 1 - own.len()] == candidate);
                lemma_peer_offer_has_source(peers, f, readings, default_port, n - 1 - own.len());
            }
        },
        None => {},
    }
}

proof fn lemma_recent_fingerprint_insert(
    recent: Seq<RecentLanEndpoint>,
    at: int,
    other: RecentLanEndpoint,
    authority: Seq<char>,
)
    requires
        0 <= at <= recent.len(),
        other.endpoint@ != authority,
    ensures
        recent_fingerprint(recent.insert(at, other), authority) == recent_fingerprint(
            recent,
            authority,
        ),
    decreases at,
{
    let more = recent.insert(at, other);
    if at == 0 {
        assert(more.drop_first() =~= recent);
    } else {
        assert(more[0] == recent[0]);
        assert(more.drop_first() =~= recent.drop_first().insert(at - 1, other));
        lemma_recent_fingerprint_insert(recent.drop_first(), at - 1, other, authority);
    }
}

proof fn lemma_peer_fingerprint_insert(
    peers: Seq<DiscoveryPeerView>,
    at: int,
    other: DiscoveryPeerView,
    authority: Seq<char>,
    readings: ReadingsView,
)
    requires
        0 <= at <= peers.len(),
        !found_at(other, authority, readings),
    ensures
        peer_fingerprint(peers.insert(at, other), authority, readings) == peer_fingerprint(
            peers,
            authority,
            readings,
        ),
    decreases at,
{
    let more = peers.insert(at, other);
    if at == 0 {
        assert(more.drop_first() =~= peers);
    } else {
        assert(more[0] == peers[0]);
        assert(more.drop_first() =~= peers.drop_first().insert(at - 1, other));
        lemma_peer_fingerprint_insert(peers.drop_first(), at - 1, other, authority, readings);
    }
}

proof fn lemma_recent_offers_insert(
    recent: Seq<RecentLanEndpoint>,
    at: int,
    other: RecentLanEndpoint,
    f: Seq<char>,
)
    requires
        0 <= at <= recent.len(),
        ascii_lower(other.fingerprint@) != ascii_lower(f),
    ensures
        recent_offers(recent.insert(at, other), f) == recent_offers(recent, f),
    decreases recent.len(),
{
    let more = recent.insert(at, other);
    if at == recent.len() {
        assert(more.drop_last() =~= recent);
    } else {
        assert(more.last() == recent.last());
        assert(more.drop_last() =~= recent.drop_last().insert(at, other));
        lemma_recent_offers_insert(recent.drop_last(), at, other, f);
    }
}

proof fn lemma_peer_offers_insert(
    peers: Seq<DiscoveryPeerView>,
    at: int,
    other: DiscoveryPeerView,
    f: Seq<char>,
    readings: ReadingsView,
    default_port: u16,
)
    requires
        0 <= at <= peers.len(),
        ascii_lower(other.fingerprint) != ascii_lower(f),
    ensures
        peer_offers(peers.insert(at, other), f, readings, default_port) == peer_offers(
            peers,
            f,
            readings,
            default_port,
        ),
    decreases peers.len(),
{
    let more = peers.insert(at, other);
    if at == peers.len() {
        assert(more.drop_last() =~= peers);
    } else {
        assert(more.last() == peers.last());
        assert(more.drop_last() =~= peers.drop_last().insert(at, other));
        lemma_peer_offers_insert(peers.drop_last(), at, other, f, readings, default_port);
    }
}

/// Recent endpoints of other devices change nothing: one that is not the requested
/// endpoint, and whose fingerprint is not the resolved one in either case of its
/// letters, may stand anywhere in the list, and neither the fingerprint nor any
/// candidate nor their order depends on it.
pub proof fn law_recent_endpoints_of_others_change_nothing(
    endpoint: Seq<char>,
    recent: Seq<RecentLanEndpoint>,
    peers: Seq<DiscoveryPeerView>,
    readings: ReadingsView,
    default_port: u16,
    at: int,
    other: RecentLanEndpoint,
)
    requires
        0 <= at <= recent.len(),
        readings.endpoints.contains_key(endpoint) ==> other.endpoint@
            != readings.endpoints[endpoint].authority,
        candidates(endpoint, recent, peers, readings, default_port).0 matches Some(f)
            ==> ascii_lower(other.fingerprint@) != ascii_lower(f),
    ensures
        candidates(endpoint, recent.insert(at, other), peers, readings, default_port)
            == candidates(endpoint, recent, peers, readings, default_port),
{
    if readings.endpoints.contains_key(endpoint) {
        let authority = readings.endpoints[endpoint].authority;
        lemma_recent_fingerprint_insert(recent, at, other, authority);
        match known_fingerprint(recent, peers, authority, readings) {
            Some(f) => lemma_recent_offers_insert(recent, at, other, f),
            None => {},
        }
    }
}

/// Peer records of other devices change nothing: one that was not found at the
/// requested endpoint, and whose fingerprint is not the resolved one in either case
/// of its letters, may stand anywhere in the list, and neither the fingerprint nor
/// any candidate nor their order depends on it.
pub proof fn law_peers_of_others_change_nothing(
    endpoint: Seq<char>,
    recent: Seq<RecentLanEndpoint>,
    peers: Seq<DiscoveryPeerView>,
    readings: ReadingsView,
    default_port: u16,
    at: int,
    other: DiscoveryPeerView,
)
    requires
        0 <= at <= peers.len(),
        readings.endpoints.contains_key(endpoint) ==> !found_at(
            other,
            readings.endpoints[endpoint].authority,
            readings,
        ),
        candidates(endpoint, recent, peers, readings, default_port).0 matches Some(f)
            ==> ascii_lower(other.fingerprint) != ascii_lower(f),
    ensures
        candidates(endpoint, recent, peers.insert(at, other), readings, default_port)
            == candidates(endpoint, recent, peers, readings, default_port),
{
    if readings.endpoints.contains_key(endpoint) {
        let authority = readings.endpoints[endpoint].authority;
        lemma_peer_fingerprint_insert(peers, at, other, authority, readings);
        match known_fingerprint(recent, peers, authority, readings) {
            Some(f) => lemma_peer_offers_insert(peers, at, other, f, readings, default_port),
            None => {},
        }
    }
}

/// Peer records of other devices change nothing, told by the host of the request: if
/// the authority reads with the host that the request reads with, one that has
/// neither the requested endpoint nor that host among its addresses, and whose
/// fingerprint is not the resolved one in either case of its letters, may stand
/// anywhere in the list.
pub proof fn law_peers_at_other_hosts_change_nothing(
    endpoint: Seq<char>,
    recent: Seq<RecentLanEndpoint>,
    peers: Seq<DiscoveryPeerView>,
    readings: ReadingsView,
    default_port: u16,
    at: int,
    other: DiscoveryPeerView,
)
    requires
        0 <= at <= peers.len(),
        readings.endpoints.contains_key(endpoint),
        ({
            let requested = readings.endpoints[endpoint];
            &&& readings.endpoints.contains_key(requested.authority)
                ==> readings.endpoints[requested.authority].host == requested.host
            &&& other.endpoint != requested.authority
            &&& !other.ip_mac.contains_key(requested.host)
        }),
        candidates(endpoint, recent, peers, readings, default_port).0 matches Some(f)
            ==> ascii_lower(other.fingerprint) != ascii_lower(f),
    ensures
        candidates(endpoint, recent, peers.insert(at, other), readings, default_port)
            == candidates(endpoint, recent, peers, readings, default_port),
{
    law_peers_of_others_change_nothing(
        endpoint,
        recent,
        peers,
        readings,
        default_port,
        at,
        other,
    );
}

/// Adding a value adds nothing else, and an empty value or one that is in the list is
/// not added.
pub proof fn law_push_unique_adds_the_value_only(list: Seq<Seq<char>>, value: Seq<char>)
    ensures
        value.len() == 0 || list.contains(value) ==> with_unique(list, value) == list,
        value.len() > 0 && !list.contains(value) ==> with_unique(list, value) == list + seq![value],
{
    assert(list + seq![value] =~= list.push(value));
}

/// What is distinct keeps its order: more texts behind a list change nothing about
/// what is distinct in the list.
pub proof fn law_distinct_keeps_the_order(list: Seq<Seq<char>>, more: Seq<Seq<char>>)
    ensures
        distinct(list).is_prefix_of(distinct(list + more)),
    decreases more.len(),
{
    if more.len() == 0 {
        assert(list + more =~= list);
        assert(distinct(list) =~= distinct(list).subrange(0, distinct(list).len() as int));
    } else {
        assert((list + more).drop_last() =~= list + more.drop_last());
        law_distinct_keeps_the_order(list, more.drop_last());
        let (a, b, c) = (
            distinct(list),
            distinct(list + more.drop_last()),
            distinct(list + more),
        );
        assert(a == b.subrange(0, a.len() as int));
        assert(a =~= c.subrange(0, a.len() as int));
    }
}

proof fn lemma_first_recent_fingerprint(
    recent: Seq<RecentLanEndpoint>,
    authority: Seq<char>,
    i: int,
)
    requires
        0 <= i <= recent.len(),
        forall|j: int| 0 <= j < i ==> (#[trigger] recent[j]).endpoint@ != authority,
        i < recent.len() ==> recent[i].endpoint@ == authority,
    ensures
        recent_fingerprint(recent, authority) == if i < recent.len() {
            Some(recent[i].fingerprint@)
        } else {
            None
        },
    decreases recent.len(),
{
    if i > 0 {
        let rest = recent.drop_first();
        assert(recent[0].endpoint@ != authority);
        assert forall|j: int| 0 <= j < i - 1 implies (#[trigger] rest[j]).endpoint@
            != authority by {
            assert(rest[j] == recent[j + 1]);
        }
        lemma_first_recent_fingerprint(rest, authority, i - 1);
    }
}

proof fn lemma_first_peer_fingerprint(
    peers: Seq<DiscoveryPeerView>,
    authority: Seq<char>,
    readings: ReadingsView,
    i: int,
)
    requires
        0 <= i <= peers.len(),
        forall|j: int| 0 <= j < i ==> !found_at(#[trigger] peers[j], authority, readings),
        i < peers.len() ==> found_at(peers[i], authority, readings),
    ensures
        peer_fingerprint(peers, authority, readings) == if i < peers.len() {
            Some(peers[i].fingerprint)
        } else {
            None
        },
    decreases peers.len(),
{
    if i > 0 {
        let rest = peers.drop_first();
        assert(!found_at(peers[0], authority, readings));
        assert forall|j: int| 0 <= j < i - 1 implies !found_at(
            #[trigger] rest[j],
            authority,
            readings,
        ) by {
            assert(rest[j] == peers[j + 1]);
        }
        lemma_first_peer_fingerprint(rest, authority, readings, i - 1);
    }
}

/// The first recent endpoint that is the requested one tells which device is there,
/// whatever was discovered. If its fingerprint is not a proper one, nothing does.
pub proof fn law_recent_endpoint_tells_the_device(
    endpoint: Seq<char>,
    recent: Seq<RecentLanEndpoint>,
    peers: Seq<DiscoveryPeerView>,
    readings: ReadingsView,
    default_port: u16,
    i: int,
)
    requires
        readings.endpoints.contains_key(endpoint),
        0 <= i < recent.len(),
        recent[i].endpoint@ == readings.endpoints[endpoint].authority,
        forall|j: int|
            0 <= j < i ==> (#[trigger] recent[j]).endpoint@
                != readings.endpoints[endpoint].authority,
    ensures
        candidates(endpoint, recent, peers, readings, default_port).0 == if is_fingerprint(
            recent[i].fingerprint@,
        ) {
            Some(ascii_lower(recent[i].fingerprint@))
        } else {
            None
        },
{
    let authority = readings.endpoints[endpoint].authority;
    lemma_first_recent_fingerprint(recent, authority, i);
    law_fingerprint_form(recent[i].fingerprint@);
}

/// Where no recent endpoint is the requested one, the first peer tells which device is
/// there that has the requested endpoint, or the host of that endpoint among its
/// addresses. If its fingerprint is not a proper one, nothing does.
pub proof fn law_discovered_peer_tells_the_device(
    endpoint: Seq<char>,
    recent: Seq<RecentLanEndpoint>,
    peers: Seq<DiscoveryPeerView>,
    readings: ReadingsView,
    default_port: u16,
    i: int,
)
    requires
        readings.endpoints.contains_key(endpoint),
        0 <= i < peers.len(),
        ({
            let authority = readings.endpoints[endpoint].authority;
            let at_host = readings.endpoints.contains_key(authority);
            let host = readings.endpoints[authority].host;
            &&& forall|j: int|
                0 <= j < recent.len() ==> (#[trigger] recent[j]).endpoint@ != authority
            &&& peers[i].endpoint == authority || at_host && peers[i].ip_mac.contains_key(host)
            &&& forall|j: int|
                0 <= j < i ==> (#[trigger] peers[j]).endpoint != authority && !(at_host
                    && peers[j].ip_mac.contains_key(host))
        }),
    ensures
        candidates(endpoint, recent, peers, readings, default_port).0 == if is_fingerprint(
            peers[i].fingerprint,
        ) {
            Some(ascii_lower(peers[i].fingerprint))
        } else {
            None
        },
{
    let authority = readings.endpoints[endpoint].authority;
    lemma_first_recent_fingerprint(recent, authority, recent.len() as int);
    lemma_first_peer_fingerprint(peers, authority, readings, i);
    law_fingerprint_form(peers[i].fingerprint);
}

/// Where no recent endpoint is the requested one, and no peer has it or its host among
/// its addresses, the device is not known.
pub proof fn law_unseen_device_is_not_known(
    endpoint: Seq<char>,
    recent: Seq<RecentLanEndpoint>,
    peers: Seq<DiscoveryPeerView>,
    readings: ReadingsView,
    default_port: u16,
)
    requires
        readings.endpoints.contains_key(endpoint),
        ({
            let authority = readings.endpoints[endpoint].authority;
            let at_host = readings.endpoints.contains_key(authority);
            let host = readings.endpoints[authority].host;
            &&& forall|j: int|
                0 <= j < recent.len() ==> (#[trigger] recent[j]).endpoint@ != authority
            &&& forall|j: int|
                0 <= j < peers.len() ==> (#[trigger] peers[j]).endpoint != authority && !(at_host
                    && peers[j].ip_mac.contains_key(host))
        }),
    ensures
        candidates(endpoint, recent, peers, readings, default_port).0 is None,
{
    let authority = readings.endpoints[endpoint].authority;
    lemma_first_recent_fingerprint(recent, authority, recent.len() as int);
    lemma_first_peer_fingerprint(peers, authority, readings, peers.len() as int);
}

proof fn lemma_recent_offers_by_filter(recent: Seq<RecentLanEndpoint>, f: Seq<char>)
    requires
        ascii_lower(f) == f,
    ensures
        recent_offers(recent, f) == recent.filter(
            |r: RecentLanEndpoint| ascii_lower(r.fingerprint@) == f,
        ).map_values(|r: RecentLanEndpoint| r.endpoint@),
    decreases recent.len(),
{
    reveal(Seq::filter);
    if recent.len() > 0 {
        lemma_recent_offers_by_filter(recent.drop_last(), f);
    }
    assert(recent_offers(recent, f) =~= recent.filter(
        |r: RecentLanEndpoint| ascii_lower(r.fingerprint@) == f,
    ).map_values(|r: RecentLanEndpoint| r.endpoint@));
}

proof fn lemma_address_offers_by_filter(
    addresses: Seq<Seq<char>>,
    port: u16,
    readings: Map<Seq<char>, IpAddressView>,
)
    ensures
        address_offers(addresses, port, readings) == addresses.filter(
            |k: Seq<char>| readings.contains_key(k),
        ).map_values(|k: Seq<char>| endpoint_text(readings[k], port)),
    decreases addresses.len(),
{
    reveal(Seq::filter);
    if addresses.len() > 0 {
        lemma_address_offers_by_filter(addresses.drop_last(), port, readings);
    }
    assert(address_offers(addresses, port, readings) =~= addresses.filter(
        |k: Seq<char>| readings.contains_key(k),
    ).map_values(|k: Seq<char>| endpoint_text(readings[k], port)));
}

proof fn lemma_peer_offers_by_filter(
    peers: Seq<DiscoveryPeerView>,
    f: Seq<char>,
    readings: ReadingsView,
    default_port: u16,
    told: spec_fn(DiscoveryPeerView) -> Seq<Seq<char>>,
)
    requires
        ascii_lower(f) == f,
        forall|p: DiscoveryPeerView| #[trigger] told(p) == offers_of(p, readings, default_port),
    ensures
        peer_offers(peers, f, readings, default_port) == peers.filter(
            |p: DiscoveryPeerView| ascii_lower(p.fingerprint) == f,
        ).map_values(told).flatten(),
    decreases peers.len(),
{
    reveal(Seq::filter);
    let ours = peers.filter(|p: DiscoveryPeerView| ascii_lower(p.fingerprint) == f);
    if peers.len() > 0 {
        let front = peers.drop_last();
        lemma_peer_offers_by_filter(front, f, readings, default_port, told);
        let before = front.filter(|p: DiscoveryPeerView| ascii_lower(p.fingerprint) == f);
        if ascii_lower(peers.last().fingerprint) == f {
            assert(ours == before.push(peers.last()));
            assert(ours.map_values(told) =~= before.map_values(told).push(told(peers.last())));
            before.map_values(told).lemma_flatten_push(told(peers.last()));
        } else {
            assert(ours == before);
        }
    } else {
        assert(ours.map_values(told) =~= Seq::<Seq<Seq<char>>>::empty());
        assert(peer_offers(peers, f, readings, default_port) =~= ours.map_values(told).flatten());
    }
}

/// The candidates for a known device, in their order: the requested endpoint, the
/// recent endpoints with its fingerprint, and for each peer record with its
/// fingerprint the endpoint and then, at those of its addresses that are IP addresses,
/// in the order of their texts, the port of that endpoint, or the default port where
/// the endpoint does not read as one. Each is there once, at its first place.
///
/// `told` is what a record tells.
pub proof fn law_candidates_of_a_known_device(
    endpoint: Seq<char>,
    recent: Seq<RecentLanEndpoint>,
    peers: Seq<DiscoveryPeerView>,
    readings: ReadingsView,
    default_port: u16,
    f: Seq<char>,
    told: spec_fn(DiscoveryPeerView) -> Seq<Seq<char>>,
)
    requires
        readings.endpoints.contains_key(endpoint),
        candidates(endpoint, recent, peers, readings, default_port).0 == Some(f),
        forall|p: DiscoveryPeerView| #[trigger]
            told(p) == ({
                let port = if readings.endpoints.contains_key(p.endpoint) {
                    readings.endpoints[p.endpoint].port
                } else {
                    default_port
                };
                seq![p.endpoint] + in_order(p.ip_mac.dom()).filter(
                    |k: Seq<char>| readings.addresses.contains_key(k),
                ).map_values(|k: Seq<char>| endpoint_text(readings.addresses[k], port))
            }),
    ensures
        candidates(endpoint, recent, peers, readings, default_port).1 == distinct(
            seq![readings.endpoints[endpoint].authority] + recent.filter(
                |r: RecentLanEndpoint| ascii_lower(r.fingerprint@) == f,
            ).map_values(|r: RecentLanEndpoint| r.endpoint@) + peers.filter(
                |p: DiscoveryPeerView| ascii_lower(p.fingerprint) == f,
            ).map_values(told).flatten(),
        ),
{
    law_resolved_fingerprint_is_normal(endpoint, recent, peers, readings, default_port);
    lemma_recent_offers_by_filter(recent, f);
    assert forall|p: DiscoveryPeerView| #[trigger] told(p) == offers_of(
        p,
        readings,
        default_port,
    ) by {
        let port = if readings.endpoints.contains_key(p.endpoint) {
            readings.endpoints[p.endpoint].port
        } else {
            default_port
        };
        lemma_address_offers_by_filter(in_order(p.ip_mac.dom()), port, readings.addresses);
    }
    lemma_peer_offers_by_filter(peers, f, readings, default_port, told);
}

/// Nothing but what is known of the device is a candidate: each is the requested
/// endpoint, a recent endpoint with the fingerprint of the device, the endpoint of a
/// peer record with that fingerprint, or the port of that endpoint at an IP address of
/// that record.
pub proof fn law_every_candidate_has_a_source(
    endpoint: Seq<char>,
    recent: Seq<RecentLanEndpoint>,
    peers: Seq<DiscoveryPeer>,
    readings: ReadingsView,
    default_port: u16,
    candidate: Seq<char>,
)
    requires
        readings.endpoints.contains_key(endpoint),
        candidates(endpoint, recent, peer_views(peers), readings, default_port).1.contains(
            candidate,
        ),
        candidate != readings.endpoints[endpoint].authority,
    ensures
        candidate.len() > 0,
        candidates(endpoint, recent, peer_views(peers), readings, default_port).0 matches Some(f)
            && {
            ||| exists|i: int|
                0 <= i < recent.len() && ascii_lower((#[trigger] recent[i]).fingerprint@) == f
                    && recent[i].endpoint@ == candidate
            ||| exists|i: int|
                0 <= i < peers.len() && ascii_lower((#[trigger] peers[i]).fingerprint@) == f
                    && peers[i].endpoint@ == candidate
            ||| exists|i: int, k: Seq<char>|
                #![trigger peers[i], readings.addresses[k]]
                0 <= i < peers.len() && ascii_lower(peers[i].fingerprint@) == f
                    && peers[i].ip_mac@.contains_key(k) && readings.addresses.contains_key(k)
                    && candidate == endpoint_text(
                    readings.addresses[k],
                    if readings.endpoints.contains_key(peers[i].endpoint@) {
                        readings.endpoints[peers[i].endpoint@].port
                    } else {
                        default_port
                    },
                )
        },
{
    let views = peer_views(peers);
    let authority = readings.endpoints[endpoint].authority;
    let known = known_fingerprint(recent, views, authority, readings);
    law_distinct(offers(authority, known, recent, views, readings, default_port));
    law_candidates_belong_to_the_device(
        endpoint,
        recent,
        views,
        readings,
        default_port,
        candidate,
    );
    let f = candidates(endpoint, recent, views, readings, default_port).0->0;
    if exists|i: int|
        0 <= i < recent.len() && ascii_lower((#[trigger] recent[i]).fingerprint@) == f
            && recent[i].endpoint@ == candidate {
    } else {
        let i = choose|i: int|
            0 <= i < views.len() && ascii_lower((#[trigger] views[i]).fingerprint) == f
                && offers_of(views[i], readings, default_port).contains(candidate);
        assert(views[i] == peers[i]@);
        let own = offers_of(views[i], readings, default_port);
        let n = choose|n: int| 0 <= n < own.len() && own[n] == candidate;
        if n == 0 {
            assert(peers[i].endpoint@ == candidate);
        } else {
            let port = port_of(peers[i].endpoint@, readings.endpoints, default_port);
            let keys = in_order(peers[i].ip_mac@.dom());
            lemma_map_of_is_finite(peers[i].ip_mac.pairs());
            law_finite_set_is_listed_in_order(peers[i].ip_mac@.dom());
            let at = address_offers(keys, port, readings.addresses);
            assert(at[n - 1] == candidate);
            let m = lemma_address_offer_has_source(keys, port, readings.addresses, n - 1);
            assert(keys.contains(keys[m]));
            assert(peers[i].ip_mac@.contains_key(keys[m]));
            assert(candidate == endpoint_text(readings.addresses[keys[m]], port));
        }
    }
}

proof fn lemma_address_offer_has_source(
    addresses: Seq<Seq<char>>,
    port: u16,
    readings: Map<Seq<char>, IpAddressView>,
    n: int,
) -> (m: int)
    requires
        0 <= n < address_offers(addresses, port, readings).len(),
    ensures
        0 <= m < addresses.len(),
        readings.contains_key(addresses[m]),
        address_offers(addresses, port, readings)[n] == endpoint_text(readings[addresses[m]], port),
    decreases addresses.len(),
{
    let front = addresses.drop_last();
    let rest = address_offers(front, port, readings);
    if n < rest.len() {
        lemma_address_offer_has_source(front, port, readings, n)
    } else {
        addresses.len() - 1
    }
}

} // verus!
