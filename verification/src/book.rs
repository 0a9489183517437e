//! The list of peers that discovery keeps.

use vstd::prelude::*;

use crate::candidates::found_at;
use crate::endpoint::Readings;
use crate::endpoint::ReadingsView;
use crate::peer::peer_views;
use crate::peer::DiscoveryPeer;
use crate::peer::DiscoveryPeerView;

verus! {

/// How long, in milliseconds, the list may wait to be stored after it was stored.
pub const STORE_INTERVAL_MS: u128 = 300;

/// The first place at which `flags` holds `true`, among the first `n`.
pub open spec fn first_set(flags: Seq<bool>, n: int) -> Option<int>
    decreases n,
{
    if n <= 0 {
        None
    } else {
        match first_set(flags, n - 1) {
            Some(i) => Some(i),
            None => if n <= flags.len() && flags[n - 1] {
                Some(n - 1)
            } else {
                None
            },
        }
    }
}

/// The host of an endpoint, if the endpoint can be read and its host is an IP
/// address.
pub open spec fn ip_host(endpoint: Seq<char>, readings: ReadingsView) -> Option<Seq<char>> {
    if readings.endpoints.contains_key(endpoint) && readings.addresses.contains_key(
        readings.endpoints[endpoint].host,
    ) {
        Some(readings.endpoints[endpoint].host)
    } else {
        None
    }
}

/// The addresses of a record that takes the place of another: its own, and those of
/// the one before, whose MAC addresses stay. The host of the endpoint before counts
/// as an address, without a MAC address if none is known.
pub open spec fn merged_addresses(
    new: Map<Seq<char>, Seq<char>>,
    before: Map<Seq<char>, Seq<char>>,
    host: Option<Seq<char>>,
) -> Map<Seq<char>, Seq<char>> {
    let with_host = match host {
        Some(h) if !new.contains_key(h) => new.insert(h, seq![]),
        _ => new,
    };
    with_host.union_prefer_right(before)
}

/// A record that takes the place of another.
pub open spec fn merged(
    new: DiscoveryPeerView,
    before: DiscoveryPeerView,
    readings: ReadingsView,
) -> DiscoveryPeerView {
    DiscoveryPeerView {
        ip_mac: merged_addresses(new.ip_mac, before.ip_mac, ip_host(before.endpoint, readings)),
        ..new
    }
}

/// The list after a peer was found, where `same` tells which records are of the same
/// peer: the new record comes first, in the place of the first of those.
pub open spec fn with_peer(
    peers: Seq<DiscoveryPeerView>,
    peer: DiscoveryPeerView,
    same: Seq<bool>,
    readings: ReadingsView,
) -> Seq<DiscoveryPeerView> {
    match first_set(same, peers.len() as int) {
        Some(i) => seq![merged(peer, peers[i], readings)] + peers.remove(i),
        None => seq![peer] + peers,
    }
}

/// The record with the peer marked as not reachable.
pub open spec fn offline(peer: DiscoveryPeerView) -> DiscoveryPeerView {
    DiscoveryPeerView { online: false, ..peer }
}

/// Marks every peer as not reachable, until it is found again.
pub fn mark_offline(peers: &mut Vec<DiscoveryPeer>)
    ensures
        peer_views(final(peers)@) == peer_views(old(peers)@).map_values(
            |p: DiscoveryPeerView| offline(p),
        ),
{
    let ghost before = peer_views(peers@);
    let count: usize = peers.len();
    for i in 0..count
        invariant
            count == peers@.len(),
            before.len() == count,
            forall|j: int| 0 <= j < i ==> (#[trigger] peers@[j])@ == offline(before[j]),
            forall|j: int| i <= j < count ==> (#[trigger] peers@[j])@ == before[j],
    {
        peers[i].online = false;
    }
    assert(peer_views(peers@) =~= before.map_values(|p: DiscoveryPeerView| offline(p)));
}

/// The first of the flags that is set, among the first `n`.
fn find_set(flags: &[bool], n: usize) -> (place: Option<usize>)
    ensures
        match place {
            Some(i) => i < n && first_set(flags@, n as int) == Some(i as int),
            None => first_set(flags@, n as int) is None,
        },
{
    let mut i: usize = 0;
    while i < n
        invariant
            i <= n,
            first_set(flags@, i as int) is None,
        decreases n - i,
    {
        if i < flags.len() && flags[i] {
            proof {
                lemma_first_set_stays(flags@, i + 1, n as int);
            }
            return Some(i);
        }
        i += 1;
    }
    None
}

proof fn lemma_first_set_stays(flags: Seq<bool>, m: int, n: int)
    requires
        0 <= m <= n,
        first_set(flags, m) is Some,
    ensures
        first_set(flags, n) == first_set(flags, m),
    decreases n - m,
{
    if m < n {
        lemma_first_set_stays(flags, m, n - 1);
    }
}

/// Takes over the addresses of the record `before` into the record that takes its
/// place.
fn take_over(peer: DiscoveryPeer, before: DiscoveryPeer, readings: &Readings) -> (result:
    DiscoveryPeer)
    ensures
        result@ == merged(peer@, before@, readings@),
{
    let mut result: DiscoveryPeer = peer;
    match readings.endpoints.get(before.endpoint.as_str()) {
        Some(parts) => if readings.addresses.contains_key(parts.host.as_str()) {
            result.ip_mac.insert_if_absent(parts.host.clone(), String::new());
        },
        None => {},
    }
    result.ip_mac.extend(before.ip_mac);
    result
}

/// Enters a peer that was found. `same` tells, for each record of the list, whether
/// it is of the same peer.
pub fn receive_peer(
    peers: &mut Vec<DiscoveryPeer>,
    peer: DiscoveryPeer,
    same: &[bool],
    readings: &Readings,
)
    ensures
        peer_views(final(peers)@) == with_peer(
            peer_views(old(peers)@),
            peer@,
            same@,
            readings@,
        ),
{
    let ghost views = peer_views(peers@);
    match find_set(same, peers.len()) {
        Some(i) => {
            let before: DiscoveryPeer = peers.remove(i);
            assert(peer_views(peers@) =~= views.remove(i as int));
            let record: DiscoveryPeer = take_over(peer, before, readings);
            let ghost head = record@;
            let ghost rest = peer_views(peers@);
            peers.insert(0, record);
            assert(peer_views(peers@) =~= seq![head] + rest);
        },
        None => {
            let ghost head = peer@;
            peers.insert(0, peer);
            assert(peer_views(peers@) =~= seq![head] + views);
        },
    }
}

/// Whether the list is to be stored now, when `since_store_ms` have passed since it
/// was stored, if it was.
pub fn store_is_due(since_store_ms: Option<u128>) -> (r: bool)
    ensures
        r == match since_store_ms {
            Some(ms) => ms > STORE_INTERVAL_MS,
            None => true,
        },
{
    match since_store_ms {
        Some(ms) => ms > STORE_INTERVAL_MS,
        None => true,
    }
}

/// No address is lost when a record takes the place of another, and a MAC address
/// that was on record stays.
pub proof fn law_no_address_is_lost(
    new: DiscoveryPeerView,
    before: DiscoveryPeerView,
    readings: ReadingsView,
)
    ensures
        ({
            let after = merged(new, before, readings).ip_mac;
            &&& forall|k: Seq<char>| #[trigger]
                before.ip_mac.contains_key(k) ==> after.contains_key(k) && after[k]
                    == before.ip_mac[k]
            &&& forall|k: Seq<char>| #[trigger]
                new.ip_mac.contains_key(k) ==> after.contains_key(k) && (
                !before.ip_mac.contains_key(k) ==> after[k] == new.ip_mac[k])
            &&& ip_host(before.endpoint, readings) matches Some(host) ==> after.contains_key(host)
        }),
{
}

/// No address comes from nowhere when a record takes the place of another.
pub proof fn law_no_address_is_made_up(
    new: DiscoveryPeerView,
    before: DiscoveryPeerView,
    readings: ReadingsView,
    address: Seq<char>,
)
    requires
        merged(new, before, readings).ip_mac.contains_key(address),
    ensures
        new.ip_mac.contains_key(address) || before.ip_mac.contains_key(address) || ip_host(
            before.endpoint,
            readings,
        ) == Some(address),
{
}

/// The peer that was found comes first, with all that was told of it; the other
/// records keep their order.
pub proof fn law_found_peer_comes_first(
    peers: Seq<DiscoveryPeerView>,
    peer: DiscoveryPeerView,
    same: Seq<bool>,
    readings: ReadingsView,
)
    ensures
        ({
            let after = with_peer(peers, peer, same, readings);
            &&& after[0] == (DiscoveryPeerView { ip_mac: after[0].ip_mac, ..peer })
            &&& match first_set(same, peers.len() as int) {
                Some(i) => 0 <= i < peers.len() && same[i] && after.len() == peers.len()
                    && after.drop_first() == peers.remove(i),
                None => after.len() == peers.len() + 1 && after.drop_first() == peers && after[0]
                    == peer,
            }
        }),
{
    let after = with_peer(peers, peer, same, readings);
    law_first_record_is_replaced(same, peers.len() as int);
    match first_set(same, peers.len() as int) {
        Some(i) => assert(after.drop_first() =~= peers.remove(i)),
        None => assert(after.drop_first() =~= peers),
    }
}

/// Of the records of a peer, it is the first that a new one takes the place of; and
/// a record is replaced exactly if there is one.
pub proof fn law_first_record_is_replaced(same: Seq<bool>, n: int)
    ensures
        match first_set(same, n) {
            Some(i) => 0 <= i < n && i < same.len() && same[i] && (forall|j: int|
                0 <= j < i ==> !(#[trigger] same[j])),
            None => forall|j: int| 0 <= j < n && j < same.len() ==> !(#[trigger] same[j]),
        },
    decreases n,
{
    if n > 0 {
        law_first_record_is_replaced(same, n - 1);
    }
}

/// A device stays known at the endpoint where it was found before, if that is at an
/// IP address: the record that took the place of the one before is found there.
pub proof fn law_endpoint_before_still_leads_to_the_device(
    new: DiscoveryPeerView,
    before: DiscoveryPeerView,
    readings: ReadingsView,
)
    requires
        ip_host(before.endpoint, readings) is Some,
    ensures
        found_at(merged(new, before, readings), before.endpoint, readings),
{
}

/// Until a peer is found again it is marked as not reachable, and nothing else about
/// it changes.
pub proof fn law_offline_changes_nothing_else(peer: DiscoveryPeerView)
    ensures
        !offline(peer).online,
        peer == (DiscoveryPeerView { online: peer.online, ..offline(peer) }),
{
}

/// Whether `same_peer` tells which records are of the same peer: it is an equivalence
/// and does not depend on the recorded addresses.
pub open spec fn tells_peers_apart(
    same_peer: spec_fn(DiscoveryPeerView, DiscoveryPeerView) -> bool,
) -> bool {
    &&& forall|a: DiscoveryPeerView| #[trigger] same_peer(a, a)
    &&& forall|a: DiscoveryPeerView, b: DiscoveryPeerView| #[trigger]
        same_peer(a, b) ==> same_peer(b, a)
    &&& forall|a: DiscoveryPeerView, b: DiscoveryPeerView, c: DiscoveryPeerView|
        #![trigger same_peer(a, b), same_peer(b, c)]
        same_peer(a, b) && same_peer(b, c) ==> same_peer(a, c)
    &&& forall|a: DiscoveryPeerView, b: DiscoveryPeerView|
        #![trigger same_peer(a, b)]
        a == (DiscoveryPeerView { ip_mac: a.ip_mac, ..b }) ==> same_peer(a, b)
}

/// Whether no two of the records are of the same peer.
pub open spec fn one_record_each(
    peers: Seq<DiscoveryPeerView>,
    same_peer: spec_fn(DiscoveryPeerView, DiscoveryPeerView) -> bool,
) -> bool {
    forall|i: int, j: int|
        #![trigger peers[i], peers[j]]
        0 <= i < peers.len() && 0 <= j < peers.len() && i != j ==> !same_peer(peers[i], peers[j])
}

/// The list never gains a second record of a peer: if it holds one record of each
/// peer, it does so after a peer was found.
pub proof fn law_one_record_of_each_peer(
    peers: Seq<DiscoveryPeerView>,
    peer: DiscoveryPeerView,
    same: Seq<bool>,
    readings: ReadingsView,
    same_peer: spec_fn(DiscoveryPeerView, DiscoveryPeerView) -> bool,
)
    requires
        tells_peers_apart(same_peer),
        same.len() == peers.len(),
        forall|i: int| 0 <= i < peers.len() ==> #[trigger] same[i] == same_peer(peers[i], peer),
        one_record_each(peers, same_peer),
    ensures
        one_record_each(with_peer(peers, peer, same, readings), same_peer),
{
    let after = with_peer(peers, peer, same, readings);
    let place = first_set(same, peers.len() as int);
    law_first_record_is_replaced(same, peers.len() as int);
    assert(same_peer(after[0], peer));
    assert forall|k: int| 0 <= k < peers.len() && place != Some(k) implies !same_peer(
        #[trigger] peers[k],
        after[0],
    ) by {
        if same_peer(peers[k], after[0]) {
            assert(same_peer(peers[k], peer));
            assert(same[k]);
            match place {
                Some(i) => {
                    assert(same_peer(peers[i], peer));
                    assert(same_peer(peer, peers[i]));
                    assert(same_peer(peers[k], peers[i]));
                },
                None => {},
            }
        }
    }
    assert forall|i: int, j: int|
        #![trigger after[i], after[j]]
        0 <= i < after.len() && 0 <= j < after.len() && i != j implies !same_peer(
        after[i],
        after[j],
    ) by {
        let x = match place {
            Some(p) if i - 1 >= p => i,
            _ => i - 1,
        };
        let y = match place {
            Some(p) if j - 1 >= p => j,
            _ => j - 1,
        };
        assert(i > 0 ==> after[i] == peers[x]);
        assert(j > 0 ==> after[j] == peers[y]);
        if i == 0 {
            assert(!same_peer(peers[y], after[0]));
            assert(same_peer(after[0], peers[y]) ==> same_peer(peers[y], after[0]));
        } else if j == 0 {
            assert(!same_peer(peers[x], after[0]));
        }
    }
}

/// Going offline keeps one record of each peer, where being reachable does not make a
/// record one of another peer.
pub proof fn law_offline_keeps_one_record_of_each_peer(
    peers: Seq<DiscoveryPeerView>,
    same_peer: spec_fn(DiscoveryPeerView, DiscoveryPeerView) -> bool,
)
    requires
        forall|a: DiscoveryPeerView, b: DiscoveryPeerView| #[trigger]
            same_peer(offline(a), offline(b)) == same_peer(a, b),
        one_record_each(peers, same_peer),
    ensures
        one_record_each(peers.map_values(|p: DiscoveryPeerView| offline(p)), same_peer),
{
    let after = peers.map_values(|p: DiscoveryPeerView| offline(p));
    assert forall|i: int, j: int|
        #![trigger after[i], after[j]]
        0 <= i < after.len() && 0 <= j < after.len() && i != j implies !same_peer(
        after[i],
        after[j],
    ) by {
        assert(!same_peer(peers[i], peers[j]));
        assert(same_peer(offline(peers[i]), offline(peers[j])) == same_peer(peers[i], peers[j]));
    }
}

/// The record of a peer that was found again holds every address that was on record,
/// with the MAC address that was; every address that the peer was found at; the host
/// of the endpoint where it was before, if that is an IP address; and no other.
pub proof fn law_found_peer_takes_over_its_addresses(
    peers: Seq<DiscoveryPeerView>,
    peer: DiscoveryPeerView,
    same: Seq<bool>,
    readings: ReadingsView,
    i: int,
)
    requires
        0 <= i < peers.len(),
        i < same.len(),
        same[i],
        forall|j: int| 0 <= j < i ==> !(#[trigger] same[j]),
    ensures
        ({
            let after = with_peer(peers, peer, same, readings);
            let (own, before) = (peer.ip_mac, peers[i].ip_mac);
            let left = peers[i].endpoint;
            &&& after.len() == peers.len()
            &&& after[0] == (DiscoveryPeerView { ip_mac: after[0].ip_mac, ..peer })
            &&& after.drop_first() == peers.remove(i)
            &&& forall|k: Seq<char>| #[trigger]
                after[0].ip_mac.contains_key(k) <==> own.contains_key(k) || before.contains_key(k)
                    || readings.endpoints.contains_key(left) && readings.addresses.contains_key(k)
                    && readings.endpoints[left].host == k
            &&& forall|k: Seq<char>| #[trigger]
                before.contains_key(k) ==> after[0].ip_mac[k] == before[k]
            &&& forall|k: Seq<char>| #[trigger]
                own.contains_key(k) && !before.contains_key(k) ==> after[0].ip_mac[k] == own[k]
            &&& forall|k: Seq<char>| #[trigger]
                after[0].ip_mac.contains_key(k) && !own.contains_key(k) && !before.contains_key(k)
                    ==> after[0].ip_mac[k].len() == 0
        }),
{
    let n = peers.len() as int;
    law_first_record_is_replaced(same, n);
    match first_set(same, n) {
        Some(at) => {
            if at < i {
                assert(!same[at]);
            }
            if i < at {
                assert(!same[i]);
            }
        },
        None => {
            assert(!same[i]);
        },
    }
    assert(first_set(same, n) == Some(i));
    let after = with_peer(peers, peer, same, readings);
    assert(after.drop_first() =~= peers.remove(i));
}

/// A peer without a record is put in front of the list as it was found.
pub proof fn law_new_peer_is_entered_as_found(
    peers: Seq<DiscoveryPeerView>,
    peer: DiscoveryPeerView,
    same: Seq<bool>,
    readings: ReadingsView,
)
    requires
        forall|j: int| 0 <= j < peers.len() && j < same.len() ==> !(#[trigger] same[j]),
    ensures
        with_peer(peers, peer, same, readings) == seq![peer] + peers,
{
    law_first_record_is_replaced(same, peers.len() as int);
}

} // verus!
