//! What is known of other devices.

use vstd::prelude::*;

use crate::text::ascii_lower;
use crate::text::chars_of;
use crate::text::is_hex_digit;
use crate::text::law_hex_digits;
use crate::text::law_lower_case_changes_capitals_only;
use crate::text_map::TextMap;

verus! {

/// An endpoint that was connected to lately, and the fingerprint found there.
#[derive(Clone, Debug)]
pub struct RecentLanEndpoint {
    pub endpoint: String,
    pub fingerprint: String,
}

impl Default for RecentLanEndpoint {
    fn default() -> (recent: Self)
        ensures
            recent.endpoint@.len() == 0,
            recent.fingerprint@.len() == 0,
    {
        RecentLanEndpoint { endpoint: String::new(), fingerprint: String::new() }
    }
}

/// A device that discovery has found.
pub struct DiscoveryPeer {
    pub id: String,
    pub endpoint: String,
    pub fingerprint: String,
    /// The MAC address for each address at which the device was seen.
    pub ip_mac: TextMap<String>,
    pub username: String,
    pub hostname: String,
    pub platform: String,
    pub online: bool,
}

/// What a [`DiscoveryPeer`] stands for.
pub struct DiscoveryPeerView {
    pub id: Seq<char>,
    pub endpoint: Seq<char>,
    pub fingerprint: Seq<char>,
    pub ip_mac: Map<Seq<char>, Seq<char>>,
    pub username: Seq<char>,
    pub hostname: Seq<char>,
    pub platform: Seq<char>,
    pub online: bool,
}

impl View for DiscoveryPeer {
    type V = DiscoveryPeerView;

    open spec fn view(&self) -> DiscoveryPeerView {
        DiscoveryPeerView {
            id: self.id@,
            endpoint: self.endpoint@,
            fingerprint: self.fingerprint@,
            ip_mac: self.ip_mac@,
            username: self.username@,
            hostname: self.hostname@,
            platform: self.platform@,
            online: self.online,
        }
    }
}

impl Default for DiscoveryPeer {
    fn default() -> (peer: Self)
        ensures
            peer@ == (DiscoveryPeerView {
                id: seq![],
                endpoint: seq![],
                fingerprint: seq![],
                ip_mac: Map::empty(),
                username: seq![],
                hostname: seq![],
                platform: seq![],
                online: false,
            }),
    {
        DiscoveryPeer {
            id: String::new(),
            endpoint: String::new(),
            fingerprint: String::new(),
            ip_mac: TextMap::new(),
            username: String::new(),
            hostname: String::new(),
            platform: String::new(),
            online: false,
        }
    }
}

/// What a list of peers stands for.
pub open spec fn peer_views(peers: Seq<DiscoveryPeer>) -> Seq<DiscoveryPeerView> {
    peers.map_values(|p: DiscoveryPeer| p@)
}

/// The length of a fingerprint, in hexadecimal digits.
pub const FINGERPRINT_DIGITS: usize = 64;

/// Whether `s` has the form of a fingerprint.
pub open spec fn is_fingerprint(s: Seq<char>) -> bool {
    &&& s.len() == FINGERPRINT_DIGITS
    &&& forall|i: int| 0 <= i < s.len() ==> is_hex_digit(#[trigger] s[i])
}

/// Whether `s` has the form of a fingerprint.
pub fn has_fingerprint_form(s: &str) -> (r: bool)
    ensures
        r == is_fingerprint(s@),
{
    let chars: Vec<char> = chars_of(s);
    if chars.len() != FINGERPRINT_DIGITS {
        return false;
    }
    for i in 0..chars.len()
        invariant
            chars@ == s@,
            forall|j: int| 0 <= j < i ==> is_hex_digit(#[trigger] s@[j]),
    {
        let c: char = chars[i];
        if !(('0' <= c && c <= '9') || ('a' <= c && c <= 'f') || ('A' <= c && c <= 'F')) {
            assert(!is_hex_digit(s@[i as int]));
            return false;
        }
    }
    true
}

/// A fingerprint is 64 hexadecimal digits, and remains one in lower case.
pub proof fn law_fingerprint_form(s: Seq<char>)
    ensures
        is_fingerprint(s) <==> s.len() == 64 && forall|i: int|
            0 <= i < 64 ==> "0123456789abcdefABCDEF"@.contains(#[trigger] s[i]),
        is_fingerprint(ascii_lower(s)) == is_fingerprint(s),
{
    assert forall|i: int| 0 <= i < s.len() implies is_hex_digit(#[trigger] s[i])
        == "0123456789abcdefABCDEF"@.contains(s[i]) by {
        law_hex_digits(s[i]);
    }
    let lower = ascii_lower(s);
    assert forall|i: int| 0 <= i < s.len() implies is_hex_digit(#[trigger] lower[i])
        == is_hex_digit(s[i]) by {
        law_lower_case_changes_capitals_only(s, i);
    }
    if is_fingerprint(lower) {
        assert forall|i: int| 0 <= i < s.len() implies is_hex_digit(#[trigger] s[i]) by {
            assert(is_hex_digit(lower[i]));
        }
    }
    if is_fingerprint(s) {
        assert forall|i: int| 0 <= i < lower.len() implies is_hex_digit(#[trigger] lower[i]) by {
            assert(is_hex_digit(s[i]));
        }
        assert(forall|i: int|
            0 <= i < 64 ==> "0123456789abcdefABCDEF"@.contains(#[trigger] s[i]));
    }
}

/// A list of peers stands for what each of them holds.
pub proof fn law_peers_stand_for_what_they_hold(peers: Seq<DiscoveryPeer>, i: int)
    requires
        0 <= i < peers.len(),
    ensures
        ({
            let view = peer_views(peers)[i];
            &&& peer_views(peers).len() == peers.len()
            &&& view.id == peers[i].id@
            &&& view.endpoint == peers[i].endpoint@
            &&& view.fingerprint == peers[i].fingerprint@
            &&& view.ip_mac == peers[i].ip_mac@
            &&& view.username == peers[i].username@
            &&& view.hostname == peers[i].hostname@
            &&& view.platform == peers[i].platform@
            &&& view.online == peers[i].online
        }),
{
}

} // verus!
