//! Waiting for the replies to a query.

use vstd::prelude::*;

use crate::announcement::announced_integers;
use crate::announcement::announced_port;
use crate::announcement::json_reading;
use crate::announcement::law_announced_port_is_read_back;
use crate::announcement::read_announced_port;
use crate::endpoint::endpoint_at;
use crate::endpoint::endpoint_text;
use crate::endpoint::IpAddress;
use crate::endpoint::IpAddressView;
use crate::endpoint::IpValue;
use crate::interface::get_mac;
use crate::interface::mac_text_of;
use crate::interface::Interface;
use crate::message::answers;
use crate::message::law_queries_of_others_are_answered;
use crate::message::ping;
use crate::message::pong;
use crate::message::DeviceProfile;
use crate::message::DiscoveryGate;
use crate::message::PeerDiscovery;
use crate::message::PeerDiscoveryView;
use crate::peer::has_fingerprint_form;
use crate::peer::is_fingerprint;
use crate::peer::DiscoveryPeer;
use crate::peer::DiscoveryPeerView;
use crate::text::same_text;
use crate::text_map::TextMap;

verus! {

/// After how long a silence, in milliseconds, no more replies are awaited.
pub const SILENCE_LIMIT_MS: u128 = 3_000;

/// What a datagram is to one who waits for replies.
#[derive(Clone, Copy, Debug, PartialEq, Eq, Structural)]
pub enum ResponseKind {
    /// No discovery message at all.
    Unrelated,
    /// A discovery message, but no reply.
    NoReply,
    /// A reply whose fingerprint does not have the form of one.
    BadFingerprint,
    /// A reply.
    Reply,
}

impl ResponseKind {
    /// Whether the datagram breaks the silence.
    pub open spec fn breaks_silence(self) -> bool {
        self != ResponseKind::Unrelated
    }

    /// Whether the datagram breaks the silence: every discovery message does.
    pub fn is_heard(&self) -> (r: bool)
        ensures
            r == self.breaks_silence(),
    {
        match self {
            ResponseKind::Unrelated => false,
            _ => true,
        }
    }
}

/// What a discovery message is to one who waits for replies.
pub open spec fn kind_of(message: Option<PeerDiscoveryView>) -> ResponseKind {
    match message {
        None => ResponseKind::Unrelated,
        Some(m) => if m.cmd != "pong"@ {
            ResponseKind::NoReply
        } else if !is_fingerprint(m.id) {
            ResponseKind::BadFingerprint
        } else {
            ResponseKind::Reply
        },
    }
}

/// What a datagram is, given the discovery message that it holds, if it holds one.
pub fn classify_response(message: Option<&PeerDiscovery>) -> (kind: ResponseKind)
    ensures
        kind == kind_of(
            match message {
                Some(m) => Some(m@),
                None => None,
            },
        ),
{
    match message {
        None => ResponseKind::Unrelated,
        Some(m) => if !same_text(m.cmd.as_str(), "pong") {
            ResponseKind::NoReply
        } else if !has_fingerprint_form(m.id.as_str()) {
            ResponseKind::BadFingerprint
        } else {
            ResponseKind::Reply
        },
    }
}

/// Whether waiting ends after a datagram, or after none came in time, when the
/// silence has lasted for `silence_ms`. A reply with a bad fingerprint is passed
/// over without a look at the time.
pub open spec fn ends_waiting(kind: ResponseKind, silence_ms: u128) -> bool {
    kind != ResponseKind::BadFingerprint && silence_ms > SILENCE_LIMIT_MS
}

/// Whether waiting ends.
pub fn waiting_is_over(kind: ResponseKind, silence_ms: u128) -> (r: bool)
    ensures
        r == ends_waiting(kind, silence_ms),
{
    match kind {
        ResponseKind::BadFingerprint => false,
        _ => silence_ms > SILENCE_LIMIT_MS,
    }
}

/// The peer that a reply from the address tells of.
pub open spec fn peer_from(
    reply: PeerDiscoveryView,
    source: IpAddressView,
    port: u16,
) -> DiscoveryPeerView {
    DiscoveryPeerView {
        id: endpoint_text(source, port),
        endpoint: endpoint_text(source, port),
        fingerprint: reply.id,
        ip_mac: Map::<Seq<char>, Seq<char>>::empty().insert(source.text, reply.mac),
        username: reply.username,
        hostname: reply.hostname,
        platform: reply.platform,
        online: true,
    }
}

/// Whether a reply comes from another device than this one: the MAC addresses
/// differ, or neither side knows one.
pub open spec fn is_from_another_device(local_mac: Seq<char>, reply_mac: Seq<char>) -> bool {
    local_mac.len() == 0 && reply_mac.len() == 0 || local_mac != reply_mac
}

/// The peer that a reply from the address tells of, at the port.
pub fn peer_at(reply: &PeerDiscovery, source: &IpAddress, port: u16) -> (peer: DiscoveryPeer)
    ensures
        peer@ == peer_from(reply@, source@, port),
{
    let endpoint: String = endpoint_at(source, port);
    let mut ip_mac: TextMap<String> = TextMap::new();
    ip_mac.insert(source.text.clone(), reply.mac.clone());
    DiscoveryPeer {
        id: endpoint.clone(),
        endpoint,
        fingerprint: reply.id.clone(),
        ip_mac,
        username: reply.username.clone(),
        hostname: reply.hostname.clone(),
        platform: reply.platform.clone(),
        online: true,
    }
}

/// The waiting for replies at one socket.
pub struct ResponseWaiter {
    /// The address that the socket is bound to, if it is a particular one.
    bound: Option<IpAddress>,
    /// The MAC address that goes with it, once it has been looked up.
    mac: Option<String>,
}

impl ResponseWaiter {
    /// The particular address that the socket is bound to, if it is bound to one.
    /// Otherwise the address of this device is looked up for each reply.
    pub closed spec fn bound_to(self) -> Option<IpValue> {
        match self.bound {
            Some(address) => Some(address.value),
            None => None,
        }
    }

    /// The MAC address that was looked up for the bound address.
    pub closed spec fn known_mac(self) -> Option<Seq<char>> {
        match self.mac {
            Some(mac) => Some(mac@),
            None => None,
        }
    }

    /// The MAC address of this device towards a sender: the one that goes with the
    /// bound address, looked up once; or if the socket is bound to none in
    /// particular, the one that goes with the address of the route, if there is one.
    pub open spec fn mac_towards(
        self,
        route: Option<IpValue>,
        interfaces: Seq<Interface>,
    ) -> Seq<char> {
        match (self.bound_to(), self.known_mac()) {
            (Some(_), Some(mac)) => mac,
            (Some(ip), None) => mac_text_of(interfaces, ip),
            (None, _) => match route {
                Some(ip) => mac_text_of(interfaces, ip),
                None => seq![],
            },
        }
    }

    /// Waiting at a socket whose local address is `local`, if that is known.
    pub fn new(local: Option<IpAddress>) -> (waiter: Self)
        ensures
            waiter.bound_to() == match local {
                Some(address) if !address.value.unspecified() => Some(address.value),
                _ => None,
            },
            waiter.known_mac() is None,
    {
        let bound: Option<IpAddress> = match local {
            Some(address) => if address.value.is_unspecified() {
                None
            } else {
                Some(address)
            },
            None => None,
        };
        ResponseWaiter { bound, mac: None }
    }

    /// Whether the route to each sender has to be looked up.
    pub fn needs_route(&self) -> (r: bool)
        ensures
            r == (self.bound_to() is None),
    {
        self.bound.is_none()
    }

    /// Whether the interfaces have to be looked at for the next reply.
    pub fn needs_interfaces(&self) -> (r: bool)
        ensures
            r == (self.bound_to() is None || self.known_mac() is None),
    {
        self.bound.is_none() || self.mac.is_none()
    }

    /// The MAC address of this device towards a sender.
    pub fn local_mac(&mut self, route: Option<&IpAddress>, interfaces: &[Interface]) -> (mac: String)
        ensures
            mac@ == old(self).mac_towards(
                match route {
                    Some(address) => Some(address.value),
                    None => None,
                },
                interfaces@,
            ),
            final(self).bound_to() == old(self).bound_to(),
            final(self).known_mac() == match old(self).bound_to() {
                Some(_) => Some(mac@),
                None => old(self).known_mac(),
            },
    {
        match &self.bound {
            None => match route {
                Some(address) => get_mac(address, interfaces),
                None => String::new(),
            },
            Some(address) => {
                let mac: String = match &self.mac {
                    Some(known) => known.clone(),
                    None => get_mac(address, interfaces),
                };
                self.mac = Some(mac.clone());
                mac
            },
        }
    }

    /// The peer that a message from `source` tells of, if it is a reply and not from
    /// this device itself.
    pub fn receive(
        &mut self,
        message: &PeerDiscovery,
        source: &IpAddress,
        route: Option<&IpAddress>,
        interfaces: &[Interface],
        default_port: u16,
    ) -> (peer: Option<DiscoveryPeer>)
        ensures
            kind_of(Some(message@)) != ResponseKind::Reply ==> peer is None && *final(self) == *old(
                self,
            ),
            kind_of(Some(message@)) == ResponseKind::Reply ==> ({
                let mac = old(self).mac_towards(
                    match route {
                        Some(address) => Some(address.value),
                        None => None,
                    },
                    interfaces@,
                );
                &&& match peer {
                    Some(p) => is_from_another_device(mac, message@.mac) && p@ == peer_from(
                        message@,
                        source@,
                        announced_port(message@.misc, default_port),
                    ),
                    None => !is_from_another_device(mac, message@.mac),
                }
                &&& final(self).bound_to() == old(self).bound_to()
                &&& final(self).known_mac() == match old(self).bound_to() {
                    Some(_) => Some(mac),
                    None => old(self).known_mac(),
                }
            }),
    {
        match classify_response(Some(message)) {
            ResponseKind::Reply => {},
            _ => {
                return None;
            },
        }
        let port: u16 = read_announced_port(message.misc.as_str(), default_port);
        let local: String = self.local_mac(route, interfaces);
        if local.as_str().is_empty() && message.mac.as_str().is_empty() || local != message.mac {
            Some(peer_at(message, source, port))
        } else {
            None
        }
    }
}

/// A reply of a device with a proper fingerprint is taken for a reply, and tells of
/// that device as it is: its fingerprint, its name, its platform, its MAC address
/// for the address that the reply came from, and the port of its service there.
pub proof fn law_reply_tells_of_the_device(
    reply: PeerDiscoveryView,
    local: IpValue,
    interfaces: Seq<Interface>,
    fingerprint: Seq<char>,
    profile: DeviceProfile,
    source: IpAddressView,
    default_port: u16,
)
    requires
        is_fingerprint(fingerprint),
        reply == pong(local, interfaces, fingerprint, profile),
        json_reading(reply.misc) == Some(
            announced_integers(profile.protocol_version, profile.port()),
        ),
    ensures
        kind_of(Some(reply)) == ResponseKind::Reply,
        ({
            let port = if profile.port() > 0 {
                profile.port()
            } else {
                default_port
            };
            let peer = peer_from(reply, source, announced_port(reply.misc, default_port));
            &&& peer.fingerprint == fingerprint
            &&& peer.hostname == profile.name()
            &&& peer.platform == profile.platform@
            &&& peer.endpoint == endpoint_text(source, port)
            &&& peer.ip_mac.contains_key(source.text)
            &&& peer.ip_mac[source.text] == mac_text_of(interfaces, local)
            &&& peer.online
        }),
{
    law_announced_port_is_read_back(
        reply.misc,
        profile.protocol_version,
        profile.port(),
        default_port,
    );
}

/// Two devices find each other: the query of one is answered by the other exactly if
/// its gate is open, and the reply is taken for one and tells of the other's
/// fingerprint and of the endpoint of its service.
pub proof fn law_exchange_finds_the_device(
    asking: Seq<char>,
    gate: DiscoveryGate,
    fingerprint: Seq<char>,
    local: IpValue,
    interfaces: Seq<Interface>,
    profile: DeviceProfile,
    reply: PeerDiscoveryView,
    source: IpAddressView,
    default_port: u16,
)
    requires
        asking != fingerprint,
        is_fingerprint(fingerprint),
        profile.port() > 0,
        reply == pong(local, interfaces, fingerprint, profile),
        json_reading(reply.misc) == Some(
            announced_integers(profile.protocol_version, profile.port()),
        ),
    ensures
        answers(ping(asking), gate, fingerprint) == gate.is_open(),
        kind_of(Some(reply)) == ResponseKind::Reply,
        ({
            let peer = peer_from(reply, source, announced_port(reply.misc, default_port));
            &&& peer.fingerprint == fingerprint
            &&& peer.endpoint == endpoint_text(source, profile.port())
        }),
{
    law_queries_of_others_are_answered(gate, asking, fingerprint);
    law_reply_tells_of_the_device(
        reply,
        local,
        interfaces,
        fingerprint,
        profile,
        source,
        default_port,
    );
}

/// A device does not list itself: its own MAC address in a reply, if it has one, is
/// recognised.
pub proof fn law_own_reply_is_recognised(mac: Seq<char>)
    requires
        mac.len() > 0,
    ensures
        !is_from_another_device(mac, mac),
{
}

/// The MAC address of a bound socket is looked up once: from then on neither the
/// route nor the interfaces matter.
pub proof fn law_bound_mac_stays(
    waiter: ResponseWaiter,
    mac: Seq<char>,
    route: Option<IpValue>,
    interfaces: Seq<Interface>,
)
    requires
        waiter.bound_to() is Some,
        waiter.known_mac() == Some(mac),
    ensures
        waiter.mac_towards(route, interfaces) == mac,
{
}

/// What a datagram is: a reply exactly if it holds a discovery message with the
/// command `pong` and a proper fingerprint.
pub proof fn law_what_is_a_reply(message: PeerDiscoveryView)
    ensures
        kind_of(None) == ResponseKind::Unrelated,
        message.cmd != "pong"@ ==> kind_of(Some(message)) == ResponseKind::NoReply,
        message.cmd == "pong"@ && is_fingerprint(message.id) ==> kind_of(Some(message))
            == ResponseKind::Reply,
        message.cmd == "pong"@ && !is_fingerprint(message.id) ==> kind_of(Some(message))
            == ResponseKind::BadFingerprint,
{
}

/// Every discovery message breaks the silence, and nothing else does.
pub proof fn law_discovery_messages_break_the_silence(message: PeerDiscoveryView)
    ensures
        kind_of(Some(message)).breaks_silence(),
        !kind_of(None).breaks_silence(),
{
}

/// Waiting ends after a silence of more than three seconds, whatever came in last but
/// a reply with a bad fingerprint, after which it always goes on.
pub proof fn law_waiting_ends_after_silence(kind: ResponseKind, silence_ms: u128)
    ensures
        silence_ms > 3_000 && kind != ResponseKind::BadFingerprint ==> ends_waiting(
            kind,
            silence_ms,
        ),
        silence_ms <= 3_000 || kind == ResponseKind::BadFingerprint ==> !ends_waiting(
            kind,
            silence_ms,
        ),
{
}

/// A reply is of another device wherever the MAC addresses differ, and where neither
/// is known; the same MAC address on both sides is that of this device.
pub proof fn law_different_macs_are_different_devices(
    local_mac: Seq<char>,
    reply_mac: Seq<char>,
)
    ensures
        local_mac != reply_mac ==> is_from_another_device(local_mac, reply_mac),
        local_mac.len() == 0 && reply_mac.len() == 0 ==> is_from_another_device(
            local_mac,
            reply_mac,
        ),
        local_mac == reply_mac && local_mac.len() > 0 ==> !is_from_another_device(
            local_mac,
            reply_mac,
        ),
{
    if local_mac.len() == 0 && reply_mac.len() == 0 {
        assert(local_mac =~= reply_mac);
    }
}

/// A peer is entered as its reply tells of it, at the address that the reply came
/// from, and as reachable.
pub proof fn law_peer_is_entered_as_told(
    reply: PeerDiscoveryView,
    source: IpAddressView,
    port: u16,
)
    ensures
        ({
            let peer = peer_from(reply, source, port);
            &&& peer.endpoint == endpoint_text(source, port)
            &&& peer.id == peer.endpoint
            &&& peer.fingerprint == reply.id
            &&& peer.ip_mac.dom() == set![source.text]
            &&& peer.ip_mac[source.text] == reply.mac
            &&& peer.username == reply.username
            &&& peer.hostname == reply.hostname
            &&& peer.platform == reply.platform
            &&& peer.online
        }),
{
    assert(peer_from(reply, source, port).ip_mac.dom() =~= set![source.text]);
}

/// The MAC address of this device towards a sender: at a bound socket the one that
/// goes with the bound address, whatever the route; at another socket the one that
/// goes with the address of the route, and none without a route.
pub proof fn law_local_mac_goes_with_the_socket(
    waiter: ResponseWaiter,
    route: Option<IpValue>,
    interfaces: Seq<Interface>,
)
    ensures
        waiter.bound_to() matches Some(ip) && waiter.known_mac() is None ==> waiter.mac_towards(
            route,
            interfaces,
        ) == mac_text_of(interfaces, waiter.bound_to()->0),
        waiter.bound_to() is Some && waiter.known_mac() is Some ==> waiter.mac_towards(
            route,
            interfaces,
        ) == waiter.known_mac()->0,
        waiter.bound_to() is None && route is Some ==> waiter.mac_towards(route, interfaces)
            == mac_text_of(interfaces, route->0),
        waiter.bound_to() is None && route is None ==> waiter.mac_towards(
            route,
            interfaces,
        ).len() == 0,
{
}

} // verus!
