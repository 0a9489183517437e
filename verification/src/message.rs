//! The messages of discovery, and how a device answers them.

use vstd::prelude::*;

use crate::announcement::announce;
use crate::announcement::announced_integers;
use crate::announcement::announcement_text;
use crate::announcement::configured_port;
use crate::announcement::escaped;
use crate::announcement::json_reading;
use crate::announcement::law_announcement_has_three_members;
use crate::announcement::law_named_port_is_listened_on;
use crate::announcement::listen_port;
use crate::device_name::display_name;
use crate::device_name::sanitized;
use crate::device_name::select_device_display_name;
use crate::endpoint::IpAddress;
use crate::endpoint::IpValue;
use crate::error::DiscoveryError;
use crate::interface::get_mac;
use crate::interface::mac_text_of;
use crate::interface::Interface;
use crate::number::decimal;
use crate::number::u16_value;
use crate::text::same_text;

verus! {

/// The UDP port of discovery.
pub const LAN_DISCOVERY_PORT: u16 = 21_119;

/// The IPv4 address that queries go to, which reaches all devices of the local
/// network.
pub const LAN_BROADCAST_ADDRESS: u32 = 0xffff_ffff;

/// A discovery message.
#[derive(Debug)]
pub struct PeerDiscovery {
    pub cmd: String,
    pub mac: String,
    pub id: String,
    pub username: String,
    pub hostname: String,
    pub platform: String,
    pub misc: String,
}

/// What a [`PeerDiscovery`] stands for.
pub struct PeerDiscoveryView {
    pub cmd: Seq<char>,
    pub mac: Seq<char>,
    pub id: Seq<char>,
    pub username: Seq<char>,
    pub hostname: Seq<char>,
    pub platform: Seq<char>,
    pub misc: Seq<char>,
}

impl View for PeerDiscovery {
    type V = PeerDiscoveryView;

    open spec fn view(&self) -> PeerDiscoveryView {
        PeerDiscoveryView {
            cmd: self.cmd@,
            mac: self.mac@,
            id: self.id@,
            username: self.username@,
            hostname: self.hostname@,
            platform: self.platform@,
            misc: self.misc@,
        }
    }
}

impl Default for PeerDiscovery {
    fn default() -> (message: Self)
        ensures
            message@ == (PeerDiscoveryView {
                cmd: seq![],
                mac: seq![],
                id: seq![],
                username: seq![],
                hostname: seq![],
                platform: seq![],
                misc: seq![],
            }),
    {
        PeerDiscovery {
            cmd: String::new(),
            mac: String::new(),
            id: String::new(),
            username: String::new(),
            hostname: String::new(),
            platform: String::new(),
            misc: String::new(),
        }
    }
}

/// What decides whether this device lets itself be discovered.
#[derive(Debug)]
pub struct DiscoveryGate {
    /// The value of the option `lan-discovery-enabled`.
    pub discovery_option: String,
    /// Whether credentials for access over the local network are set up.
    pub credentials_configured: bool,
    /// Whether the service has been told to stop.
    pub service_stopped: bool,
    /// Whether the sender's address is one that may use the service.
    pub source_allowed: bool,
}

impl DiscoveryGate {
    /// Whether this device lets itself be discovered by the sender.
    pub open spec fn is_open(self) -> bool {
        &&& self.discovery_option@ != "N"@
        &&& self.credentials_configured
        &&& !self.service_stopped
        &&& self.source_allowed
    }
}

/// What a device tells of itself.
#[derive(Debug)]
pub struct DeviceProfile {
    /// The name that the user has chosen.
    pub custom_name: String,
    /// The name that the system has.
    pub system_hostname: String,
    pub platform: String,
    /// The value of the option `lan-listen-port`.
    pub listen_port_option: String,
    pub protocol_version: u64,
    /// The port of a service for which no port is named.
    pub default_port: u16,
}

impl DeviceProfile {
    /// The port of the service.
    pub open spec fn port(self) -> u16 {
        configured_port(self.listen_port_option@, self.default_port)
    }

    /// The name under which the device shows up.
    pub open spec fn name(self) -> Seq<char> {
        display_name(self.custom_name@, self.system_hostname@)
    }
}

/// The query of the device with the fingerprint.
pub open spec fn ping(fingerprint: Seq<char>) -> PeerDiscoveryView {
    PeerDiscoveryView {
        cmd: "ping"@,
        mac: seq![],
        id: fingerprint,
        username: seq![],
        hostname: seq![],
        platform: seq![],
        misc: seq![],
    }
}

/// The reply of a device whose address towards the sender is `local`.
pub open spec fn pong(
    local: IpValue,
    interfaces: Seq<Interface>,
    fingerprint: Seq<char>,
    profile: DeviceProfile,
) -> PeerDiscoveryView {
    PeerDiscoveryView {
        cmd: "pong"@,
        mac: mac_text_of(interfaces, local),
        id: fingerprint,
        username: seq![],
        hostname: profile.name(),
        platform: profile.platform@,
        misc: announcement_text(profile.protocol_version, profile.port(), fingerprint),
    }
}

/// Whether the message is a query that is let through.
pub open spec fn admits(message: PeerDiscoveryView, gate: DiscoveryGate) -> bool {
    message.cmd == "ping"@ && gate.is_open()
}

/// Whether the device with the fingerprint answers the message.
pub open spec fn answers(
    message: PeerDiscoveryView,
    gate: DiscoveryGate,
    fingerprint: Seq<char>,
) -> bool {
    admits(message, gate) && message.id != fingerprint
}

/// The UDP port that queries go to.
pub fn get_broadcast_port() -> (port: u16)
    ensures
        port == LAN_DISCOVERY_PORT,
{
    LAN_DISCOVERY_PORT
}

/// Whether a discovery message is a query that is let through.
pub fn ping_admitted(message: &PeerDiscovery, gate: &DiscoveryGate) -> (r: bool)
    ensures
        r == admits(message@, *gate),
{
    same_text(message.cmd.as_str(), "ping") && !same_text(gate.discovery_option.as_str(), "N")
        && gate.credentials_configured && !gate.service_stopped && gate.source_allowed
}

/// Whether the device with the fingerprint answers a discovery message.
pub fn answers_message(message: &PeerDiscovery, gate: &DiscoveryGate, fingerprint: &str) -> (r: bool)
    ensures
        r == answers(message@, *gate, fingerprint@),
{
    ping_admitted(message, gate) && !same_text(message.id.as_str(), fingerprint)
}

/// The query to broadcast from `sockets` sockets.
pub fn discovery_query(sockets: usize, fingerprint: &str) -> (query: Result<
    PeerDiscovery,
    DiscoveryError,
>)
    ensures
        match query {
            Ok(message) => sockets > 0 && message@ == ping(fingerprint@),
            Err(error) => sockets == 0 && error is NoBindableAddress,
        },
{
    if sockets == 0 {
        return Err(DiscoveryError::NoBindableAddress);
    }
    let mut message: PeerDiscovery = PeerDiscovery::default();
    message.cmd = "ping".to_owned();
    message.id = fingerprint.to_owned();
    Ok(message)
}

/// The reply to a query, from the device whose address towards the sender is
/// `local`.
pub fn pong_reply(
    local: &IpAddress,
    interfaces: &[Interface],
    fingerprint: &str,
    profile: &DeviceProfile,
) -> (reply: PeerDiscovery)
    ensures
        reply@ == pong(local.value, interfaces@, fingerprint@, *profile),
        json_reading(reply@.misc) == Some(
            announced_integers(profile.protocol_version, profile.port()),
        ),
{
    let port: u16 = listen_port(profile.listen_port_option.as_str(), profile.default_port);
    PeerDiscovery {
        cmd: "pong".to_owned(),
        mac: get_mac(local, interfaces),
        id: fingerprint.to_owned(),
        username: String::new(),
        hostname: select_device_display_name(
            profile.custom_name.as_str(),
            profile.system_hostname.as_str(),
        ),
        platform: profile.platform.clone(),
        misc: announce(profile.protocol_version, port, fingerprint),
    }
}

/// What the device with the fingerprint sends back for a discovery message: a reply
/// to a query of another device that is let through, if the device has an address
/// towards the sender, and nothing otherwise.
pub fn listener_reply(
    message: &PeerDiscovery,
    gate: &DiscoveryGate,
    fingerprint: &str,
    local: Option<&IpAddress>,
    interfaces: &[Interface],
    profile: &DeviceProfile,
) -> (reply: Option<PeerDiscovery>)
    ensures
        match reply {
            Some(r) => {
                &&& answers(message@, *gate, fingerprint@)
                &&& local is Some
                &&& r@ == pong(local->0.value, interfaces@, fingerprint@, *profile)
                &&& json_reading(r@.misc) == Some(
                    announced_integers(profile.protocol_version, profile.port()),
                )
            },
            None => !answers(message@, *gate, fingerprint@) || local is None,
        },
{
    if !answers_message(message, gate, fingerprint) {
        return None;
    }
    match local {
        Some(address) => Some(pong_reply(address, interfaces, fingerprint, profile)),
        None => None,
    }
}

/// Succeeds if at least one way of finding peers could be started.
pub fn check_transports(udp_started: bool, mdns_started: bool) -> (r: Result<(), DiscoveryError>)
    ensures
        match r {
            Ok(_) => udp_started || mdns_started,
            Err(error) => !udp_started && !mdns_started && error is NoTransport,
        },
{
    if udp_started || mdns_started {
        Ok(())
    } else {
        Err(DiscoveryError::NoTransport)
    }
}

/// A device answers the query of another one exactly if its gate is open, and never
/// its own query.
pub proof fn law_queries_of_others_are_answered(
    gate: DiscoveryGate,
    asking: Seq<char>,
    asked: Seq<char>,
)
    ensures
        asking != asked ==> answers(ping(asking), gate, asked) == gate.is_open(),
        !answers(ping(asked), gate, asked),
{
}

/// A reply is answered by nobody: discovery ends after one exchange.
pub proof fn law_replies_are_not_answered(
    local: IpValue,
    interfaces: Seq<Interface>,
    fingerprint: Seq<char>,
    profile: DeviceProfile,
    gate: DiscoveryGate,
    asked: Seq<char>,
)
    ensures
        !answers(pong(local, interfaces, fingerprint, profile), gate, asked),
{
    reveal_strlit("ping");
    reveal_strlit("pong");
    assert("ping"@[1] != "pong"@[1]);
}

/// A message is answered exactly if it is a query of another device, discovery is
/// not switched off, credentials are set up, the service runs, and the sender is
/// allowed.
pub proof fn law_what_is_answered(
    message: PeerDiscoveryView,
    gate: DiscoveryGate,
    fingerprint: Seq<char>,
)
    ensures
        answers(message, gate, fingerprint) <==> {
            &&& message.cmd == "ping"@
            &&& message.id != fingerprint
            &&& gate.discovery_option@ != "N"@
            &&& gate.credentials_configured
            &&& !gate.service_stopped
            &&& gate.source_allowed
        },
{
}

/// A query tells the fingerprint of who asks, and nothing else.
pub proof fn law_query_tells_the_fingerprint_only(fingerprint: Seq<char>)
    ensures
        ping(fingerprint).cmd == "ping"@,
        ping(fingerprint).id == fingerprint,
        ping(fingerprint).mac.len() == 0,
        ping(fingerprint).username.len() == 0,
        ping(fingerprint).hostname.len() == 0,
        ping(fingerprint).platform.len() == 0,
        ping(fingerprint).misc.len() == 0,
{
}

/// The service of a device is at the port that its option names, and at its default
/// port if the option names none or zero.
pub proof fn law_service_is_at_the_named_port(profile: DeviceProfile)
    ensures
        u16_value(profile.listen_port_option@) matches Some(port) && port > 0 ==> profile.port()
            == u16_value(profile.listen_port_option@)->0,
        u16_value(profile.listen_port_option@) is None || u16_value(profile.listen_port_option@)
            == Some(0u16) ==> profile.port() == profile.default_port,
        forall|n: u16|
            n > 0 && profile.listen_port_option@ == #[trigger] decimal(n as nat) ==> profile.port()
                == n,
{
    law_named_port_is_listened_on(profile.listen_port_option@, profile.default_port);
}

/// The name of a device is the one that the user has chosen, once made fit; if that
/// is empty the one of the system, and if that is empty too a fixed one.
pub proof fn law_chosen_name_goes_first(profile: DeviceProfile)
    ensures
        sanitized(profile.custom_name@).len() > 0 ==> profile.name() == sanitized(
            profile.custom_name@,
        ),
        sanitized(profile.custom_name@).len() == 0 && sanitized(profile.system_hostname@).len() > 0
            ==> profile.name() == sanitized(profile.system_hostname@),
        sanitized(profile.custom_name@).len() == 0 && sanitized(profile.system_hostname@).len()
            == 0 ==> profile.name() == "SubnetDesk"@,
{
}

/// A reply tells the fingerprint, the name, the platform, the MAC address that goes
/// with the address towards the sender, and in JSON the port of the service and the
/// version of the protocol.
pub proof fn law_reply_tells_all(
    local: IpValue,
    interfaces: Seq<Interface>,
    fingerprint: Seq<char>,
    profile: DeviceProfile,
)
    ensures
        ({
            let reply = pong(local, interfaces, fingerprint, profile);
            &&& reply.cmd == "pong"@
            &&& reply.id == fingerprint
            &&& reply.mac == mac_text_of(interfaces, local)
            &&& reply.username.len() == 0
            &&& reply.hostname == profile.name()
            &&& reply.platform == profile.platform@
            &&& reply.misc == "{\"fingerprint\":\""@ + escaped(fingerprint) + "\",\"port\":"@
                + decimal(profile.port() as nat) + ",\"protocol_version\":"@ + decimal(
                profile.protocol_version as nat,
            ) + "}"@
        }),
{
    law_announcement_has_three_members(profile.protocol_version, profile.port(), fingerprint);
}

} // verus!
