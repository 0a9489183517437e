//! The network interfaces of this device.

use vstd::prelude::*;

use crate::endpoint::IpAddress;
use crate::endpoint::IpValue;
use crate::error::DiscoveryError;

verus! {

/// A network interface: its MAC address, and its addresses in either family.
#[derive(Debug)]
pub struct Interface {
    pub mac: Option<[u8; 6]>,
    pub ipv4: Vec<u32>,
    pub ipv6: Vec<u128>,
}

/// The lower-case hexadecimal digit with the value `d`.
pub open spec fn hex_digit(d: u8) -> char {
    if d < 10 {
        ((48 + d) as u8) as char
    } else {
        ((87 + d) as u8) as char
    }
}

/// A byte as two lower-case hexadecimal digits.
pub open spec fn hex_byte(b: u8) -> Seq<char> {
    seq![hex_digit(b / 16), hex_digit(b % 16)]
}

/// A MAC address in text: its bytes in hexadecimal, with colons between them.
pub open spec fn mac_text(octets: [u8; 6]) -> Seq<char> {
    hex_byte(octets@[0]) + seq![':'] + hex_byte(octets@[1]) + seq![':'] + hex_byte(octets@[2])
        + seq![':'] + hex_byte(octets@[3]) + seq![':'] + hex_byte(octets@[4]) + seq![':']
        + hex_byte(octets@[5])
}

/// `default_net::interface::MacAddr::address`, of the address that has the octets:
/// each byte as two lower-case hexadecimal digits, with colons between them.
#[verifier::external_body]
fn mac_address_text(octets: [u8; 6]) -> (text: String)
    ensures
        text@ == mac_text(octets),
{
    default_net::interface::MacAddr::new(octets).address()
}

/// Whether the interface has the address.
pub open spec fn has_address(interface: Interface, ip: IpValue) -> bool {
    match ip {
        IpValue::V4(bits) => interface.ipv4@.contains(bits),
        IpValue::V6(bits) => interface.ipv6@.contains(bits),
    }
}

/// The MAC address of the first interface that has the address and a MAC address.
pub open spec fn mac_of(interfaces: Seq<Interface>, ip: IpValue) -> Option<[u8; 6]>
    decreases interfaces.len(),
{
    if interfaces.len() == 0 {
        None
    } else if has_address(interfaces[0], ip) && interfaces[0].mac is Some {
        interfaces[0].mac
    } else {
        mac_of(interfaces.drop_first(), ip)
    }
}

/// The text of the MAC address for `ip`, which is empty where there is none.
pub open spec fn mac_text_of(interfaces: Seq<Interface>, ip: IpValue) -> Seq<char> {
    match mac_of(interfaces, ip) {
        Some(octets) => mac_text(octets),
        None => seq![],
    }
}

/// The IPv4 addresses of the interfaces, in their order.
pub open spec fn ipv4_addresses(interfaces: Seq<Interface>) -> Seq<u32>
    decreases interfaces.len(),
{
    if interfaces.len() == 0 {
        seq![]
    } else {
        ipv4_addresses(interfaces.drop_last()) + interfaces.last().ipv4@
    }
}

fn has_ip(interface: &Interface, ip: &IpValue) -> (r: bool)
    ensures
        r == has_address(*interface, *ip),
{
    match ip {
        IpValue::V4(bits) => {
            for i in 0..interface.ipv4.len()
                invariant
                    *ip == IpValue::V4(*bits),
                    forall|j: int| 0 <= j < i ==> interface.ipv4@[j] != *bits,
            {
                if interface.ipv4[i] == *bits {
                    return true;
                }
            }
            false
        },
        IpValue::V6(bits) => {
            for i in 0..interface.ipv6.len()
                invariant
                    *ip == IpValue::V6(*bits),
                    forall|j: int| 0 <= j < i ==> interface.ipv6@[j] != *bits,
            {
                if interface.ipv6[i] == *bits {
                    return true;
                }
            }
            false
        },
    }
}

/// The MAC address of the interface that has the address `ip`.
pub fn get_mac_by_ip(ip: &IpAddress, interfaces: &[Interface]) -> (mac: Result<
    String,
    DiscoveryError,
>)
    ensures
        match mac {
            Ok(text) => mac_of(interfaces@, ip.value) matches Some(octets) && text@ == mac_text(
                octets,
            ),
            Err(error) => mac_of(interfaces@, ip.value) is None && (
            error matches DiscoveryError::NoInterface(t) && t@ == ip.text@),
        },
{
    assert(interfaces@.skip(0) =~= interfaces@);
    for i in 0..interfaces.len()
        invariant
            mac_of(interfaces@, ip.value) == mac_of(interfaces@.skip(i as int), ip.value),
    {
        assert(interfaces@.skip(i as int).drop_first() =~= interfaces@.skip(i + 1));
        assert(interfaces@.skip(i as int)[0] == interfaces@[i as int]);
        if has_ip(&interfaces[i], &ip.value) {
            if let Some(octets) = interfaces[i].mac {
                return Ok(mac_address_text(octets));
            }
        }
    }
    Err(DiscoveryError::NoInterface(ip.text.clone()))
}

/// The MAC address of the interface that has the address `ip`, or an empty text.
pub fn get_mac(ip: &IpAddress, interfaces: &[Interface]) -> (mac: String)
    ensures
        mac@ == mac_text_of(interfaces@, ip.value),
{
    match get_mac_by_ip(ip, interfaces) {
        Ok(mac) => mac,
        Err(_) => String::new(),
    }
}

/// The IPv4 addresses of the interfaces, in their order.
pub fn list_ipv4(interfaces: &[Interface]) -> (addresses: Vec<u32>)
    ensures
        addresses@ == ipv4_addresses(interfaces@),
{
    let mut addresses: Vec<u32> = Vec::new();
    assert(interfaces@.take(0) =~= seq![]);
    for i in 0..interfaces.len()
        invariant
            addresses@ == ipv4_addresses(interfaces@.take(i as int)),
    {
        let ghost before = addresses@;
        let own: &Vec<u32> = &interfaces[i].ipv4;
        for j in 0..own.len()
            invariant
                addresses@ == before + own@.take(j as int),
        {
            addresses.push(own[j]);
            assert(own@.take(j + 1) =~= own@.take(j as int).push(own@[j as int]));
        }
        proof {
            assert(own@.take(own@.len() as int) =~= own@);
            assert(interfaces@.take(i + 1).drop_last() =~= interfaces@.take(i as int));
        }
    }
    assert(interfaces@.take(interfaces@.len() as int) =~= interfaces@);
    addresses
}

/// The addresses to send queries from: each IPv4 address of an interface, and for
/// robustness the unspecified one.
pub fn broadcast_addresses(interfaces: &[Interface]) -> (addresses: Vec<u32>)
    ensures
        addresses@ == ipv4_addresses(interfaces@).push(0),
{
    let mut addresses: Vec<u32> = list_ipv4(interfaces);
    addresses.push(0);
    addresses
}

proof fn lemma_hex_byte_is_injective(a: u8, b: u8)
    requires
        hex_byte(a) == hex_byte(b),
    ensures
        a == b,
{
    assert(hex_byte(a)[0] == hex_byte(b)[0]);
    assert(hex_byte(a)[1] == hex_byte(b)[1]);
    assert(a / 16 == b / 16);
    assert(a % 16 == b % 16);
}

/// Different MAC addresses have different texts, and none has the empty one.
pub proof fn law_mac_text_tells_addresses_apart(a: [u8; 6], b: [u8; 6])
    ensures
        mac_text(a).len() == 17,
        mac_text(a) == mac_text(b) ==> a@ == b@,
{
    let (x, y) = (mac_text(a), mac_text(b));
    if x == y {
        assert forall|i: int| 0 <= i < 6 implies #[trigger] a@[i] == b@[i] by {
            assert(x.subrange(3 * i, 3 * i + 2) =~= hex_byte(a@[i]));
            assert(y.subrange(3 * i, 3 * i + 2) =~= hex_byte(b@[i]));
            lemma_hex_byte_is_injective(a@[i], b@[i]);
        }
        assert(a@ =~= b@);
    }
}

/// Whether an address is one of the interface: it is in the list of its family.
pub proof fn law_address_of_an_interface(interface: Interface, ip: IpValue)
    ensures
        has_address(interface, ip) <==> match ip {
            IpValue::V4(bits) => exists|i: int|
                0 <= i < interface.ipv4@.len() && #[trigger] interface.ipv4@[i] == bits,
            IpValue::V6(bits) => exists|i: int|
                0 <= i < interface.ipv6@.len() && #[trigger] interface.ipv6@[i] == bits,
        },
{
}

/// The MAC address for an IP address is that of the first interface that has both.
pub proof fn law_first_interface_gives_the_mac(interfaces: Seq<Interface>, ip: IpValue, i: int)
    requires
        0 <= i < interfaces.len(),
        has_address(interfaces[i], ip),
        interfaces[i].mac is Some,
        forall|j: int|
            0 <= j < i ==> !has_address(#[trigger] interfaces[j], ip) || interfaces[j].mac is None,
    ensures
        mac_of(interfaces, ip) == interfaces[i].mac,
        mac_text_of(interfaces, ip) == mac_text(interfaces[i].mac->0),
    decreases i,
{
    if i > 0 {
        let rest = interfaces.drop_first();
        assert(!has_address(interfaces[0], ip) || interfaces[0].mac is None);
        assert forall|j: int| 0 <= j < i - 1 implies !has_address(#[trigger] rest[j], ip)
            || rest[j].mac is None by {
            assert(rest[j] == interfaces[j + 1]);
        }
        law_first_interface_gives_the_mac(rest, ip, i - 1);
    }
}

/// Without an interface that has the IP address and a MAC address there is none, and
/// the text is empty.
pub proof fn law_no_interface_gives_no_mac(interfaces: Seq<Interface>, ip: IpValue)
    requires
        forall|j: int|
            0 <= j < interfaces.len() ==> !has_address(#[trigger] interfaces[j], ip)
                || interfaces[j].mac is None,
    ensures
        mac_of(interfaces, ip) is None,
        mac_text_of(interfaces, ip).len() == 0,
    decreases interfaces.len(),
{
    if interfaces.len() > 0 {
        let rest = interfaces.drop_first();
        assert(!has_address(interfaces[0], ip) || interfaces[0].mac is None);
        assert forall|j: int| 0 <= j < rest.len() implies !has_address(#[trigger] rest[j], ip)
            || rest[j].mac is None by {
            assert(rest[j] == interfaces[j + 1]);
        }
        law_no_interface_gives_no_mac(rest, ip);
    }
}

/// The IPv4 addresses are those of each interface, one interface after the other.
pub proof fn law_ipv4_addresses_add_up(
    some: Seq<Interface>,
    interface: Interface,
    more: Seq<Interface>,
)
    ensures
        ipv4_addresses(seq![]).len() == 0,
        ipv4_addresses(seq![interface]) == interface.ipv4@,
        ipv4_addresses(some + more) == ipv4_addresses(some) + ipv4_addresses(more),
    decreases more.len(),
{
    assert(seq![interface].drop_last() =~= seq![]);
    assert(ipv4_addresses(seq![interface].drop_last()) =~= seq![]);
    assert(ipv4_addresses(seq![interface]) =~= interface.ipv4@);
    if more.len() == 0 {
        assert(some + more =~= some);
        assert(ipv4_addresses(some + more) =~= ipv4_addresses(some) + ipv4_addresses(more));
    } else {
        assert((some + more).drop_last() =~= some + more.drop_last());
        law_ipv4_addresses_add_up(some, interface, more.drop_last());
        assert(ipv4_addresses(some + more) =~= ipv4_addresses(some) + ipv4_addresses(more));
    }
}

/// Every IPv4 address of every interface is listed, and no other.
pub proof fn law_every_ipv4_address_is_listed(interfaces: Seq<Interface>, address: u32)
    ensures
        ipv4_addresses(interfaces).contains(address) <==> exists|i: int|
            0 <= i < interfaces.len() && (#[trigger] interfaces[i]).ipv4@.contains(address),
    decreases interfaces.len(),
{
    let all = ipv4_addresses(interfaces);
    if interfaces.len() > 0 {
        let front = interfaces.drop_last();
        let own = interfaces.last().ipv4@;
        let rest = ipv4_addresses(front);
        law_every_ipv4_address_is_listed(front, address);
        if all.contains(address) {
            let n = choose|n: int| 0 <= n < all.len() && all[n] == address;
            if n < rest.len() {
                assert(rest[n] == address);
                let i = choose|i: int|
                    0 <= i < front.len() && (#[trigger] front[i]).ipv4@.contains(address);
                assert(interfaces[i].ipv4@.contains(address));
            } else {
                assert(own[n - rest.len()] == address);
                assert(interfaces[interfaces.len() - 1].ipv4@.contains(address));
            }
        }
        if exists|i: int|
            0 <= i < interfaces.len() && (#[trigger] interfaces[i]).ipv4@.contains(address) {
            let i = choose|i: int|
                0 <= i < interfaces.len() && (#[trigger] interfaces[i]).ipv4@.contains(address);
            if i < front.len() {
                assert(front[i].ipv4@.contains(address));
                let n = choose|n: int| 0 <= n < rest.len() && rest[n] == address;
                assert(all[n] == address);
            } else {
                let n = choose|n: int| 0 <= n < own.len() && own[n] == address;
                assert(all[rest.len() + n] == address);
            }
        }
    }
}

} // verus!
