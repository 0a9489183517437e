//! Waking a sleeping device.

use vstd::prelude::*;
use vstd::utf8::encode_utf8;
use vstd::utf8::is_ascii_chars_encode_utf8;

use crate::interface::hex_byte;
use crate::interface::hex_digit;
use crate::interface::ipv4_addresses;
use crate::interface::law_every_ipv4_address_is_listed;
use crate::interface::list_ipv4;
use crate::interface::mac_text;
use crate::interface::Interface;
use crate::peer::DiscoveryPeer;
use crate::text::hex_value;
use crate::text::is_hex_digit;
use crate::text::same_text;

verus! {

/// A wake-up packet to send: for the device with the MAC address, from the IPv4
/// address.
#[derive(Clone, Copy, Debug, PartialEq, Eq)]
pub struct WakeTarget {
    pub mac: [u8; 6],
    pub source: u32,
}

/// Whether `c` may stand between the bytes of a MAC address.
pub open spec fn is_mark(c: char) -> bool {
    c == ':' || c == '.' || c == '-'
}

/// The bytes that a text spells, from left to right. A byte is one hexadecimal digit,
/// or two where a second one follows. It takes `0x` in front and a mark behind along.
/// Any other character is passed over.
pub open spec fn spelled_bytes(text: Seq<char>) -> Seq<u8>
    decreases text.len(),
{
    let rest = if text.len() > 2 && text[0] == '0' && text[1] == 'x' && is_hex_digit(text[2]) {
        text.skip(2)
    } else {
        text
    };
    if text.len() == 0 {
        seq![]
    } else if !is_hex_digit(rest[0]) {
        spelled_bytes(text.skip(1))
    } else {
        let (byte, end) = if rest.len() > 1 && is_hex_digit(rest[1]) {
            (16 * hex_value(rest[0]) + hex_value(rest[1]), 2int)
        } else {
            (hex_value(rest[0]), 1int)
        };
        let next = if rest.len() > end && is_mark(rest[end]) {
            end + 1
        } else {
            end
        };
        seq![byte as u8] + spelled_bytes(rest.skip(next))
    }
}

/// The MAC address that a text spells: it has six bytes, and the text is 11 to 17
/// bytes long in UTF-8.
pub open spec fn parsed_mac(text: Seq<char>) -> Option<[u8; 6]> {
    let bytes = spelled_bytes(text);
    if 11 <= encode_utf8(text).len() <= 17 && bytes.len() == 6 {
        Some([bytes[0], bytes[1], bytes[2], bytes[3], bytes[4], bytes[5]])
    } else {
        None
    }
}

/// `<wol::MacAddr as FromStr>::from_str`: reads the MAC address that a text spells.
/// It goes by the matches of `(0x)?([0-9a-fA-F]{1,2})[:.-]?` in the text, each of
/// which gives a byte, and fails unless there are six of them and the text is 11 to
/// 17 bytes long.
#[verifier::external_body]
fn parse_mac(text: &str) -> (mac: Option<[u8; 6]>)
    ensures
        mac == parsed_mac(text@),
{
    text.parse::<wol::MacAddr>().ok().map(|mac| mac.0)
}

/// The packets for a MAC address: one from each source. Without an address there
/// are none.
pub open spec fn targets_at(mac: Option<[u8; 6]>, sources: Seq<u32>) -> Seq<WakeTarget> {
    match mac {
        Some(octets) => sources.map_values(|source: u32| WakeTarget { mac: octets, source }),
        None => seq![],
    }
}

/// The packets for a device with the recorded MAC addresses.
pub open spec fn targets_of(
    pairs: Seq<(Seq<char>, Seq<char>)>,
    sources: Seq<u32>,
) -> Seq<WakeTarget>
    decreases pairs.len(),
{
    if pairs.len() == 0 {
        seq![]
    } else {
        targets_of(pairs.drop_last(), sources) + targets_at(parsed_mac(pairs.last().1), sources)
    }
}

/// The recorded addresses of the first peer with the id, with their MAC addresses.
pub open spec fn recorded_macs(
    peers: Seq<DiscoveryPeer>,
    id: Seq<char>,
) -> Seq<(Seq<char>, Seq<char>)>
    decreases peers.len(),
{
    if peers.len() == 0 {
        seq![]
    } else if peers[0].id@ == id {
        peers[0].ip_mac.pairs()
    } else {
        recorded_macs(peers.drop_first(), id)
    }
}

/// Adds the packets for a MAC address, if there is one.
pub fn push_targets(targets: &mut Vec<WakeTarget>, mac: Option<[u8; 6]>, sources: &[u32])
    ensures
        final(targets)@ == old(targets)@ + targets_at(mac, sources@),
{
    let ghost before = targets@;
    if let Some(octets) = mac {
        let ghost wanted = targets_at(mac, sources@);
        assert(before + wanted.take(0) =~= before);
        for i in 0..sources.len()
            invariant
                wanted == targets_at(Some(octets), sources@),
                targets@ == before + wanted.take(i as int),
        {
            targets.push(WakeTarget { mac: octets, source: sources[i] });
            assert(before + wanted.take(i + 1) =~= (before + wanted.take(i as int)).push(
                wanted[i as int],
            ));
        }
        assert(wanted.take(wanted.len() as int) =~= wanted);
    } else {
        assert(before + targets_at(mac, sources@) =~= before);
    }
}

/// The packets that wake the device with the id: for each MAC address on record,
/// one from each IPv4 address of this device.
pub fn wake_targets(id: &str, peers: &[DiscoveryPeer], interfaces: &[Interface]) -> (targets: Vec<
    WakeTarget,
>)
    ensures
        targets@ == targets_of(recorded_macs(peers@, id@), ipv4_addresses(interfaces@)),
{
    let mut targets: Vec<WakeTarget> = Vec::new();
    assert(peers@.skip(0) =~= peers@);
    for i in 0..peers.len()
        invariant
            targets@.len() == 0,
            recorded_macs(peers@, id@) == recorded_macs(peers@.skip(i as int), id@),
    {
        assert(peers@.skip(i as int).drop_first() =~= peers@.skip(i + 1));
        assert(peers@.skip(i as int)[0] == peers@[i as int]);
        if same_text(peers[i].id.as_str(), id) {
            let sources: Vec<u32> = list_ipv4(interfaces);
            let ghost pairs = peers@[i as int].ip_mac.pairs();
            assert(targets@ =~= targets_of(pairs.take(0), sources@));
            let count: usize = peers[i].ip_mac.len();
            for n in 0..count
                invariant
                    i < peers@.len(),
                    pairs == peers@[i as int].ip_mac.pairs(),
                    count == pairs.len(),
                    targets@ == targets_of(pairs.take(n as int), sources@),
            {
                let (_, mac): (&String, &String) = peers[i].ip_mac.entry(n);
                push_targets(&mut targets, parse_mac(mac.as_str()), sources.as_slice());
                proof {
                    assert(pairs.take(n + 1).drop_last() =~= pairs.take(n as int));
                    assert(pairs.take(n + 1).last() == pairs[n as int]);
                }
            }
            assert(pairs.take(pairs.len() as int) =~= pairs);
            return targets;
        }
    }
    assert(targets@ =~= seq![]);
    targets
}

proof fn lemma_targets_contain(pairs: Seq<(Seq<char>, Seq<char>)>, sources: Seq<u32>, i: int)
    requires
        0 <= i < pairs.len(),
    ensures
        forall|t: WakeTarget|
            targets_at(parsed_mac(pairs[i].1), sources).contains(t) ==> #[trigger] targets_of(
                pairs,
                sources,
            ).contains(t),
    decreases pairs.len(),
{
    let all = targets_of(pairs, sources);
    let rest = targets_of(pairs.drop_last(), sources);
    let own = targets_at(parsed_mac(pairs[i].1), sources);
    assert forall|t: WakeTarget| own.contains(t) implies #[trigger] all.contains(t) by {
        if i == pairs.len() - 1 {
            let j = choose|j: int| 0 <= j < own.len() && own[j] == t;
            assert(all[rest.len() + j] == t);
        } else {
            lemma_targets_contain(pairs.drop_last(), sources, i);
            assert(pairs.drop_last()[i] == pairs[i]);
            assert(rest.contains(t));
            let j = choose|j: int| 0 <= j < rest.len() && rest[j] == t;
            assert(all[j] == t);
        }
    }
}

/// Every MAC address on record that can be read gets a packet from every IPv4
/// address of this device.
pub proof fn law_every_address_is_woken_from_every_source(
    pairs: Seq<(Seq<char>, Seq<char>)>,
    sources: Seq<u32>,
    i: int,
    octets: [u8; 6],
    j: int,
)
    requires
        0 <= i < pairs.len(),
        parsed_mac(pairs[i].1) == Some(octets),
        0 <= j < sources.len(),
    ensures
        targets_of(pairs, sources).contains((WakeTarget { mac: octets, source: sources[j] })),
{
    lemma_targets_contain(pairs, sources, i);
    let own = targets_at(parsed_mac(pairs[i].1), sources);
    assert(own[j] == WakeTarget { mac: octets, source: sources[j] });
    assert(own.contains(WakeTarget { mac: octets, source: sources[j] }));
}

/// Two digits and a colon in front of a text spell one byte more.
proof fn lemma_two_digits_and_colon(high: char, low: char, text: Seq<char>)
    requires
        is_hex_digit(high),
        is_hex_digit(low),
        low != 'x',
    ensures
        spelled_bytes(seq![high, low, ':'] + text) == seq![
            (16 * hex_value(high) + hex_value(low)) as u8,
        ] + spelled_bytes(text),
{
    let whole = seq![high, low, ':'] + text;
    assert(whole[0] == high && whole[1] == low && whole[2] == ':');
    assert(whole.skip(3) =~= text);
}

proof fn lemma_one_byte_more(byte: u8, text: Seq<char>)
    ensures
        spelled_bytes(hex_byte(byte) + seq![':'] + text) == seq![byte] + spelled_bytes(text),
{
    let (high, low) = (hex_byte(byte)[0], hex_byte(byte)[1]);
    lemma_digits_of_byte(byte);
    lemma_two_digits_and_colon(high, low, text);
    assert(hex_byte(byte) + seq![':'] + text =~= seq![high, low, ':'] + text);
}

/// The two digits of a byte are digits and give the byte.
proof fn lemma_digits_of_byte(byte: u8)
    ensures
        is_hex_digit(hex_byte(byte)[0]),
        is_hex_digit(hex_byte(byte)[1]),
        hex_byte(byte)[1] != 'x',
        16 * hex_value(hex_byte(byte)[0]) + hex_value(hex_byte(byte)[1]) == byte,
{
    let (high, low) = (byte / 16, byte % 16);
    assert(hex_byte(byte)[0] == hex_digit(high));
    assert(hex_byte(byte)[1] == hex_digit(low));
    assert(hex_value(hex_digit(high)) == high);
    assert(hex_value(hex_digit(low)) == low);
}

/// The text that a device announces for its MAC address spells that address, so that
/// the device can be woken.
pub proof fn law_announced_mac_is_read_back(octets: [u8; 6])
    ensures
        parsed_mac(mac_text(octets)) == Some(octets),
{
    let o = octets@;
    let colon = seq![':'];
    let t5 = hex_byte(o[5]);
    let t4 = hex_byte(o[4]) + colon + t5;
    let t3 = hex_byte(o[3]) + colon + t4;
    let t2 = hex_byte(o[2]) + colon + t3;
    let t1 = hex_byte(o[1]) + colon + t2;
    let t0 = hex_byte(o[0]) + colon + t1;
    lemma_digits_of_byte(o[5]);
    assert(t5.skip(2) =~= seq![]);
    assert(spelled_bytes(t5.skip(2)) =~= seq![]);
    assert(spelled_bytes(t5) =~= seq![o[5]]);
    lemma_one_byte_more(o[4], t5);
    lemma_one_byte_more(o[3], t4);
    lemma_one_byte_more(o[2], t3);
    lemma_one_byte_more(o[1], t2);
    lemma_one_byte_more(o[0], t1);
    assert(t0 =~= mac_text(octets));
    assert(spelled_bytes(t0) =~= o);
    assert(vstd::utf8::is_ascii_chars(t0));
    is_ascii_chars_encode_utf8(t0);
    assert(encode_utf8(t0).len() == 17);
    assert(parsed_mac(t0)->0 =~= octets);
}

/// The MAC addresses to wake are those on the first record with the id, whatever else
/// the record says; without such a record there are none.
pub proof fn law_first_record_with_the_id_is_woken(peers: Seq<DiscoveryPeer>, id: Seq<char>)
    ensures
        forall|i: int|
            0 <= i < peers.len() && (#[trigger] peers[i]).id@ == id && (forall|j: int|
                0 <= j < i ==> (#[trigger] peers[j]).id@ != id) ==> recorded_macs(peers, id)
                == peers[i].ip_mac.pairs(),
        (forall|j: int| 0 <= j < peers.len() ==> (#[trigger] peers[j]).id@ != id)
            ==> recorded_macs(peers, id).len() == 0,
    decreases peers.len(),
{
    if peers.len() > 0 {
        let rest = peers.drop_first();
        law_first_record_with_the_id_is_woken(rest, id);
        assert forall|i: int|
            0 <= i < peers.len() && (#[trigger] peers[i]).id@ == id && (forall|j: int|
                0 <= j < i ==> (#[trigger] peers[j]).id@ != id) implies recorded_macs(peers, id)
            == peers[i].ip_mac.pairs() by {
            if i > 0 {
                assert(peers[0].id@ != id);
                assert(rest[i - 1] == peers[i]);
                assert forall|j: int| 0 <= j < i - 1 implies (#[trigger] rest[j]).id@ != id by {
                    assert(rest[j] == peers[j + 1]);
                }
            }
        }
        if forall|j: int| 0 <= j < peers.len() ==> (#[trigger] peers[j]).id@ != id {
            assert(peers[0].id@ != id);
            assert forall|j: int| 0 <= j < rest.len() implies (#[trigger] rest[j]).id@ != id by {
                assert(rest[j] == peers[j + 1]);
            }
        }
    }
}

/// A readable MAC address gets one packet from each source, in their order, an
/// unreadable one gets none; and the packets for several come one after the other.
pub proof fn law_packets_add_up(
    some: Seq<(Seq<char>, Seq<char>)>,
    pair: (Seq<char>, Seq<char>),
    more: Seq<(Seq<char>, Seq<char>)>,
    sources: Seq<u32>,
)
    ensures
        targets_of(seq![], sources).len() == 0,
        ({
            let own = targets_of(seq![pair], sources);
            match parsed_mac(pair.1) {
                Some(octets) => own.len() == sources.len() && forall|j: int|
                    0 <= j < sources.len() ==> (#[trigger] own[j]).mac == octets && own[j].source
                        == sources[j],
                None => own.len() == 0,
            }
        }),
        targets_of(some + more, sources) == targets_of(some, sources) + targets_of(more, sources),
    decreases more.len(),
{
    assert(seq![pair].drop_last() =~= seq![]);
    assert(targets_of(seq![pair].drop_last(), sources) =~= seq![]);
    assert(targets_of(seq![pair], sources) =~= targets_at(parsed_mac(pair.1), sources));
    if more.len() == 0 {
        assert(some + more =~= some);
    } else {
        assert((some + more).drop_last() =~= some + more.drop_last());
        law_packets_add_up(some, pair, more.drop_last(), sources);
    }
    assert(targets_of(some + more, sources) =~= targets_of(some, sources) + targets_of(
        more,
        sources,
    ));
}

proof fn lemma_packet_has_a_reason(
    pairs: Seq<(Seq<char>, Seq<char>)>,
    sources: Seq<u32>,
    target: WakeTarget,
)
    requires
        targets_of(pairs, sources).contains(target),
    ensures
        sources.contains(target.source),
        exists|i: int|
            0 <= i < pairs.len() && parsed_mac((#[trigger] pairs[i]).1) == Some(target.mac),
    decreases pairs.len(),
{
    let all = targets_of(pairs, sources);
    let n = choose|n: int| 0 <= n < all.len() && all[n] == target;
    let front = pairs.drop_last();
    let rest = targets_of(front, sources);
    if n < rest.len() {
        assert(rest[n] == target);
        lemma_packet_has_a_reason(front, sources, target);
        let i = choose|i: int|
            0 <= i < front.len() && parsed_mac((#[trigger] front[i]).1) == Some(target.mac);
        assert(pairs[i] == front[i]);
    } else {
        let own = targets_at(parsed_mac(pairs.last().1), sources);
        assert(own[n - rest.len()] == target);
        assert(sources[n - rest.len()] == target.source);
        assert(pairs[pairs.len() - 1] == pairs.last());
    }
}

/// A device is woken, asleep or not, by a packet for each readable MAC address on its
/// record from each IPv4 address of each interface, and by no other packet.
pub proof fn law_device_is_woken_from_every_address(
    peers: Seq<DiscoveryPeer>,
    id: Seq<char>,
    interfaces: Seq<Interface>,
    i: int,
    target: WakeTarget,
)
    requires
        0 <= i < peers.len(),
        peers[i].id@ == id,
        forall|j: int| 0 <= j < i ==> (#[trigger] peers[j]).id@ != id,
    ensures
        targets_of(recorded_macs(peers, id), ipv4_addresses(interfaces)).contains(target) <==> {
            &&& exists|n: int|
                0 <= n < peers[i].ip_mac.pairs().len() && parsed_mac(
                    (#[trigger] peers[i].ip_mac.pairs()[n]).1,
                ) == Some(target.mac)
            &&& exists|n: int|
                0 <= n < interfaces.len() && (#[trigger] interfaces[n]).ipv4@.contains(
                    target.source,
                )
        },
{
    law_first_record_with_the_id_is_woken(peers, id);
    assert(recorded_macs(peers, id) == peers[i].ip_mac.pairs());
    let pairs = peers[i].ip_mac.pairs();
    let sources = ipv4_addresses(interfaces);
    law_every_ipv4_address_is_listed(interfaces, target.source);
    if targets_of(pairs, sources).contains(target) {
        lemma_packet_has_a_reason(pairs, sources, target);
    }
    if sources.contains(target.source) && exists|n: int|
        0 <= n < pairs.len() && parsed_mac((#[trigger] pairs[n]).1) == Some(target.mac) {
        let n = choose|n: int|
            0 <= n < pairs.len() && parsed_mac((#[trigger] pairs[n]).1) == Some(target.mac);
        let j = choose|j: int| 0 <= j < sources.len() && sources[j] == target.source;
        law_every_address_is_woken_from_every_source(pairs, sources, n, target.mac, j);
        assert(target == WakeTarget { mac: target.mac, source: sources[j] });
    }
}

} // verus!
