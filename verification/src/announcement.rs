//! What a device announces of its service, as JSON.

use vstd::prelude::*;
use vstd::utf8::encode_utf8;
use vstd::utf8::is_ascii_chars_encode_utf8;

use crate::interface::hex_byte;
use crate::number::decimal;
use crate::number::law_decimal_is_read_back;
use crate::number::parse_u16;
use crate::number::u16_value;
use crate::order::bytes_at_most;
use crate::order::text_at_most;
use crate::peer::is_fingerprint;
use crate::text::is_hex_digit;

verus! {

/// `serde_json::Value`: a JSON value, of which nothing is seen but what
/// [`json_integers`] says.
#[verifier::external_type_specification]
#[verifier::external_body]
pub struct ExValue(serde_json::Value);

/// `serde_json::Error`: why a text is not JSON.
#[verifier::external_type_specification]
#[verifier::external_body]
pub struct ExError(serde_json::Error);

/// The members of a JSON object that are unsigned 64-bit integers. A value that is
/// no object has none.
pub uninterp spec fn json_integers(value: serde_json::Value) -> Map<Seq<char>, u64>;

/// What `serde_json::from_str` reads from a text: the integer members of the value,
/// or nothing if the text is not JSON.
pub uninterp spec fn json_reading(text: Seq<char>) -> Option<Map<Seq<char>, u64>>;

/// A character as JSON writes it inside a text.
pub open spec fn escaped_char(c: char) -> Seq<char> {
    let u = c as int;
    if c == '"' || c == '\\' {
        seq!['\\', c]
    } else if u == 0x8 {
        seq!['\\', 'b']
    } else if u == 0x9 {
        seq!['\\', 't']
    } else if u == 0xa {
        seq!['\\', 'n']
    } else if u == 0xc {
        seq!['\\', 'f']
    } else if u == 0xd {
        seq!['\\', 'r']
    } else if u < 0x20 {
        seq!['\\', 'u', '0', '0'] + hex_byte(u as u8)
    } else {
        seq![c]
    }
}

/// The characters of a text as JSON writes them.
pub open spec fn escaped(s: Seq<char>) -> Seq<char>
    decreases s.len(),
{
    if s.len() == 0 {
        seq![]
    } else {
        escaped(s.drop_last()) + escaped_char(s.last())
    }
}

/// A text as JSON writes it.
pub open spec fn quoted(s: Seq<char>) -> Seq<char> {
    seq!['"'] + escaped(s) + seq!['"']
}

/// The compact form of the JSON object with a text member and two integer members.
pub open spec fn compact_object(
    text_key: Seq<char>,
    text: Seq<char>,
    first_key: Seq<char>,
    first: u64,
    second_key: Seq<char>,
    second: u64,
) -> Seq<char> {
    seq!['{'] + quoted(text_key) + seq![':'] + quoted(text) + seq![','] + quoted(first_key)
        + seq![':'] + decimal(first as nat) + seq![','] + quoted(second_key) + seq![':'] + decimal(
        second as nat,
    ) + seq!['}']
}

/// `serde_json::from_str` for a `serde_json::Value`: an error exactly where the text
/// is not JSON; otherwise the value, whose integer members depend on the text alone.
#[verifier::external_body]
fn parse_json(text: &str) -> (value: Result<serde_json::Value, serde_json::Error>)
    ensures
        match value {
            Ok(v) => json_reading(text@) == Some(json_integers(v)),
            Err(_) => json_reading(text@) is None,
        },
{
    serde_json::from_str::<serde_json::Value>(text)
}

/// `serde_json::Value::get` with a key, and `serde_json::Value::as_u64` of what it
/// finds: the integer member with the key, if the value is an object that has one.
#[verifier::external_body]
fn json_integer(value: &serde_json::Value, key: &str) -> (number: Option<u64>)
    ensures
        match number {
            Some(n) => json_integers(*value).contains_key(key@) && json_integers(*value)[key@] == n,
            None => !json_integers(*value).contains_key(key@),
        },
{
    value.get(key)?.as_u64()
}

/// `serde_json::Value::to_string`, of the object with the three members, whose keys
/// are given in order: its compact form, in which the members come in the order of
/// their keys. Reading it gives back the two integers and no other.
#[verifier::external_body]
fn print_json_object(
    text_key: &str,
    text: &str,
    first_key: &str,
    first: u64,
    second_key: &str,
    second: u64,
) -> (json: String)
    requires
        text_key@ != first_key@,
        first_key@ != second_key@,
        text_at_most(text_key@, first_key@),
        text_at_most(first_key@, second_key@),
    ensures
        json@ == compact_object(text_key@, text@, first_key@, first, second_key@, second),
        json_reading(json@) == Some(
            Map::<Seq<char>, u64>::empty().insert(first_key@, first).insert(second_key@, second),
        ),
{
    let mut object = serde_json::Map::new();
    object.insert(text_key.to_owned(), serde_json::Value::from(text));
    object.insert(first_key.to_owned(), serde_json::Value::from(first));
    object.insert(second_key.to_owned(), serde_json::Value::from(second));
    serde_json::Value::Object(object).to_string()
}

/// The text that announces a service.
pub open spec fn announcement_text(
    protocol_version: u64,
    port: u16,
    fingerprint: Seq<char>,
) -> Seq<char> {
    compact_object(
        "fingerprint"@,
        fingerprint,
        "port"@,
        port as u64,
        "protocol_version"@,
        protocol_version,
    )
}

/// The integers in the announcement of a service.
pub open spec fn announced_integers(protocol_version: u64, port: u16) -> Map<Seq<char>, u64> {
    Map::<Seq<char>, u64>::empty().insert("port"@, port as u64).insert(
        "protocol_version"@,
        protocol_version,
    )
}

/// The port that a device listens on: the one that the option names, or
/// `default_port` if it names none or zero.
pub open spec fn configured_port(option: Seq<char>, default_port: u16) -> u16 {
    match u16_value(option) {
        Some(port) if port > 0 => port,
        _ => default_port,
    }
}

/// The port that an announced number stands for: the number itself if it is a port
/// other than zero, and `default_port` otherwise.
pub open spec fn port_from(number: Option<u64>, default_port: u16) -> u16 {
    match number {
        Some(n) if 0 < n <= u16::MAX => n as u16,
        _ => default_port,
    }
}

/// The number that the text announces as the port.
pub open spec fn announced_number(misc: Seq<char>) -> Option<u64> {
    match json_reading(misc) {
        Some(integers) if integers.contains_key("port"@) => Some(integers["port"@]),
        _ => None,
    }
}

/// The port that the text announces, or `default_port` if it announces none.
pub open spec fn announced_port(misc: Seq<char>, default_port: u16) -> u16 {
    port_from(announced_number(misc), default_port)
}

/// The port that the listening option names.
pub fn listen_port(option: &str, default_port: u16) -> (port: u16)
    ensures
        port == configured_port(option@, default_port),
{
    match parse_u16(option) {
        Some(port) => if port > 0 {
            port
        } else {
            default_port
        },
        None => default_port,
    }
}

/// Announces a service.
pub fn announce(protocol_version: u64, port: u16, fingerprint: &str) -> (misc: String)
    ensures
        misc@ == announcement_text(protocol_version, port, fingerprint@),
        json_reading(misc@) == Some(announced_integers(protocol_version, port)),
{
    proof {
        lemma_keys();
    }
    print_json_object(
        "fingerprint",
        fingerprint,
        "port",
        port as u64,
        "protocol_version",
        protocol_version,
    )
}

/// The keys of an announcement differ and are in order.
proof fn lemma_keys()
    ensures
        "fingerprint"@ != "port"@,
        "port"@ != "protocol_version"@,
        text_at_most("fingerprint"@, "port"@),
        text_at_most("port"@, "protocol_version"@),
{
    reveal_strlit("fingerprint");
    reveal_strlit("port");
    reveal_strlit("protocol_version");
    assert("fingerprint"@.len() == 11);
    assert("port"@.len() == 4);
    assert("protocol_version"@.len() == 16);
    let (a, b, c) = (
        encode_utf8("fingerprint"@),
        encode_utf8("port"@),
        encode_utf8("protocol_version"@),
    );
    is_ascii_chars_encode_utf8("fingerprint"@);
    is_ascii_chars_encode_utf8("port"@);
    is_ascii_chars_encode_utf8("protocol_version"@);
    assert(a[0] < b[0]);
    assert(b[0] == c[0]);
    assert(b.drop_first()[0] < c.drop_first()[0]);
    assert(bytes_at_most(b.drop_first(), c.drop_first()));
}

/// The port that a number stands for.
pub fn port_from_number(number: Option<u64>, default_port: u16) -> (port: u16)
    ensures
        port == port_from(number, default_port),
{
    match number {
        Some(n) => if 0 < n && n <= 65535 {
            n as u16
        } else {
            default_port
        },
        None => default_port,
    }
}

/// The port that an announcement names, or `default_port` if it names none.
pub fn read_announced_port(misc: &str, default_port: u16) -> (port: u16)
    ensures
        port == announced_port(misc@, default_port),
{
    let number: Option<u64> = match parse_json(misc) {
        Ok(value) => json_integer(&value, "port"),
        Err(_) => None,
    };
    port_from_number(number, default_port)
}

/// The port that a device announces is the port that is read from the announcement.
/// Only port zero is no port, and is read as the default.
pub proof fn law_announced_port_is_read_back(
    misc: Seq<char>,
    protocol_version: u64,
    port: u16,
    default_port: u16,
)
    requires
        json_reading(misc) == Some(announced_integers(protocol_version, port)),
    ensures
        announced_port(misc, default_port) == if port > 0 {
            port
        } else {
            default_port
        },
{
    lemma_keys();
}

/// A text without quotation marks, backslashes and characters before the space is
/// written as it is.
pub proof fn law_plain_text_is_written_as_it_is(s: Seq<char>)
    requires
        forall|i: int| 0 <= i < s.len() ==> (#[trigger] s[i]) >= ' ' && s[i] != '"' && s[i] != '\\',
    ensures
        escaped(s) == s,
    decreases s.len(),
{
    if s.len() > 0 {
        let front = s.drop_last();
        assert forall|i: int| 0 <= i < front.len() implies (#[trigger] front[i]) >= ' ' && front[i]
            != '"' && front[i] != '\\' by {
            assert(front[i] == s[i]);
        }
        law_plain_text_is_written_as_it_is(front);
        let last = s[s.len() - 1];
        assert(escaped_char(last) == seq![last]);
        assert(escaped(s) =~= s);
    } else {
        assert(escaped(s) =~= s);
    }
}

/// A proper fingerprint is announced as it is.
pub proof fn law_proper_fingerprint_is_announced_as_it_is(fingerprint: Seq<char>)
    requires
        is_fingerprint(fingerprint),
    ensures
        quoted(fingerprint) == seq!['"'] + fingerprint + seq!['"'],
{
    assert forall|i: int| 0 <= i < fingerprint.len() implies (#[trigger] fingerprint[i]) >= ' '
        && fingerprint[i] != '"' && fingerprint[i] != '\\' by {
        assert(is_hex_digit(fingerprint[i]));
    }
    law_plain_text_is_written_as_it_is(fingerprint);
}

/// The port that a device listens on is zero only if the default is.
pub proof fn law_configured_port_is_usable(option: Seq<char>, default_port: u16)
    requires
        default_port > 0,
    ensures
        configured_port(option, default_port) > 0,
{
}

/// The port that the listening option names is the port that is listened on, for
/// every port but zero; and the default is for the options that name none.
pub proof fn law_named_port_is_listened_on(option: Seq<char>, default_port: u16)
    ensures
        u16_value(option) matches Some(port) && port > 0 ==> configured_port(option, default_port)
            == u16_value(option)->0,
        u16_value(option) is None || u16_value(option) == Some(0u16) ==> configured_port(
            option,
            default_port,
        ) == default_port,
        forall|n: u16|
            n > 0 && option == #[trigger] decimal(n as nat) ==> configured_port(
                option,
                default_port,
            ) == n,
{
    assert forall|n: u16|
        n > 0 && option == #[trigger] decimal(n as nat) implies configured_port(
        option,
        default_port,
    ) == n by {
        law_decimal_is_read_back(n);
    }
}

/// Every number from 1 to 65535 is a port; any other number, and none, stands for
/// the default.
pub proof fn law_port_numbers(number: u64, default_port: u16)
    ensures
        1 <= number <= 65535 ==> port_from(Some(number), default_port) == number,
        number == 0 || number > 65535 ==> port_from(Some(number), default_port) == default_port,
        port_from(None, default_port) == default_port,
{
}

/// The port in a text is its integer member `port` if that is a port, whatever other
/// members there are; a text without such a member announces the default.
pub proof fn law_member_port_is_announced(
    misc: Seq<char>,
    integers: Map<Seq<char>, u64>,
    default_port: u16,
)
    ensures
        json_reading(misc) == Some(integers) && integers.contains_key("port"@) ==> {
            &&& 1 <= integers["port"@] <= 65535 ==> announced_port(misc, default_port)
                == integers["port"@]
            &&& !(1 <= integers["port"@] <= 65535) ==> announced_port(misc, default_port)
                == default_port
        },
        json_reading(misc) == Some(integers) && !integers.contains_key("port"@) ==> announced_port(
            misc,
            default_port,
        ) == default_port,
        json_reading(misc) is None ==> announced_port(misc, default_port) == default_port,
{
}

/// What is announced: the fingerprint as a text, the port and the version of the
/// protocol as numbers, in this order.
pub proof fn law_announcement_has_three_members(
    protocol_version: u64,
    port: u16,
    fingerprint: Seq<char>,
)
    ensures
        announcement_text(protocol_version, port, fingerprint) == "{\"fingerprint\":\""@ + escaped(
            fingerprint,
        ) + "\",\"port\":"@ + decimal(port as nat) + ",\"protocol_version\":"@ + decimal(
            protocol_version as nat,
        ) + "}"@,
        is_fingerprint(fingerprint) ==> escaped(fingerprint) == fingerprint,
        announced_integers(protocol_version, port).dom() == set!["port"@, "protocol_version"@],
        announced_integers(protocol_version, port)["port"@] == port,
        announced_integers(protocol_version, port)["protocol_version"@] == protocol_version,
{
    lemma_keys();
    if is_fingerprint(fingerprint) {
        assert forall|i: int| 0 <= i < fingerprint.len() implies (#[trigger] fingerprint[i]) >= ' '
            && fingerprint[i] != '"' && fingerprint[i] != '\\' by {
            assert(is_hex_digit(fingerprint[i]));
        }
        law_plain_text_is_written_as_it_is(fingerprint);
    }
    reveal_strlit("{\"fingerprint\":\"");
    reveal_strlit("\",\"port\":");
    reveal_strlit(",\"protocol_version\":");
    reveal_strlit("}");
    reveal_strlit("fingerprint");
    reveal_strlit("port");
    reveal_strlit("protocol_version");
    law_plain_text_is_written_as_it_is("fingerprint"@);
    law_plain_text_is_written_as_it_is("port"@);
    law_plain_text_is_written_as_it_is("protocol_version"@);
    assert("{\"fingerprint\":\""@ =~= seq!['{'] + quoted("fingerprint"@) + seq![':', '"']);
    assert("\",\"port\":"@ =~= seq!['"', ','] + quoted("port"@) + seq![':']);
    assert(",\"protocol_version\":"@ =~= seq![','] + quoted("protocol_version"@) + seq![':']);
    assert("}"@ =~= seq!['}']);
    assert(announcement_text(protocol_version, port, fingerprint) =~= "{\"fingerprint\":\""@
        + escaped(fingerprint) + "\",\"port\":"@ + decimal(port as nat)
        + ",\"protocol_version\":"@ + decimal(protocol_version as nat) + "}"@);
    assert(announced_integers(protocol_version, port).dom() =~= set![
        "port"@,
        "protocol_version"@,
    ]);
}

} // verus!
