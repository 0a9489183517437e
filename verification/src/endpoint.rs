//! Network addresses and the endpoints that are made of them.

use vstd::prelude::*;

use crate::number::decimal;
use crate::number::law_decimal_is_read_back;
use crate::number::push_decimal;
use crate::number::u16_value;
use crate::text_map::TextMap;

verus! {

/// The number that is an IP address, in either family.
#[derive(Clone, Copy, Debug, PartialEq, Eq, Structural)]
pub enum IpValue {
    V4(u32),
    V6(u128),
}

impl IpValue {
    /// Whether this is the unspecified address of its family: `0.0.0.0` or `::`.
    pub open spec fn unspecified(self) -> bool {
        match self {
            IpValue::V4(bits) => bits == 0,
            IpValue::V6(bits) => bits == 0,
        }
    }

    /// Whether this is the unspecified address of its family.
    pub fn is_unspecified(&self) -> (r: bool)
        ensures
            r == self.unspecified(),
    {
        match self {
            IpValue::V4(bits) => *bits == 0,
            IpValue::V6(bits) => *bits == 0,
        }
    }
}

/// An IP address together with the text by which it is written.
#[derive(Debug)]
pub struct IpAddress {
    pub value: IpValue,
    pub text: String,
}

/// What an [`IpAddress`] stands for.
pub struct IpAddressView {
    pub value: IpValue,
    pub text: Seq<char>,
}

impl View for IpAddress {
    type V = IpAddressView;

    open spec fn view(&self) -> IpAddressView {
        IpAddressView { value: self.value, text: self.text@ }
    }
}

/// The parts of an endpoint text: the authority in its normal form, its host and
/// its port.
#[derive(Debug)]
pub struct Endpoint {
    pub authority: String,
    pub host: String,
    pub port: u16,
}

/// What an [`Endpoint`] stands for.
pub struct EndpointView {
    pub authority: Seq<char>,
    pub host: Seq<char>,
    pub port: u16,
}

impl View for Endpoint {
    type V = EndpointView;

    open spec fn view(&self) -> EndpointView {
        EndpointView { authority: self.authority@, host: self.host@, port: self.port }
    }
}

/// How the texts at hand read: as endpoints, and as IP addresses. A text that is
/// not in a map does not read as such.
pub struct Readings {
    pub endpoints: TextMap<Endpoint>,
    pub addresses: TextMap<IpAddress>,
}

/// What [`Readings`] stand for.
pub struct ReadingsView {
    pub endpoints: Map<Seq<char>, EndpointView>,
    pub addresses: Map<Seq<char>, IpAddressView>,
}

impl View for Readings {
    type V = ReadingsView;

    open spec fn view(&self) -> ReadingsView {
        ReadingsView { endpoints: self.endpoints@, addresses: self.addresses@ }
    }
}

impl Readings {
    /// No text reads as anything.
    pub fn new() -> (readings: Self)
        ensures
            readings@.endpoints == Map::<Seq<char>, EndpointView>::empty(),
            readings@.addresses == Map::<Seq<char>, IpAddressView>::empty(),
    {
        Readings { endpoints: TextMap::new(), addresses: TextMap::new() }
    }
}

/// The endpoint text of a port at an address: `address:port`, with the address in
/// square brackets if it is an IPv6 one.
pub open spec fn endpoint_text(address: IpAddressView, port: u16) -> Seq<char> {
    match address.value {
        IpValue::V4(_) => address.text + seq![':'] + decimal(port as nat),
        IpValue::V6(_) => seq!['['] + address.text + seq![']', ':'] + decimal(port as nat),
    }
}

/// The endpoint text of a port at an address.
pub fn endpoint_at(address: &IpAddress, port: u16) -> (endpoint: String)
    ensures
        endpoint@ == endpoint_text(address@, port),
{
    let mut endpoint = String::new();
    match address.value {
        IpValue::V4(_) => {
            endpoint.append(address.text.as_str());
        },
        IpValue::V6(_) => {
            endpoint.push('[');
            endpoint.append(address.text.as_str());
            endpoint.push(']');
        },
    }
    endpoint.push(':');
    push_decimal(&mut endpoint, port);
    assert(endpoint@ =~= endpoint_text(address@, port));
    endpoint
}

/// In each family the address whose bits are all zero is unspecified, and no other.
pub proof fn law_unspecified_addresses(ip: IpValue)
    ensures
        ip.unspecified() <==> ip == IpValue::V4(0) || ip == IpValue::V6(0),
{
}

/// An endpoint text can be taken apart: in front of the last colon stands the address
/// as it is written, in square brackets exactly if it is an IPv6 one, and behind the
/// colon the port, which is read back as it is.
pub proof fn law_endpoint_text_is_address_and_port(address: IpAddressView, port: u16)
    ensures
        ({
            let text = endpoint_text(address, port);
            let digits = decimal(port as nat);
            let colon = text.len() - digits.len() - 1;
            &&& 0 <= colon
            &&& text[colon] == ':'
            &&& text.skip(colon + 1) == digits
            &&& u16_value(text.skip(colon + 1)) == Some(port)
            &&& match address.value {
                IpValue::V4(_) => text.take(colon) == address.text,
                IpValue::V6(_) => {
                    &&& text.take(colon).len() == address.text.len() + 2
                    &&& text[0] == '['
                    &&& text.subrange(1, colon - 1) == address.text
                    &&& text[colon - 1] == ']'
                },
            }
        }),
{
    law_decimal_is_read_back(port);
    let text = endpoint_text(address, port);
    let digits = decimal(port as nat);
    let colon = text.len() - digits.len() - 1;
    assert(text.skip(colon + 1) =~= digits);
    match address.value {
        IpValue::V4(_) => assert(text.take(colon) =~= address.text),
        IpValue::V6(_) => assert(text.subrange(1, colon - 1) =~= address.text),
    }
}

/// A reading says what it holds.
pub proof fn law_readings_say_what_they_hold(endpoint: Endpoint, address: IpAddress)
    ensures
        endpoint@.authority == endpoint.authority@,
        endpoint@.host == endpoint.host@,
        endpoint@.port == endpoint.port,
        address@.value == address.value,
        address@.text == address.text@,
{
}

} // verus!
