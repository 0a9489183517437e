//! What can go wrong in discovery.

use vstd::prelude::*;

verus! {

/// Why a step of discovery could not be taken.
pub enum DiscoveryError {
    /// Neither way of finding peers could be started.
    NoTransport,
    /// No socket could be bound to an address of this device.
    NoBindableAddress,
    /// No network interface has the address, which is given as text.
    NoInterface(String),
}

impl DiscoveryError {
    /// The words for the error.
    pub open spec fn words(self) -> Seq<char> {
        match self {
            DiscoveryError::NoTransport => "No LAN discovery transport is available"@,
            DiscoveryError::NoBindableAddress => "Found no bindable ipv4 addresses"@,
            DiscoveryError::NoInterface(ip) => "No interface found for ip: "@ + ip@,
        }
    }

    /// The words for the error.
    pub fn message(&self) -> (text: String)
        ensures
            text@ == self.words(),
    {
        match self {
            DiscoveryError::NoTransport => "No LAN discovery transport is available".to_owned(),
            DiscoveryError::NoBindableAddress => "Found no bindable ipv4 addresses".to_owned(),
            DiscoveryError::NoInterface(ip) => {
                let mut text: String = "No interface found for ip: ".to_owned();
                text.append(ip.as_str());
                text
            },
        }
    }
}

} // verus!
