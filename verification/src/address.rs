//! The destination a connection unit is pointed at: an address-family-tagged
//! address and port. A plugin may read the destination only through the
//! accessor of the matching family; asking for the wrong family is a
//! contract violation that is fatal to that connection unit, so the
//! accessors demand the right family up front.

use vstd::prelude::*;

verus! {

/// A destination address and port, tagged with its address family.
#[derive(Clone, Copy, Debug, PartialEq, Eq)]
pub enum Destination {
    V4 { octets: [u8; 4], port: u16 },
    V6 { octets: [u8; 16], port: u16 },
}

impl Destination {
    /// Whether this destination is an IPv4 address.
    pub fn is_v4(&self) -> (r: bool)
        ensures
            r == (self is V4),
    {
        match self {
            Destination::V4 { .. } => true,
            Destination::V6 { .. } => false,
        }
    }

    /// The IPv4 address bytes and port; only an IPv4 destination has them.
    pub fn ip_v4(&self) -> (r: ([u8; 4], u16))
        requires
            self is V4,
        ensures
            self matches Destination::V4 { octets, port } ==> r.0 == octets && r.1 == port,
    {
        match self {
            Destination::V4 { octets, port } => (*octets, *port),
            Destination::V6 { .. } => vstd::pervasive::unreached(),
        }
    }

    /// The IPv6 address bytes and port; only an IPv6 destination has them.
    pub fn ip_v6(&self) -> (r: ([u8; 16], u16))
        requires
            self is V6,
        ensures
            self matches Destination::V6 { octets, port } ==> r.0 == octets && r.1 == port,
    {
        match self {
            Destination::V6 { octets, port } => (*octets, *port),
            Destination::V4 { .. } => vstd::pervasive::unreached(),
        }
    }
}

} // verus!
