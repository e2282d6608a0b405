//! Addresses of UDP sockets.
use vstd::prelude::*;

verus! {

/// The version of an IP address.
#[derive(Debug, Clone, Copy, PartialEq, Eq, Structural)]
pub enum IpVersion {
    V4,
    V6,
}

/// The address of a UDP socket. The IP address is the number that its bytes
/// stand for, the most significant byte first.
#[derive(Debug, Clone, Copy, PartialEq, Eq, Structural)]
pub enum SockAddr {
    V4 { ip4: u32, port: u16 },
    V6 { ip6: u128, port: u16, flowinfo: u32, scope_id: u32 },
}

impl View for SockAddr {
    type V = SockAddr;

    open spec fn view(&self) -> SockAddr {
        *self
    }
}

impl SockAddr {
    /// The version of the IP address.
    pub open spec fn version(self) -> IpVersion {
        match self {
            SockAddr::V4 { .. } => IpVersion::V4,
            SockAddr::V6 { .. } => IpVersion::V6,
        }
    }

    /// The version of the IP address.
    pub fn ip_version(&self) -> (v: IpVersion)
        ensures
            v == self.version(),
            v == IpVersion::V4 <==> *self is V4,
            v == IpVersion::V6 <==> *self is V6,
    {
        match self {
            SockAddr::V4 { .. } => IpVersion::V4,
            SockAddr::V6 { .. } => IpVersion::V6,
        }
    }
}

/// Where a socket is bound that may use any local address and any free port.
pub open spec fn any_local_text(version: IpVersion) -> Seq<char> {
    match version {
        IpVersion::V4 => "0.0.0.0:0"@,
        IpVersion::V6 => "[::]:0"@,
    }
}

/// Where to bind a socket that may use any local address and any free port.
pub fn any_local(version: IpVersion) -> (bind: &'static str)
    ensures
        bind@ == any_local_text(version),
        version == IpVersion::V4 ==> bind@ == "0.0.0.0:0"@,
        version == IpVersion::V6 ==> bind@ == "[::]:0"@,
{
    match version {
        IpVersion::V4 => "0.0.0.0:0",
        IpVersion::V6 => "[::]:0",
    }
}

/// A socket for an address is bound to the unspecified address of the same IP
/// version, and to no particular port.
pub proof fn law_bound_by_version(addr: SockAddr)
    ensures
        addr is V4 ==> any_local_text(addr.version()) == "0.0.0.0:0"@,
        addr is V6 ==> any_local_text(addr.version()) == "[::]:0"@,
{
}

} // verus!
