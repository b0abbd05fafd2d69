//! Addresses of hosts, as a SOCKS request or reply can carry them.
use vstd::prelude::*;
use vstd::utf8::encode_utf8;

verus! {

/// An IPv4 address and a port.
#[derive(Clone, Copy, Debug, PartialEq, Eq)]
pub struct SocketAddrV4 {
    /// The address as a number, the first octet most significant.
    pub ip: u32,
    pub port: u16,
}

/// An IPv6 address and a port, with the flow and the scope that a local socket address carries.
#[derive(Clone, Copy, Debug, PartialEq, Eq)]
pub struct SocketAddrV6 {
    /// The sixteen octets of the address, in network order.
    pub ip: [u8; 16],
    pub port: u16,
    pub flowinfo: u32,
    pub scope_id: u32,
}

/// An IP address and a port.
#[derive(Clone, Copy, Debug, PartialEq, Eq)]
pub enum SocketAddr {
    V4(SocketAddrV4),
    V6(SocketAddrV6),
}

/// The address of a host that a proxy connects to or reports.
#[derive(Clone, Debug, PartialEq, Eq)]
pub enum TargetAddr {
    /// An IP address.
    Ip(SocketAddr),
    /// A domain name, left to the proxy to resolve, and a port.
    Domain(String, u16),
}

/// A [`TargetAddr`] as a mathematical value.
pub enum AddrView {
    V4 { ip: u32, port: u16 },
    V6 { octets: Seq<u8>, port: u16, flowinfo: u32, scope_id: u32 },
    Domain { name: Seq<char>, port: u16 },
}

impl View for TargetAddr {
    type V = AddrView;

    open spec fn view(&self) -> AddrView {
        match self {
            TargetAddr::Ip(SocketAddr::V4(addr)) => AddrView::V4 { ip: addr.ip, port: addr.port },
            TargetAddr::Ip(SocketAddr::V6(addr)) => AddrView::V6 {
                octets: addr.ip@,
                port: addr.port,
                flowinfo: addr.flowinfo,
                scope_id: addr.scope_id,
            },
            TargetAddr::Domain(name, port) => AddrView::Domain { name: name@, port: *port },
        }
    }
}

/// Every [`TargetAddr`] is well formed.
pub proof fn law_target_well_formed(target: TargetAddr)
    ensures
        target@.well_formed(),
{
}

/// Nothing of an address is changed or left out in its view.
pub proof fn law_target_view(target: TargetAddr)
    ensures
        target matches TargetAddr::Ip(SocketAddr::V4(addr)) ==> target@ == (AddrView::V4 {
            ip: addr.ip,
            port: addr.port,
        }),
        target matches TargetAddr::Ip(SocketAddr::V6(addr)) ==> target@ == (AddrView::V6 {
            octets: addr.ip@,
            port: addr.port,
            flowinfo: addr.flowinfo,
            scope_id: addr.scope_id,
        }),
        target matches TargetAddr::Domain(name, port) ==> target@ == (AddrView::Domain {
            name: name@,
            port,
        }),
{
}

impl AddrView {
    /// What every [`TargetAddr`] satisfies: an IPv6 address has sixteen octets.
    pub open spec fn well_formed(self) -> bool {
        self matches AddrView::V6 { octets, .. } ==> octets.len() == 16
    }

    /// Whether the protocol can express the address: the length of a domain name, in bytes, has
    /// to fit in one byte.
    pub open spec fn encodable(self) -> bool {
        self matches AddrView::Domain { name, .. } ==> encode_utf8(name).len() <= 255
    }

    /// The part of the address that the protocol carries: flow and scope of an IPv6 address are
    /// dropped.
    pub open spec fn on_the_wire(self) -> AddrView {
        match self {
            AddrView::V6 { octets, port, .. } => AddrView::V6 {
                octets,
                port,
                flowinfo: 0,
                scope_id: 0,
            },
            addr => addr,
        }
    }
}

} // verus!
