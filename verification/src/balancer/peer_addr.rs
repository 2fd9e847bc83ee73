//! Where a peer listens: a socket address as plain numbers.
use vstd::prelude::*;

verus! {

/// A socket address. The IP address is held as the number that its bytes
/// spell in network order, so that comparing the numbers compares the
/// addresses byte by byte.
#[derive(Clone, Copy, Debug, PartialEq, Eq, Structural)]
#[allow(inconsistent_fields)]
pub enum PeerAddr {
    V4 { ip: u32, port: u16 },
    V6 { ip: u128, port: u16, flowinfo: u32, scope_id: u32 },
}

impl PeerAddr {
    /// 0 for an IPv4 address, 1 for an IPv6 address: every IPv4 address
    /// sorts before every IPv6 address.
    pub open spec fn family(self) -> int {
        match self {
            PeerAddr::V4 { .. } => 0,
            PeerAddr::V6 { .. } => 1,
        }
    }

    /// The IP address as a number.
    pub open spec fn ip_bits(self) -> int {
        match self {
            PeerAddr::V4 { ip, .. } => ip as int,
            PeerAddr::V6 { ip, .. } => ip as int,
        }
    }

    /// The port.
    pub open spec fn port_number(self) -> int {
        match self {
            PeerAddr::V4 { port, .. } => port as int,
            PeerAddr::V6 { port, .. } => port as int,
        }
    }

    /// The flow information of an IPv6 address; 0 for an IPv4 address.
    pub open spec fn flow(self) -> int {
        match self {
            PeerAddr::V4 { .. } => 0,
            PeerAddr::V6 { flowinfo, .. } => flowinfo as int,
        }
    }

    /// The scope of an IPv6 address; 0 for an IPv4 address.
    pub open spec fn scope(self) -> int {
        match self {
            PeerAddr::V4 { .. } => 0,
            PeerAddr::V6 { scope_id, .. } => scope_id as int,
        }
    }

    /// The order of addresses: by family, then by IP address, then by port,
    /// and for IPv6 addresses then by flow information and then by scope.
    /// It tells any two different addresses apart.
    pub open spec fn sorts_before(self, other: PeerAddr) -> bool {
        if self.family() != other.family() {
            self.family() < other.family()
        } else if self.ip_bits() != other.ip_bits() {
            self.ip_bits() < other.ip_bits()
        } else if self.port_number() != other.port_number() {
            self.port_number() < other.port_number()
        } else if self.flow() != other.flow() {
            self.flow() < other.flow()
        } else {
            self.scope() < other.scope()
        }
    }

    /// Two addresses that the order does not tell apart: one and the same
    /// address.
    pub open spec fn sorts_with(self, other: PeerAddr) -> bool {
        self == other
    }

    /// Of two addresses one comes before the other, or they are the same
    /// address; never two of these at once.
    pub proof fn lemma_order_tells_apart(self, other: PeerAddr)
        ensures
            self.sorts_before(other) || other.sorts_before(self) || self == other,
            !(self.sorts_before(other) && other.sorts_before(self)),
            !(self.sorts_before(other) && self == other),
    {
    }

    /// Whether this is an IPv4 address.
    pub fn is_ipv4(&self) -> (b: bool)
        ensures
            b == (self.family() == 0),
    {
        match self {
            PeerAddr::V4 { .. } => true,
            PeerAddr::V6 { .. } => false,
        }
    }

    /// The port of the address.
    pub fn port(&self) -> (p: u16)
        ensures
            p == self.port_number(),
    {
        match self {
            PeerAddr::V4 { port, .. } => *port,
            PeerAddr::V6 { port, .. } => *port,
        }
    }

    /// The IP address as a number, widened to 128 bits.
    pub fn ip(&self) -> (bits: u128)
        ensures
            bits == self.ip_bits(),
    {
        match self {
            PeerAddr::V4 { ip, .. } => {
                let wide: u128 = *ip as u128;
                wide
            },
            PeerAddr::V6 { ip, .. } => *ip,
        }
    }

    /// The flow information of an IPv6 address; 0 for an IPv4 address.
    pub fn flowinfo(&self) -> (flow: u32)
        ensures
            flow == self.flow(),
    {
        match self {
            PeerAddr::V4 { .. } => 0,
            PeerAddr::V6 { flowinfo, .. } => *flowinfo,
        }
    }

    /// The scope of an IPv6 address; 0 for an IPv4 address.
    pub fn scope_id(&self) -> (scope: u32)
        ensures
            scope == self.scope(),
    {
        match self {
            PeerAddr::V4 { .. } => 0,
            PeerAddr::V6 { scope_id, .. } => *scope_id,
        }
    }

    /// Whether `self` comes strictly before `other` in the order of
    /// addresses.
    pub fn precedes(&self, other: &PeerAddr) -> (b: bool)
        ensures
            b == self.sorts_before(*other),
    {
        let mine: bool = self.is_ipv4();
        let theirs: bool = other.is_ipv4();
        if mine != theirs {
            mine
        } else if self.ip() != other.ip() {
            self.ip() < other.ip()
        } else if self.port() != other.port() {
            self.port() < other.port()
        } else if self.flowinfo() != other.flowinfo() {
            self.flowinfo() < other.flowinfo()
        } else {
            self.scope_id() < other.scope_id()
        }
    }

    /// Whether the two are one and the same address, which is when the
    /// order of addresses does not tell them apart.
    pub fn ties_with(&self, other: &PeerAddr) -> (b: bool)
        ensures
            b == self.sorts_with(*other),
            b == (*self == *other),
    {
        self.is_ipv4() == other.is_ipv4() && self.ip() == other.ip() && self.port() == other.port()
            && self.flowinfo() == other.flowinfo() && self.scope_id() == other.scope_id()
    }
}

} // verus!
