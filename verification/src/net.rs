use vstd::prelude::*;


verus! {

/// An IPv4 network: an address and a prefix length of at most 32.
#[derive(Clone, Copy, Debug, PartialEq, Eq, Structural)]
pub struct Ipv4Network {
    pub addr: u32,
    pub prefix_len: u8,
}

/// An IP address, IPv4 or IPv6, as the number it stands for.
#[derive(Clone, Copy, Debug, PartialEq, Eq, Structural)]
pub enum IpAddress {
    V4(u32),
    V6(u128),
}

/// An IPv4 or IPv6 network.
#[derive(Clone, Copy, Debug, PartialEq, Eq, Structural)]
pub enum IpNetwork {
    V4(Ipv4Network),
    V6 { addr: u128, prefix_len: u8 },
}

/// A socket address: an IPv4 address and port, or an IPv6 address, port,
/// flow information and scope id.
#[derive(Clone, Copy, Debug, PartialEq, Eq, Structural)]
pub enum Endpoint {
    V4(u32, u16),
    V6(u128, u16, u32, u32),
}

/// The netmask of a prefix length: its `prefix_len` high bits set.
pub open spec fn netmask_of(prefix_len: u8) -> u32 {
    if prefix_len == 0 {
        0
    } else {
        0xffff_ffffu32 << ((32 - prefix_len) as u32)
    }
}

impl Ipv4Network {
    pub open spec fn wf(self) -> bool {
        self.prefix_len <= 32
    }

    /// `Ipv4Net::new`: refused for a prefix length above 32.
    pub fn new(addr: u32, prefix_len: u8) -> (r: Option<Ipv4Network>)
        ensures
            prefix_len <= 32 ==> r == Some(Ipv4Network { addr, prefix_len }),
            prefix_len > 32 ==> r is None,
    {
        if prefix_len > 32 {
            None
        } else {
            Some(Ipv4Network { addr, prefix_len })
        }
    }

    /// The netmask of the network.
    pub fn netmask(&self) -> (m: u32)
        requires
            self.wf(),
        ensures
            m == netmask_of(self.prefix_len),
    {
        if self.prefix_len == 0 {
            0
        } else {
            0xffff_ffffu32 << ((32 - self.prefix_len) as u32)
        }
    }

    /// The network address: the address with the host bits cleared.
    pub fn network(&self) -> (n: u32)
        requires
            self.wf(),
        ensures
            n == self.addr & netmask_of(self.prefix_len),
    {
        self.addr & self.netmask()
    }
}

impl IpNetwork {
    pub open spec fn wf(self) -> bool {
        match self {
            IpNetwork::V4(n) => n.wf(),
            IpNetwork::V6 { prefix_len, .. } => prefix_len <= 128,
        }
    }
}

/// The single-address network of prefix length 32 around `addr`, as
/// `IpNet::new(addr, 32)` builds it for either family.
pub open spec fn host_network(addr: IpAddress) -> IpNetwork {
    match addr {
        IpAddress::V4(a) => IpNetwork::V4(Ipv4Network { addr: a, prefix_len: 32 }),
        IpAddress::V6(a) => IpNetwork::V6 { addr: a, prefix_len: 32 },
    }
}

pub fn host_network_of(addr: IpAddress) -> (r: IpNetwork)
    ensures
        r == host_network(addr),
        r.wf(),
{
    match addr {
        IpAddress::V4(a) => IpNetwork::V4(Ipv4Network { addr: a, prefix_len: 32 }),
        IpAddress::V6(a) => IpNetwork::V6 { addr: a, prefix_len: 32 },
    }
}

/// An allowed-IP item as the address parsers read it: a bare address, or a
/// network written with its prefix length.
#[derive(Clone, Copy, Debug, PartialEq, Eq, Structural)]
pub enum AllowedIp {
    Address(IpAddress),
    Network(IpNetwork),
}

/// The network an allowed-IP item stands for: a bare address is the network
/// of that address alone (prefix length 32), a network is itself.
pub open spec fn allowed_network(a: AllowedIp) -> IpNetwork {
    match a {
        AllowedIp::Address(x) => host_network(x),
        AllowedIp::Network(n) => n,
    }
}

pub fn allowed_network_of(a: AllowedIp) -> (r: IpNetwork)
    requires
        a matches AllowedIp::Network(n) ==> n.wf(),
    ensures
        r == allowed_network(a),
        r.wf(),
{
    match a {
        AllowedIp::Address(x) => host_network_of(x),
        AllowedIp::Network(n) => n,
    }
}

/// Every network of `nets` has a valid prefix length.
pub open spec fn all_wf(nets: Seq<IpNetwork>) -> bool {
    forall|i: int| 0 <= i < nets.len() ==> (#[trigger] nets[i]).wf()
}

/// The IPv4 address `v` (first octet most significant) in network byte order
/// as a little-endian machine holds it in memory: the first octet in the
/// lowest byte. Windows, whose forwarding table takes addresses so, runs
/// little-endian only.
pub open spec fn wire_order(v: u32) -> u32 {
    ((v / 0x100_0000) + ((v / 0x1_0000) % 0x100) * 0x100 + ((v / 0x100) % 0x100) * 0x1_0000 + (
    v % 0x100) * 0x100_0000) as u32
}

/// The IPv4 address `v` in network byte order (see `wire_order`).
pub fn to_wire_order(v: u32) -> (r: u32)
    ensures
        r == wire_order(v),
{
    let r = (v >> 24u32) | ((v >> 8u32) & 0xff00u32) | ((v & 0xff00u32) << 8u32) | (v << 24u32);
    assert(r == ((v / 0x100_0000) + ((v / 0x1_0000) % 0x100) * 0x100 + ((v / 0x100) % 0x100)
        * 0x1_0000 + (v % 0x100) * 0x100_0000) as u32) by (bit_vector)
        requires
            r == (v >> 24u32) | ((v >> 8u32) & 0xff00u32) | ((v & 0xff00u32) << 8u32) | (v
                << 24u32),
    ;
    r
}

} // verus!
