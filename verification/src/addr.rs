use vstd::prelude::*;

use ipnet::IpNet;

use crate::net::{IpNetwork, Ipv4Network};

verus! {

/// The network that the `ipnet` crate reads from `text` (`IpNet::from_str`:
/// an IPv4 or IPv6 address, `/` and a prefix length), or `None` where it
/// refuses the text.
pub uninterp spec fn ip_network_of(text: Seq<char>) -> Option<IpNetwork>;

/// `IpNet::from_str` of the `ipnet` crate. Claimed: the result is the named
/// reading of the text, its address as a number; and a network it reads has a
/// prefix length of at most 32 (IPv4) or 128 (IPv6), as its parser reads at
/// most that and `Ipv4Net::new` / `Ipv6Net::new` refuse more.
#[verifier::external_body]
pub(crate) fn parse_ip_network(text: &str) -> (r: Option<IpNetwork>)
    ensures
        r == ip_network_of(text@),
        r matches Some(n) ==> n.wf(),
{
    match text.parse::<IpNet>() {
        Ok(IpNet::V4(n)) => Some(
            IpNetwork::V4(Ipv4Network { addr: u32::from(n.addr()), prefix_len: n.prefix_len() }),
        ),
        Ok(IpNet::V6(n)) => Some(
            IpNetwork::V6 { addr: u128::from(n.addr()), prefix_len: n.prefix_len() },
        ),
        Err(_) => None,
    }
}

} // verus!
