use vstd::prelude::*;

use crate::net::{all_wf, netmask_of, to_wire_order, wire_order, IpNetwork, Ipv4Network};
use crate::peers::{with_route, PeerManager};

verus! {

/// The status code with which the system refuses a route that already exists.
pub const ROUTE_EXISTS: i32 = 5010;

/// A row of the IPv4 forwarding table. The destination, mask and next hop
/// are in network byte order, as the table takes them (see `wire_order`).
#[derive(Clone, Copy, Debug, PartialEq, Eq, Structural)]
pub struct RouteRow {
    pub dest: u32,
    pub mask: u32,
    pub next_hop: u32,
    pub if_index: u32,
    pub metric: u32,
    /// 4: a route to a remote destination.
    pub route_type: u32,
    /// 3: a static route.
    pub protocol: u32,
}

/// The row that adds a static route to `dest` through `next_hop`, preferred
/// with metric 30.
pub fn add_route_row(dest: Ipv4Network, next_hop: u32, if_index: u32) -> (r: RouteRow)
    requires
        dest.wf(),
    ensures
        r == (RouteRow {
            dest: wire_order(dest.addr & netmask_of(dest.prefix_len)),
            mask: wire_order(netmask_of(dest.prefix_len)),
            next_hop: wire_order(next_hop),
            if_index,
            metric: 30,
            route_type: 4,
            protocol: 3,
        }),
{
    RouteRow {
        dest: to_wire_order(dest.network()),
        mask: to_wire_order(dest.netmask()),
        next_hop: to_wire_order(next_hop),
        if_index,
        metric: 30,
        route_type: 4,
        protocol: 3,
    }
}

/// The row that names the static route to `dest` through `next_hop` for
/// deletion.
pub fn delete_route_row(dest: Ipv4Network, next_hop: u32) -> (r: RouteRow)
    requires
        dest.wf(),
    ensures
        r == (RouteRow {
            dest: wire_order(dest.addr & netmask_of(dest.prefix_len)),
            mask: wire_order(netmask_of(dest.prefix_len)),
            next_hop: wire_order(next_hop),
            if_index: 0,
            metric: 0,
            route_type: 4,
            protocol: 3,
        }),
{
    RouteRow {
        dest: to_wire_order(dest.network()),
        mask: to_wire_order(dest.netmask()),
        next_hop: to_wire_order(next_hop),
        if_index: 0,
        metric: 0,
        route_type: 4,
        protocol: 3,
    }
}

/// The outcome of a forwarding-table call from its status: success for 0,
/// the status as a signed code otherwise.
pub fn route_status(status: u32) -> (r: Result<(), i32>)
    ensures
        status == 0 ==> r == Ok::<(), i32>(()),
        status != 0 ==> r == Err::<(), i32>(status as i32),
{
    if status == 0 {
        Ok(())
    } else {
        Err(status as i32)
    }
}

/// The interface index given with new routes: 0, which lets the system pick
/// the interface from the next hop.
pub fn interface_index() -> (r: u32)
    ensures
        r == 0,
{
    0
}

/// The IPv4 networks among `nets`, in order.
pub open spec fn v4_networks(nets: Seq<IpNetwork>) -> Seq<Ipv4Network>
    decreases nets.len(),
{
    if nets.len() == 0 {
        Seq::<Ipv4Network>::empty()
    } else {
        let rest = v4_networks(nets.drop_last());
        match nets.last() {
            IpNetwork::V4(n) => rest.push(n),
            IpNetwork::V6 { .. } => rest,
        }
    }
}

/// The routes to set up for a peer: those recorded for it before (to remove),
/// the gateway (the address of its first allowed network, where that is
/// IPv4), the IPv4 networks among the others (none without a gateway), and
/// the interface index to give them.
pub struct RoutePlan {
    pub stale: Vec<Ipv4Network>,
    pub gateway: Option<u32>,
    pub destinations: Vec<Ipv4Network>,
    pub if_index: u32,
}

/// How adding one route went.
#[derive(Clone, Copy, Debug, PartialEq, Eq, Structural)]
pub enum RouteOutcome {
    Added,
    AlreadyExists,
    Failed(i32),
}

impl PeerManager {
    /// Starts routing through a peer: forgets the routes recorded for it and
    /// says which to remove and which to add.
    pub fn plan_peer_routes(&mut self, allowed_ips: &Vec<IpNetwork>, public_key: &str) -> (r:
        RoutePlan)
        requires
            allowed_ips@.len() >= 1,
            all_wf(allowed_ips@),
        ensures
            final(self).view().peers == old(self).view().peers,
            final(self).view().routes == old(self).view().routes.remove(public_key@),
            r.stale@ == if old(self).view().routes.contains_key(public_key@) {
                old(self).view().routes[public_key@]
            } else {
                Seq::<Ipv4Network>::empty()
            },
            r.gateway == match allowed_ips@[0] {
                IpNetwork::V4(n) => Some(n.addr),
                IpNetwork::V6 { .. } => None::<u32>,
            },
            r.destinations@ == if r.gateway is Some {
                v4_networks(allowed_ips@.drop_first())
            } else {
                Seq::<Ipv4Network>::empty()
            },
            r.if_index == 0,
            forall|i: int| 0 <= i < r.destinations@.len() ==> (#[trigger] r.destinations@[i]).wf(),
    {
        let stale = match self.clear_routes(public_key) {
            Some(v) => v,
            None => Vec::new(),
        };
        let gateway = match allowed_ips[0] {
            IpNetwork::V4(n) => Some(n.addr),
            IpNetwork::V6 { .. } => None,
        };
        let mut destinations: Vec<Ipv4Network> = Vec::new();
        if gateway.is_some() {
            let ghost rest = allowed_ips@.drop_first();
            let mut i: usize = 1;
            assert(rest.take(0) =~= Seq::<IpNetwork>::empty());
            while i < allowed_ips.len()
                invariant
                    1 <= i <= allowed_ips@.len(),
                    rest == allowed_ips@.drop_first(),
                    destinations@ == v4_networks(rest.take(i - 1)),
                    all_wf(allowed_ips@),
                    forall|k: int|
                        0 <= k < destinations@.len() ==> (#[trigger] destinations@[k]).wf(),
                decreases allowed_ips.len() - i,
            {
                proof {
                    assert(rest.take(i as int).drop_last() =~= rest.take(i - 1));
                    assert(rest.take(i as int).last() == allowed_ips@[i as int]);
                }
                assert(allowed_ips@[i as int].wf());
                match allowed_ips[i] {
                    IpNetwork::V4(n) => {
                        destinations.push(n);
                    },
                    IpNetwork::V6 { .. } => {},
                }
                i = i + 1;
            }
            assert(rest.take(rest.len() as int) =~= rest);
        }
        RoutePlan { stale, gateway, destinations, if_index: interface_index() }
    }

    /// Takes note of how adding the route `dest` for the peer with key text
    /// `public_key` went: a route that was added is recorded under the key.
    pub fn record_route(&mut self, public_key: String, dest: Ipv4Network, result: Result<(), i32>) -> (r:
        RouteOutcome)
        ensures
            final(self).view().peers == old(self).view().peers,
            match result {
                Ok(()) => r == RouteOutcome::Added && final(self).view().routes == with_route(
                    old(self).view().routes,
                    public_key@,
                    dest,
                ),
                Err(c) => final(self).view() == old(self).view() && if c == ROUTE_EXISTS {
                    r == RouteOutcome::AlreadyExists
                } else {
                    r == RouteOutcome::Failed(c)
                },
            },
    {
        match result {
            Ok(()) => {
                self.add_route(public_key, dest);
                RouteOutcome::Added
            },
            Err(c) => {
                if c == ROUTE_EXISTS {
                    RouteOutcome::AlreadyExists
                } else {
                    RouteOutcome::Failed(c)
                }
            },
        }
    }
}


/// The IPv4 networks of `nets` are exactly its `V4` items, in order and none
/// left out: as many as there are `V4` items, and each of them among them.
pub proof fn lemma_v4_networks_keep_all(nets: Seq<IpNetwork>)
    ensures
        v4_networks(nets) == nets.filter(|n: IpNetwork| n is V4).map_values(
            |n: IpNetwork| n->V4_0,
        ),
        v4_networks(nets).len() == nets.filter(|n: IpNetwork| n is V4).len(),
        forall|i: int|
            0 <= i < nets.len() && nets[i] is V4 ==> v4_networks(nets).contains(
                #[trigger] nets[i]->V4_0,
            ),
    decreases nets.len(),
{
    reveal(Seq::filter);
    if nets.len() > 0 {
        lemma_v4_networks_keep_all(nets.drop_last());
        let pred = |n: IpNetwork| n is V4;
        let get = |n: IpNetwork| n->V4_0;
        assert(nets.filter(pred) == {
            let sub = nets.drop_last().filter(pred);
            if pred(nets.last()) {
                sub.push(nets.last())
            } else {
                sub
            }
        });
        assert(v4_networks(nets) =~= nets.filter(pred).map_values(get));
        assert forall|i: int| 0 <= i < nets.len() && nets[i] is V4 implies v4_networks(
            nets,
        ).contains(#[trigger] nets[i]->V4_0) by {
            if i < nets.len() - 1 {
                assert(nets.drop_last()[i] == nets[i]);
                let j = choose|j: int|
                    0 <= j < v4_networks(nets.drop_last()).len() && v4_networks(
                        nets.drop_last(),
                    )[j] == nets[i]->V4_0;
                assert(v4_networks(nets)[j] == nets[i]->V4_0);
            } else {
                assert(v4_networks(nets).last() == nets[i]->V4_0);
            }
        }
    }
}

/// Every IPv4 network after the first allowed IP is routed through an IPv4
/// gateway: the planned destinations are exactly those networks, in order,
/// as many as there are.
pub proof fn lemma_plan_routes_every_network(allowed: Seq<IpNetwork>)
    requires
        allowed.len() >= 1,
        allowed[0] is V4,
    ensures
        ({
            let rest = allowed.drop_first();
            let d = v4_networks(rest);
            &&& d.len() == rest.filter(|n: IpNetwork| n is V4).len()
            &&& forall|i: int|
                1 <= i < allowed.len() && allowed[i] is V4 ==> d.contains(
                    #[trigger] allowed[i]->V4_0,
                )
        }),
{
    let rest = allowed.drop_first();
    lemma_v4_networks_keep_all(rest);
    assert forall|i: int| 1 <= i < allowed.len() && allowed[i] is V4 implies v4_networks(
        rest,
    ).contains(#[trigger] allowed[i]->V4_0) by {
        assert(rest[i - 1] == allowed[i]);
    }
}

} // verus!
