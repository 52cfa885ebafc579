use vstd::prelude::*;

use crate::net::{Endpoint, IpNetwork, Ipv4Network};

verus! {

/// A WireGuard peer as the control stream describes it.
pub struct Peer {
    pub public_key: [u8; 32],
    pub keep_alive: u16,
    pub allowed_ips: Vec<IpNetwork>,
    pub endpoint: Endpoint,
}

/// A peer as plain values.
pub ghost struct PeerView {
    pub public_key: Seq<u8>,
    pub keep_alive: u16,
    pub allowed_ips: Seq<IpNetwork>,
    pub endpoint: Endpoint,
}

impl View for Peer {
    type V = PeerView;

    open spec fn view(&self) -> PeerView {
        PeerView {
            public_key: self.public_key@,
            keep_alive: self.keep_alive,
            allowed_ips: self.allowed_ips@,
            endpoint: self.endpoint,
        }
    }
}

impl Peer {
    /// A copy of the peer.
    pub fn duplicate(&self) -> (r: Peer)
        ensures
            r@ == self@,
    {
        let mut ips: Vec<IpNetwork> = Vec::new();
        let mut i: usize = 0;
        while i < self.allowed_ips.len()
            invariant
                i <= self.allowed_ips.len(),
                ips@ == self.allowed_ips@.take(i as int),
            decreases self.allowed_ips.len() - i,
        {
            ips.push(self.allowed_ips[i]);
            i = i + 1;
            assert(ips@ =~= self.allowed_ips@.take(i as int));
        }
        assert(self.allowed_ips@.take(i as int) =~= self.allowed_ips@);
        Peer {
            public_key: self.public_key,
            keep_alive: self.keep_alive,
            allowed_ips: ips,
            endpoint: self.endpoint,
        }
    }
}

/// The routes installed on behalf of one peer, under its public key text.
struct RouteSet {
    owner: String,
    routes: Vec<Ipv4Network>,
}

/// The position of the first peer with public key `key`, or the length of the
/// sequence where there is none.
pub open spec fn key_index(peers: Seq<PeerView>, key: Seq<u8>) -> int
    decreases peers.len(),
{
    if peers.len() == 0 {
        0
    } else if peers[0].public_key == key {
        0
    } else {
        1 + key_index(peers.drop_first(), key)
    }
}

/// The peer list after `p` is added, or replaces the peer with its key.
pub open spec fn upsert(peers: Seq<PeerView>, p: PeerView) -> Seq<PeerView> {
    let i = key_index(peers, p.public_key);
    if i < peers.len() {
        peers.update(i, p)
    } else {
        peers.push(p)
    }
}

/// No two peers share a public key.
pub open spec fn keys_unique(peers: Seq<PeerView>) -> bool {
    forall|i: int, j: int|
        0 <= i < peers.len() && 0 <= j < peers.len() && i != j ==> peers[i].public_key
            != peers[j].public_key
}

/// The route table of a sequence of (owner, routes) entries.
pub open spec fn route_map(entries: Seq<(Seq<char>, Seq<Ipv4Network>)>) -> Map<
    Seq<char>,
    Seq<Ipv4Network>,
>
    decreases entries.len(),
{
    if entries.len() == 0 {
        Map::empty()
    } else {
        route_map(entries.drop_last()).insert(entries.last().0, entries.last().1)
    }
}

/// The route table after `route` is recorded for `key`, after the routes
/// recorded for it before.
pub open spec fn with_route(
    routes: Map<Seq<char>, Seq<Ipv4Network>>,
    key: Seq<char>,
    route: Ipv4Network,
) -> Map<Seq<char>, Seq<Ipv4Network>> {
    routes.insert(
        key,
        if routes.contains_key(key) {
            routes[key]
        } else {
            Seq::<Ipv4Network>::empty()
        }.push(route),
    )
}

pub open spec fn owners_unique(entries: Seq<(Seq<char>, Seq<Ipv4Network>)>) -> bool {
    forall|i: int, j: int|
        0 <= i < entries.len() && 0 <= j < entries.len() && i != j ==> entries[i].0
            != entries[j].0
}

/// The peers of the interface, and the routes installed for each of them.
pub struct PeerManager {
    peers: Vec<Peer>,
    routes: Vec<RouteSet>,
}

/// The state of a peer manager: its peers in order, and the routes recorded
/// under each public key text (never an empty list).
pub ghost struct PeerManagerView {
    pub peers: Seq<PeerView>,
    pub routes: Map<Seq<char>, Seq<Ipv4Network>>,
}

impl PeerManager {
    spec fn entries(&self) -> Seq<(Seq<char>, Seq<Ipv4Network>)> {
        Seq::new(self.routes@.len(), |i: int| (self.routes@[i].owner@, self.routes@[i].routes@))
    }

    spec fn peer_views(&self) -> Seq<PeerView> {
        Seq::new(self.peers@.len(), |i: int| self.peers@[i]@)
    }

    #[verifier::type_invariant]
    spec fn inv(&self) -> bool {
        &&& keys_unique(self.peer_views())
        &&& owners_unique(self.entries())
        &&& forall|i: int| 0 <= i < self.routes@.len() ==> self.routes@[i].routes@.len() > 0
    }

}

impl View for PeerManager {
    type V = PeerManagerView;

    closed spec fn view(&self) -> PeerManagerView {
        PeerManagerView { peers: self.peer_views(), routes: route_map(self.entries()) }
    }
}

impl PeerManager {
    /// A manager with no peers and no routes.
    pub fn new() -> (r: PeerManager)
        ensures
            r.view().peers == Seq::<PeerView>::empty(),
            r.view().routes == Map::<Seq<char>, Seq<Ipv4Network>>::empty(),
    {
        let r = PeerManager { peers: Vec::new(), routes: Vec::new() };
        assert(r.peer_views() =~= Seq::<PeerView>::empty());
        assert(r.entries() =~= Seq::<(Seq<char>, Seq<Ipv4Network>)>::empty());
        r
    }
}

/// Whether two keys are equal.
fn same_key(a: &[u8; 32], b: &[u8; 32]) -> (r: bool)
    ensures
        r == (a@ == b@),
{
    let mut i: usize = 0;
    while i < 32
        invariant
            i <= 32,
            forall|k: int| 0 <= k < i ==> a@[k] == b@[k],
        decreases 32 - i,
    {
        if a[i] != b[i] {
            return false;
        }
        i = i + 1;
    }
    assert(a@ =~= b@);
    true
}

proof fn lemma_key_index(s: Seq<PeerView>, key: Seq<u8>)
    ensures
        0 <= key_index(s, key) <= s.len(),
        forall|j: int| 0 <= j < key_index(s, key) ==> s[j].public_key != key,
        key_index(s, key) < s.len() ==> s[key_index(s, key)].public_key == key,
    decreases s.len(),
{
    if s.len() > 0 && s[0].public_key != key {
        lemma_key_index(s.drop_first(), key);
        assert forall|j: int| 0 <= j < key_index(s, key) implies s[j].public_key != key by {
            if j > 0 {
                assert(s[j] == s.drop_first()[j - 1]);
            }
        }
    }
}

/// The position of the first peer whose key is `key`, characterised.
proof fn lemma_first_match(s: Seq<PeerView>, key: Seq<u8>, i: int)
    requires
        0 <= i <= s.len(),
        forall|j: int| 0 <= j < i ==> s[j].public_key != key,
        i < s.len() ==> s[i].public_key == key,
    ensures
        key_index(s, key) == i,
{
    lemma_key_index(s, key);
}

impl PeerManager {
    /// Adds `peer`, or replaces the peer that has its public key.
    pub fn add_or_update_peer(&mut self, peer: Peer)
        ensures
            final(self).view().peers == upsert(old(self).view().peers, peer@),
            final(self).view().routes == old(self).view().routes,
            keys_unique(final(self).view().peers),
    {
        proof {
            use_type_invariant(&*self);
        }
        let ghost before = self.peer_views();
        let mut peers: Vec<Peer> = Vec::new();
        std::mem::swap(&mut peers, &mut self.peers);
        assert(Seq::new(peers@.len(), |k: int| peers@[k]@) =~= before);
        let n = peers.len();
        let mut i: usize = 0;
        while i < n
            invariant
                n == peers.len(),
                i <= n,
                before == Seq::new(peers@.len(), |k: int| peers@[k]@),
                forall|j: int| 0 <= j < i ==> before[j].public_key != peer.public_key@,
            ensures
                i <= n,
                i < n ==> before[i as int].public_key == peer.public_key@,
                forall|j: int| 0 <= j < i ==> before[j].public_key != peer.public_key@,
            decreases n - i,
        {
            if same_key(&peers[i].public_key, &peer.public_key) {
                break;
            }
            i = i + 1;
        }
        proof {
            lemma_first_match(before, peer.public_key@, i as int);
        }
        let ghost p = peer@;
        if i < n {
            peers.set(i, peer);
            assert(Seq::new(peers@.len(), |k: int| peers@[k]@) =~= before.update(i as int, p));
        } else {
            peers.push(peer);
            assert(Seq::new(peers@.len(), |k: int| peers@[k]@) =~= before.push(p));
        }
        let ghost after = Seq::new(peers@.len(), |k: int| peers@[k]@);
        assert(keys_unique(after)) by {
            assert(keys_unique(before));
        }
        self.peers = peers;
    }

    /// A copy of the peer list.
    pub fn get_peers(&self) -> (r: Vec<Peer>)
        ensures
            r@.len() == self.view().peers.len(),
            forall|i: int| 0 <= i < r@.len() ==> (#[trigger] r@[i])@ == self.view().peers[i],
    {
        let mut out: Vec<Peer> = Vec::new();
        let mut i: usize = 0;
        while i < self.peers.len()
            invariant
                i <= self.peers.len(),
                out@.len() == i,
                forall|k: int| 0 <= k < i ==> (#[trigger] out@[k])@ == self.peers@[k]@,
            decreases self.peers.len() - i,
        {
            out.push(self.peers[i].duplicate());
            i = i + 1;
        }
        out
    }
}

proof fn lemma_route_map_absent(e: Seq<(Seq<char>, Seq<Ipv4Network>)>, k: Seq<char>)
    requires
        forall|i: int| 0 <= i < e.len() ==> e[i].0 != k,
    ensures
        !route_map(e).contains_key(k),
    decreases e.len(),
{
    if e.len() > 0 {
        lemma_route_map_absent(e.drop_last(), k);
    }
}

proof fn lemma_route_map_lookup(e: Seq<(Seq<char>, Seq<Ipv4Network>)>, i: int)
    requires
        owners_unique(e),
        0 <= i < e.len(),
    ensures
        route_map(e).contains_key(e[i].0),
        route_map(e)[e[i].0] == e[i].1,
    decreases e.len(),
{
    if i < e.len() - 1 {
        assert(owners_unique(e.drop_last()));
        lemma_route_map_lookup(e.drop_last(), i);
        assert(e[i].0 != e.last().0);
    }
}

proof fn lemma_route_map_update(
    e: Seq<(Seq<char>, Seq<Ipv4Network>)>,
    i: int,
    v: Seq<Ipv4Network>,
)
    requires
        owners_unique(e),
        0 <= i < e.len(),
    ensures
        route_map(e.update(i, (e[i].0, v))) == route_map(e).insert(e[i].0, v),
    decreases e.len(),
{
    let k = e[i].0;
    let u = e.update(i, (k, v));
    if i == e.len() - 1 {
        assert(u.drop_last() =~= e.drop_last());
        assert(route_map(u) =~= route_map(e).insert(k, v));
    } else {
        assert(owners_unique(e.drop_last()));
        lemma_route_map_update(e.drop_last(), i, v);
        assert(u.drop_last() =~= e.drop_last().update(i, (k, v)));
        assert(e.last().0 != k);
        assert(route_map(u) =~= route_map(e).insert(k, v));
    }
}

proof fn lemma_route_map_remove(e: Seq<(Seq<char>, Seq<Ipv4Network>)>, i: int)
    requires
        owners_unique(e),
        0 <= i < e.len(),
    ensures
        route_map(e.remove(i)) == route_map(e).remove(e[i].0),
    decreases e.len(),
{
    let k = e[i].0;
    if i == e.len() - 1 {
        assert(e.remove(i) =~= e.drop_last());
        assert forall|j: int| 0 <= j < e.drop_last().len() implies e.drop_last()[j].0 != k by {
            assert(e.drop_last()[j] == e[j]);
        }
        lemma_route_map_absent(e.drop_last(), k);
        assert(route_map(e.remove(i)) =~= route_map(e).remove(k));
    } else {
        assert(owners_unique(e.drop_last()));
        lemma_route_map_remove(e.drop_last(), i);
        assert(e.remove(i).drop_last() =~= e.drop_last().remove(i));
        assert(e.remove(i).last() == e.last());
        assert(e.last().0 != k);
        assert(route_map(e.remove(i)) =~= route_map(e).remove(k));
    }
}

impl PeerManager {
    /// The position of the routes recorded under `owner`, if any.
    fn route_position(&self, owner: &String) -> (r: Option<usize>)
        ensures
            match r {
                Some(i) => i < self.routes@.len() && self.routes@[i as int].owner@ == owner@,
                None => forall|i: int|
                    0 <= i < self.routes@.len() ==> self.routes@[i].owner@ != owner@,
            },
    {
        let mut i: usize = 0;
        while i < self.routes.len()
            invariant
                i <= self.routes.len(),
                forall|j: int| 0 <= j < i ==> self.routes@[j].owner@ != owner@,
            decreases self.routes.len() - i,
        {
            if self.routes[i].owner == *owner {
                return Some(i);
            }
            i = i + 1;
        }
        None
    }

    /// Records `route` as installed for the peer whose key text is
    /// `public_key`, after those already recorded for it.
    pub fn add_route(&mut self, public_key: String, route: Ipv4Network)
        ensures
            final(self).view().peers == old(self).view().peers,
            final(self).view().routes == with_route(old(self).view().routes, public_key@, route),
    {
        proof {
            use_type_invariant(&*self);
        }
        let ghost e = self.entries();
        let pos = self.route_position(&public_key);
        let mut routes: Vec<RouteSet> = Vec::new();
        std::mem::swap(&mut routes, &mut self.routes);
        assert(Seq::new(routes@.len(), |k: int| (routes@[k].owner@, routes@[k].routes@)) =~= e);
        match pos {
            Some(i) => {
                let mut entry = routes.remove(i);
                let ghost v = entry.routes@.push(route);
                proof {
                    lemma_route_map_lookup(e, i as int);
                }
                entry.routes.push(route);
                routes.insert(i, entry);
                let ghost after = Seq::new(
                    routes@.len(),
                    |k: int| (routes@[k].owner@, routes@[k].routes@),
                );
                assert(after =~= e.update(i as int, (e[i as int].0, v)));
                proof {
                    lemma_route_map_update(e, i as int, v);
                }
            },
            None => {
                proof {
                    lemma_route_map_absent(e, public_key@);
                }
                let ghost k = public_key@;
                let mut first: Vec<Ipv4Network> = Vec::new();
                first.push(route);
                routes.push(RouteSet { owner: public_key, routes: first });
                let ghost after = Seq::new(
                    routes@.len(),
                    |k: int| (routes@[k].owner@, routes@[k].routes@),
                );
                assert(after =~= e.push((k, seq![route])));
                assert(after.drop_last() =~= e);
                assert(seq![route] =~= Seq::<Ipv4Network>::empty().push(route));
            },
        }
        self.routes = routes;
    }

    /// Forgets the routes recorded for the peer whose key text is
    /// `public_key`, and returns them (the caller removes them from the
    /// system), or `None` where none were recorded.
    pub fn clear_routes(&mut self, public_key: &str) -> (r: Option<Vec<Ipv4Network>>)
        ensures
            final(self).view().peers == old(self).view().peers,
            final(self).view().routes == old(self).view().routes.remove(public_key@),
            match r {
                Some(v) => old(self).view().routes.contains_key(public_key@)
                    && v@ == old(self).view().routes[public_key@],
                None => !old(self).view().routes.contains_key(public_key@),
            },
    {
        proof {
            use_type_invariant(&*self);
        }
        let ghost e = self.entries();
        let owner = public_key.to_owned();
        match self.route_position(&owner) {
            None => {
                proof {
                    lemma_route_map_absent(e, public_key@);
                    assert(route_map(e).remove(public_key@) =~= route_map(e));
                }
                None
            },
            Some(i) => {
                let mut routes: Vec<RouteSet> = Vec::new();
                std::mem::swap(&mut routes, &mut self.routes);
                assert(Seq::new(routes@.len(), |k: int| (routes@[k].owner@, routes@[k].routes@))
                    =~= e);
                proof {
                    lemma_route_map_lookup(e, i as int);
                    lemma_route_map_remove(e, i as int);
                }
                let entry = routes.remove(i);
                let ghost after = Seq::new(
                    routes@.len(),
                    |k: int| (routes@[k].owner@, routes@[k].routes@),
                );
                assert(after =~= e.remove(i as int));
                self.routes = routes;
                Some(entry.routes)
            },
        }
    }
}

/// Adding or updating a peer never leaves two peers with one public key.
pub proof fn lemma_upsert_keeps_keys_unique(peers: Seq<PeerView>, p: PeerView)
    requires
        keys_unique(peers),
    ensures
        keys_unique(upsert(peers, p)),
{
    lemma_key_index(peers, p.public_key);
}

/// After adding or updating `p`, the peer list holds `p` exactly once (at the
/// place of the peer it replaced, or at the end), and every peer with another
/// key is kept in its place.
pub proof fn lemma_upsert_holds_peer(peers: Seq<PeerView>, p: PeerView)
    requires
        keys_unique(peers),
    ensures
        ({
            let u = upsert(peers, p);
            let i = key_index(peers, p.public_key);
            &&& 0 <= i < u.len()
            &&& u[i] == p
            &&& forall|j: int| 0 <= j < u.len() && j != i ==> u[j].public_key != p.public_key
            &&& forall|j: int|
                0 <= j < peers.len() && j != i ==> u[j] == peers[j]
            &&& u.len() == if i < peers.len() {
                peers.len()
            } else {
                peers.len() + 1
            }
        }),
{
    lemma_key_index(peers, p.public_key);
}

/// Announcing the same peer twice has the effect of announcing it once.
pub proof fn lemma_upsert_idempotent(peers: Seq<PeerView>, p: PeerView)
    ensures
        upsert(upsert(peers, p), p) == upsert(peers, p),
{
    let u = upsert(peers, p);
    let i = key_index(peers, p.public_key);
    lemma_key_index(peers, p.public_key);
    assert forall|j: int| 0 <= j < i implies u[j].public_key != p.public_key by {
        assert(u[j] == peers[j]);
    }
    lemma_first_match(u, p.public_key, i);
    assert(u.update(i, p) =~= u);
}

/// Recording a route for a peer and then forgetting the peer's routes leaves
/// the table as forgetting them alone would; meanwhile the route stands last
/// under the peer's key, and the routes of every other peer are untouched.
pub proof fn lemma_forget_after_record(
    routes: Map<Seq<char>, Seq<Ipv4Network>>,
    key: Seq<char>,
    route: Ipv4Network,
)
    ensures
        with_route(routes, key, route).remove(key) == routes.remove(key),
        with_route(routes, key, route).contains_key(key),
        with_route(routes, key, route)[key].last() == route,
        forall|k: Seq<char>|
            k != key ==> (with_route(routes, key, route).contains_key(k) == routes.contains_key(k)
                && (routes.contains_key(k) ==> with_route(routes, key, route)[k] == routes[k])),
{
    assert(with_route(routes, key, route).remove(key) =~= routes.remove(key));
}

/// Once a peer's routes are forgotten, the next route recorded for it is the
/// only one listed under its key.
pub proof fn lemma_record_after_forget(
    routes: Map<Seq<char>, Seq<Ipv4Network>>,
    key: Seq<char>,
    route: Ipv4Network,
)
    ensures
        with_route(routes.remove(key), key, route)[key] == seq![route],
{
    assert(Seq::<Ipv4Network>::empty().push(route) =~= seq![route]);
}


/// Recording a route for a key keeps every route recorded under it before, in
/// its place, and adds the new one after them: the list grows by exactly one.
pub proof fn lemma_record_appends(
    routes: Map<Seq<char>, Seq<Ipv4Network>>,
    key: Seq<char>,
    route: Ipv4Network,
)
    ensures
        ({
            let before = if routes.contains_key(key) {
                routes[key].len()
            } else {
                0
            };
            let after = with_route(routes, key, route);
            &&& after.contains_key(key)
            &&& after[key].len() == before + 1
            &&& after[key][before as int] == route
            &&& forall|i: int|
                0 <= i < before ==> #[trigger] after[key][i] == routes[key][i]
        }),
{
}

} // verus!
