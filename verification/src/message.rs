use vstd::prelude::*;

use crate::codec::{base64_decoding, decode_base64, key_array};
use crate::addr::{ip_network_of, parse_ip_network};
use crate::net::{
    all_wf, allowed_network, allowed_network_of, AllowedIp, Endpoint, IpAddress, IpNetwork,
};
use crate::peers::{upsert, Peer, PeerManager, PeerView};
use crate::text::{
    chars_equal, chars_of, parse_u16, parse_u16_chars, split_chars, split_on, string_of, trim,
    trim_chars, words, words_of,
};

verus! {

/// The fields of a peer announcement, `wg <key> <any> <endpoint> <ips> <keepalive>`,
/// as text. The endpoint and the allowed IPs are left as text: they are read
/// with the standard library's address parsers.
pub struct PeerFields {
    /// The peer's public key, in base64.
    pub key_text: String,
    /// The endpoint, unless the message gives `x` in its place.
    pub endpoint_text: Option<String>,
    /// The comma-separated allowed IPs, each trimmed (none for `x`).
    pub ip_texts: Vec<String>,
    /// The persistent keepalive interval, in seconds.
    pub keepalive_text: String,
}

pub ghost struct PeerFieldsView {
    pub key_text: Seq<char>,
    pub endpoint_text: Option<Seq<char>>,
    pub ip_texts: Seq<Seq<char>>,
    pub keepalive_text: Seq<char>,
}

impl View for PeerFields {
    type V = PeerFieldsView;

    open spec fn view(&self) -> PeerFieldsView {
        PeerFieldsView {
            key_text: self.key_text@,
            endpoint_text: match self.endpoint_text {
                Some(t) => Some(t@),
                None => None,
            },
            ip_texts: Seq::new(self.ip_texts@.len(), |i: int| self.ip_texts@[i]@),
            keepalive_text: self.keepalive_text@,
        }
    }
}

/// What a line of the control stream asks for.
pub enum Message {
    /// Not a peer announcement; nothing is done.
    Ignored,
    /// A peer announcement.
    Peer(PeerFields),
}

/// Why a peer announcement was refused.
#[derive(Clone, Copy, Debug, PartialEq, Eq, Structural)]
pub enum MessageError {
    /// The public key is not base64.
    BadKeyEncoding,
    /// The public key does not decode to 32 bytes.
    BadKeyLength,
    /// The endpoint is not a socket address.
    BadEndpoint,
    /// The keepalive is not a 16-bit number.
    BadKeepalive,
}

/// A field that stands for "not given": `x`, or nothing.
pub open spec fn is_placeholder(t: Seq<char>) -> bool {
    t == "x"@ || t.len() == 0
}

/// The fields of a control-stream line: six words, the first `wg`; otherwise
/// the line asks for nothing.
pub open spec fn message_fields(m: Seq<char>) -> Option<PeerFieldsView> {
    let parts = words(m);
    if parts.len() >= 2 && parts[0] == "wg"@ && parts.len() == 6 {
        Some(
            PeerFieldsView {
                key_text: parts[1],
                endpoint_text: if is_placeholder(parts[3]) {
                    None
                } else {
                    Some(parts[3])
                },
                ip_texts: if is_placeholder(parts[4]) {
                    Seq::<Seq<char>>::empty()
                } else {
                    split_on(parts[4], ',').map_values(|t: Seq<char>| trim(t))
                },
                keepalive_text: parts[5],
            },
        )
    } else {
        None
    }
}

/// The allowed IPs of a peer: the network of each item that could be read (a
/// bare address standing for itself alone), in order; the others are skipped.
pub open spec fn allowed_networks(ips: Seq<Option<AllowedIp>>) -> Seq<IpNetwork>
    decreases ips.len(),
{
    if ips.len() == 0 {
        Seq::<IpNetwork>::empty()
    } else {
        let rest = allowed_networks(ips.drop_last());
        match ips.last() {
            Some(a) => rest.push(allowed_network(a)),
            None => rest,
        }
    }
}

/// Every network that the parsers read has a valid prefix length.
pub open spec fn items_wf(ips: Seq<Option<AllowedIp>>) -> bool {
    forall|i: int|
        0 <= i < ips.len() ==> ((#[trigger] ips[i]) matches Some(AllowedIp::Network(n)) ==> n.wf())
}

proof fn lemma_allowed_networks_wf(ips: Seq<Option<AllowedIp>>)
    requires
        items_wf(ips),
    ensures
        all_wf(allowed_networks(ips)),
    decreases ips.len(),
{
    if ips.len() > 0 {
        assert(items_wf(ips.drop_last())) by {
            assert forall|i: int| 0 <= i < ips.drop_last().len() implies (
            #[trigger] ips.drop_last()[i] matches Some(AllowedIp::Network(n)) ==> n.wf()) by {
                assert(ips.drop_last()[i] == ips[i]);
            }
        }
        lemma_allowed_networks_wf(ips.drop_last());
        assert(ips.last() == ips[ips.len() - 1]);
    }
}

/// How an allowed-IP item is read: as a network (address, `/`, prefix
/// length) where the `ipnet` reading accepts it, else as a bare address where
/// `address` (the standard library's reading of the same text) has one, else
/// not at all.
pub open spec fn item_reading(text: Seq<char>, address: Option<IpAddress>) -> Option<AllowedIp> {
    match ip_network_of(text) {
        Some(n) => Some(AllowedIp::Network(n)),
        None => match address {
            Some(a) => Some(AllowedIp::Address(a)),
            None => None,
        },
    }
}

/// The reading of each allowed-IP text, given the standard library's address
/// reading of each.
pub open spec fn items_read(texts: Seq<Seq<char>>, addresses: Seq<Option<IpAddress>>) -> Seq<
    Option<AllowedIp>,
> {
    Seq::new(texts.len(), |i: int| item_reading(texts[i], addresses[i]))
}

/// The peer that an announcement describes, given the socket address that
/// the standard library reads from its endpoint text (ignored where there is
/// none) and the address it reads from each allowed-IP text.
pub open spec fn peer_from(
    f: PeerFieldsView,
    endpoint: Option<Endpoint>,
    addresses: Seq<Option<IpAddress>>,
) -> Result<PeerView, MessageError> {
    peer_with(f, endpoint, items_read(f.ip_texts, addresses))
}

/// The peer that an announcement describes, given the socket address read
/// from its endpoint text (where it names one) and the reading of each of its
/// allowed-IP items. The key is checked first, then the endpoint, then the
/// keepalive; an endpoint given as `x` is `0.0.0.0:0` and a keepalive given as
/// `x` is 0.
pub open spec fn peer_with(
    f: PeerFieldsView,
    endpoint: Option<Endpoint>,
    ips: Seq<Option<AllowedIp>>,
) -> Result<PeerView, MessageError> {
    match base64_decoding(f.key_text) {
        None => Err(MessageError::BadKeyEncoding),
        Some(key) => if key.len() != 32 {
            Err(MessageError::BadKeyLength)
        } else {
            let ep = match f.endpoint_text {
                None => Some(Endpoint::V4(0, 0)),
                Some(_) => endpoint,
            };
            match ep {
                None => Err(MessageError::BadEndpoint),
                Some(e) => {
                    let keep = if is_placeholder(f.keepalive_text) {
                        Some(0u16)
                    } else {
                        parse_u16(f.keepalive_text)
                    };
                    match keep {
                        None => Err(MessageError::BadKeepalive),
                        Some(k) => Ok(
                            PeerView {
                                public_key: key,
                                keep_alive: k,
                                allowed_ips: allowed_networks(ips),
                                endpoint: e,
                            },
                        ),
                    }
                },
            }
        },
    }
}

fn is_placeholder_chars(t: &Vec<char>, x: &Vec<char>) -> (r: bool)
    requires
        x@ == "x"@,
    ensures
        r == is_placeholder(t@),
{
    t.len() == 0 || chars_equal(t, x)
}

/// Splits a control-stream line into its fields.
pub fn split_message(message: &str) -> (r: Message)
    ensures
        match message_fields(message@) {
            None => r is Ignored,
            Some(f) => r matches Message::Peer(p) && p@ == f,
        },
{
    let chars = chars_of(message);
    let parts = words_of(&chars);
    let wg = chars_of("wg");
    let x = chars_of("x");
    let ghost w = words(message@);
    if parts.len() < 2 || parts.len() != 6 || !chars_equal(&parts[0], &wg) {
        return Message::Ignored;
    }
    let endpoint_text = if is_placeholder_chars(&parts[3], &x) {
        None
    } else {
        Some(string_of(&parts[3]))
    };
    let mut ip_texts: Vec<String> = Vec::new();
    let ghost expected: Seq<Seq<char>> = if is_placeholder(w[4]) {
        Seq::<Seq<char>>::empty()
    } else {
        split_on(w[4], ',').map_values(|t: Seq<char>| trim(t))
    };
    if !is_placeholder_chars(&parts[4], &x) {
        let pieces = split_chars(&parts[4], ',');
        let mut i: usize = 0;
        while i < pieces.len()
            invariant
                i <= pieces@.len(),
                pieces@.len() == split_on(w[4], ',').len(),
                forall|k: int|
                    0 <= k < pieces@.len() ==> (#[trigger] pieces@[k])@ == split_on(w[4], ',')[k],
                ip_texts@.len() == i,
                forall|k: int| 0 <= k < i ==> (#[trigger] ip_texts@[k])@ == trim(pieces@[k]@),
            decreases pieces.len() - i,
        {
            let t = trim_chars(&pieces[i]);
            ip_texts.push(string_of(&t));
            i = i + 1;
        }
    }
    let fields = PeerFields {
        key_text: string_of(&parts[1]),
        endpoint_text,
        ip_texts,
        keepalive_text: string_of(&parts[5]),
    };
    assert(fields@.ip_texts =~= expected);
    Message::Peer(fields)
}

/// The peer that an announcement describes, given the socket address read
/// from its endpoint text (ignored where there is none) and the reading of
/// each of its allowed-IP items, in order.
pub fn assemble_peer(fields: &PeerFields, endpoint: Option<Endpoint>, ips: &Vec<Option<AllowedIp>>) -> (r:
    Result<Peer, MessageError>)
    requires
        items_wf(ips@),
    ensures
        match peer_with(fields@, endpoint, ips@) {
            Ok(p) => r is Ok && r->Ok_0@ == p && all_wf(p.allowed_ips),
            Err(e) => r == Err::<Peer, MessageError>(e),
        },
{
    let key_chars = chars_of(fields.key_text.as_str());
    let key = match decode_base64(&key_chars) {
        None => {
            return Err(MessageError::BadKeyEncoding);
        },
        Some(k) => k,
    };
    if key.len() != 32 {
        return Err(MessageError::BadKeyLength);
    }
    let public_key = key_array(&key);
    let ep = match &fields.endpoint_text {
        None => Endpoint::V4(0, 0),
        Some(_) => match endpoint {
            None => {
                return Err(MessageError::BadEndpoint);
            },
            Some(e) => e,
        },
    };
    let keep_chars = chars_of(fields.keepalive_text.as_str());
    let x = chars_of("x");
    let keep_alive = if is_placeholder_chars(&keep_chars, &x) {
        0u16
    } else {
        match parse_u16_chars(&keep_chars) {
            None => {
                return Err(MessageError::BadKeepalive);
            },
            Some(k) => k,
        }
    };
    let mut allowed_ips: Vec<IpNetwork> = Vec::new();
    let mut i: usize = 0;
    assert(ips@.take(0) =~= Seq::<Option<AllowedIp>>::empty());
    while i < ips.len()
        invariant
            i <= ips@.len(),
            items_wf(ips@),
            allowed_ips@ == allowed_networks(ips@.take(i as int)),
        decreases ips.len() - i,
    {
        proof {
            assert(ips@.take(i + 1).drop_last() =~= ips@.take(i as int));
        }
        match ips[i] {
            Some(a) => {
                allowed_ips.push(allowed_network_of(a));
            },
            None => {},
        }
        i = i + 1;
    }
    assert(ips@.take(ips@.len() as int) =~= ips@);
    proof {
        lemma_allowed_networks_wf(ips@);
    }
    Ok(Peer { public_key, keep_alive, allowed_ips, endpoint: ep })
}

/// Reads each allowed-IP item of an announcement: as a network through
/// `ipnet`, else as the bare address in `addresses` (the standard library's
/// reading of the same text).
pub fn read_allowed_ips(fields: &PeerFields, addresses: &Vec<Option<IpAddress>>) -> (r: Vec<
    Option<AllowedIp>,
>)
    requires
        addresses@.len() == fields.ip_texts@.len(),
    ensures
        r@ == items_read(fields@.ip_texts, addresses@),
        items_wf(r@),
{
    let mut r: Vec<Option<AllowedIp>> = Vec::new();
    let mut i: usize = 0;
    while i < fields.ip_texts.len()
        invariant
            i <= fields.ip_texts@.len(),
            addresses@.len() == fields.ip_texts@.len(),
            r@.len() == i,
            forall|k: int|
                0 <= k < i ==> (#[trigger] r@[k]) == item_reading(
                    fields.ip_texts@[k]@,
                    addresses@[k],
                ),
            items_wf(r@),
        decreases fields.ip_texts.len() - i,
    {
        let item = match parse_ip_network(fields.ip_texts[i].as_str()) {
            Some(n) => Some(AllowedIp::Network(n)),
            None => match addresses[i] {
                Some(a) => Some(AllowedIp::Address(a)),
                None => None,
            },
        };
        r.push(item);
        i = i + 1;
    }
    assert(r@ =~= items_read(fields@.ip_texts, addresses@));
    r
}

/// The peer that an announcement describes, given the socket address that
/// the standard library reads from its endpoint text (ignored where there is
/// none) and the address it reads from each allowed-IP text: each item is read
/// as a network first (see `read_allowed_ips`).
pub fn build_peer(fields: &PeerFields, endpoint: Option<Endpoint>, addresses: &Vec<Option<IpAddress>>) -> (r:
    Result<Peer, MessageError>)
    requires
        addresses@.len() == fields.ip_texts@.len(),
    ensures
        match peer_from(fields@, endpoint, addresses@) {
            Ok(p) => r is Ok && r->Ok_0@ == p && all_wf(p.allowed_ips),
            Err(e) => r == Err::<Peer, MessageError>(e),
        },
{
    let items = read_allowed_ips(fields, addresses);
    assemble_peer(fields, endpoint, &items)
}

/// What an accepted announcement changed: the peer list to give the adapter,
/// the key text of the peer, and the allowed IPs to route through it where
/// automatic routing is on and it has more than one.
pub struct PeerChange {
    pub peers: Vec<Peer>,
    pub key_text: String,
    pub route_request: Option<Vec<IpNetwork>>,
}

impl PeerManager {
    /// Applies a peer announcement: builds the peer (see `build_peer`) and
    /// adds it, or replaces the peer with its key. A refused announcement
    /// changes nothing.
    pub fn apply_announcement(
        &mut self,
        fields: PeerFields,
        endpoint: Option<Endpoint>,
        addresses: &Vec<Option<IpAddress>>,
        auto_route: bool,
    ) -> (r: Result<PeerChange, MessageError>)
        requires
            addresses@.len() == fields.ip_texts@.len(),
        ensures
            match peer_from(fields@, endpoint, addresses@) {
                Err(e) => r == Err::<PeerChange, MessageError>(e) && final(self).view()
                    == old(self).view(),
                Ok(p) => r matches Ok(c) && {
                    &&& all_wf(p.allowed_ips)
                    &&& final(self).view().peers == upsert(old(self).view().peers, p)
                    &&& final(self).view().routes == old(self).view().routes
                    &&& c.peers@.len() == final(self).view().peers.len()
                    &&& forall|i: int|
                        0 <= i < c.peers@.len() ==> (#[trigger] c.peers@[i])@
                            == final(self).view().peers[i]
                    &&& c.key_text@ == fields@.key_text
                    &&& match c.route_request {
                        Some(v) => auto_route && p.allowed_ips.len() > 1 && v@ == p.allowed_ips,
                        None => !(auto_route && p.allowed_ips.len() > 1),
                    }
                },
            },
    {
        let peer = match build_peer(&fields, endpoint, addresses) {
            Err(e) => {
                return Err(e);
            },
            Ok(p) => p,
        };
        let route_request = if auto_route && peer.allowed_ips.len() > 1 {
            Some(peer.duplicate().allowed_ips)
        } else {
            None
        };
        self.add_or_update_peer(peer);
        let peers = self.get_peers();
        Ok(PeerChange { peers, key_text: fields.key_text, route_request })
    }
}


/// An announcement whose key decodes to 32 bytes and whose keepalive is `x`
/// or a 16-bit number is accepted with any socket address read from its
/// endpoint text, IPv4 or IPv6: the peer has that endpoint, that key, that
/// keepalive. Without an endpoint text the endpoint is 0.0.0.0:0. An
/// announcement is refused as `BadEndpoint` only where it gives an endpoint
/// text and no socket address was read from it.
pub proof fn lemma_endpoint_of_announcement(
    f: PeerFieldsView,
    endpoint: Option<Endpoint>,
    ips: Seq<Option<AllowedIp>>,
    key: Seq<u8>,
    keepalive: u16,
)
    requires
        base64_decoding(f.key_text) == Some(key),
        key.len() == 32,
        (is_placeholder(f.keepalive_text) && keepalive == 0) || (!is_placeholder(f.keepalive_text)
            && parse_u16(f.keepalive_text) == Some(keepalive)),
    ensures
        forall|e: Endpoint|
            f.endpoint_text is Some ==> (#[trigger] peer_with(f, Some(e), ips) matches Ok(p)
                && p.endpoint == e && p.public_key == key && p.keep_alive == keepalive),
        f.endpoint_text is None ==> (peer_with(f, endpoint, ips) matches Ok(p) && p.endpoint
            == Endpoint::V4(0, 0) && p.public_key == key && p.keep_alive == keepalive),
        peer_with(f, endpoint, ips) == Err::<PeerView, MessageError>(MessageError::BadEndpoint)
            <==> (f.endpoint_text is Some && endpoint is None),
{
}

/// Whatever the endpoint and the items, an announcement is refused as
/// `BadEndpoint` only where it names an endpoint that was not read.
pub proof fn lemma_bad_endpoint_only_unread(
    f: PeerFieldsView,
    endpoint: Option<Endpoint>,
    ips: Seq<Option<AllowedIp>>,
)
    ensures
        peer_with(f, endpoint, ips) == Err::<PeerView, MessageError>(MessageError::BadEndpoint)
            ==> f.endpoint_text is Some && endpoint is None,
{
}

} // verus!
