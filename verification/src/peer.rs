//! The other nodes of the cluster and how they are reached.
//!
//! The topology is fixed at startup. Opening a connection is left to the
//! caller: a peer is handed out as a checked endpoint together with the
//! identity that every request to it has to carry.
use std::collections::HashMap;

use tonic::transport::Endpoint;
use vstd::prelude::*;

use crate::config::PeerAddress;
use crate::config::PeerMap;
use crate::config::parse_endpoint;
use crate::text::with_u64;
use crate::types::ClusterId;
use crate::types::NodeId;
use crate::types::NodeIdentity;

verus! {

use vstd::std_specs::iter::IteratorSpec;

use crate::config::parsed_endpoint;
use crate::node::leader::id_set;
use crate::types::IdentityView;

broadcast use vstd::std_specs::hash::group_hash_axioms;

/// A peer that cannot be reached.
#[derive(Debug, PartialEq, Eq)]
pub enum PeerError {
    /// The topology does not hold the node.
    NodeNotFound(NodeId),
    /// The address of the node is not a URI.
    InvalidUri { node_id: NodeId, uri: String },
}

impl PeerError {
    /// The wording of the error.
    pub open spec fn text(&self) -> Seq<char> {
        match self {
            PeerError::NodeNotFound(id) => "Node ID "@ + crate::text::decimal(id@ as nat)
                + " not found in peer map"@,
            PeerError::InvalidUri { node_id, uri } => "Invalid URI for node "@
                + crate::text::decimal(node_id@ as nat) + " ('"@ + uri@ + "')"@,
        }
    }

    /// Renders the error.
    pub fn message(&self) -> (r: String)
        ensures
            r@ == self.text(),
    {
        match self {
            PeerError::NodeNotFound(id) => with_u64("Node ID ".to_owned(), id.as_u64()).concat(
                " not found in peer map",
            ),
            PeerError::InvalidUri { node_id, uri } => {
                let s: String = with_u64("Invalid URI for node ".to_owned(), node_id.as_u64());
                s.concat(" ('").concat(uri.as_str()).concat("')")
            },
        }
    }
}

/// One peer with its address, as text and parsed.
#[derive(Debug)]
struct PeerConnection {
    node_id: NodeId,
    endpoint: Endpoint,
    address: String,
}

/// Where a peer is and whom a request to it comes from.
#[derive(Debug)]
pub struct ClientTarget<'a> {
    pub endpoint: &'a Endpoint,
    pub cluster_id: &'a ClusterId,
    pub node_id: NodeId,
}

/// The addresses that a list gives, by node; of two for one node the later
/// counts.
pub open spec fn address_book(peers: Seq<PeerAddress>) -> Map<u64, Seq<char>>
    decreases peers.len(),
{
    if peers.len() == 0 {
        Map::empty()
    } else {
        address_book(peers.drop_last()).insert(peers.last().node_id@, peers.last().uri@)
    }
}

/// The endpoints of a list, by node, given what the URI parser makes of each
/// address.
pub open spec fn endpoint_book(
    peers: Seq<PeerAddress>,
    parsed: Seq<Option<Endpoint>>,
) -> Map<u64, Endpoint>
    decreases peers.len(),
{
    if peers.len() == 0 {
        Map::empty()
    } else {
        endpoint_book(peers.drop_last(), parsed.drop_last()).insert(
            peers.last().node_id@,
            parsed.last()->0,
        )
    }
}

/// The books of a list that names no node twice hold each of its entries, and
/// nothing else.
proof fn lemma_books(peers: Seq<PeerAddress>, parsed: Seq<Option<Endpoint>>)
    requires
        peers.len() == parsed.len(),
        forall|i: int, j: int|
            0 <= i < j < peers.len() ==> (#[trigger] peers[i]).node_id@ != (
            #[trigger] peers[j]).node_id@,
    ensures
        forall|i: int|
            #![trigger peers[i]]
            0 <= i < peers.len() ==> {
                &&& address_book(peers).contains_key(peers[i].node_id@)
                &&& address_book(peers)[peers[i].node_id@] == peers[i].uri@
                &&& endpoint_book(peers, parsed).contains_key(peers[i].node_id@)
                &&& endpoint_book(peers, parsed)[peers[i].node_id@] == parsed[i]->0
            },
        forall|k: u64| #[trigger]
            address_book(peers).contains_key(k) ==> exists|i: int|
                0 <= i < peers.len() && (#[trigger] peers[i]).node_id@ == k,
        endpoint_book(peers, parsed).dom() == address_book(peers).dom(),
    decreases peers.len(),
{
    if peers.len() > 0 {
        let p = peers.drop_last();
        let q = parsed.drop_last();
        assert forall|i: int, j: int| 0 <= i < j < p.len() implies (#[trigger] p[i]).node_id@ != (
        #[trigger] p[j]).node_id@ by {
            assert(peers[i].node_id@ != peers[j].node_id@);
        }
        lemma_books(p, q);
        assert forall|i: int|
            #![trigger peers[i]]
            0 <= i < peers.len() implies {
            &&& address_book(peers).contains_key(peers[i].node_id@)
            &&& address_book(peers)[peers[i].node_id@] == peers[i].uri@
            &&& endpoint_book(peers, parsed).contains_key(peers[i].node_id@)
            &&& endpoint_book(peers, parsed)[peers[i].node_id@] == parsed[i]->0
        } by {
            if i < p.len() {
                assert(p[i] == peers[i]);
                assert(peers[i].node_id@ != peers[p.len() as int].node_id@);
            }
        }
        assert forall|k: u64| #[trigger] address_book(peers).contains_key(k) implies exists|i: int|
            0 <= i < peers.len() && (#[trigger] peers[i]).node_id@ == k by {
            if k == peers.last().node_id@ {
                assert(peers[p.len() as int].node_id@ == k);
            } else {
                assert(address_book(p).contains_key(k));
                let i = choose|i: int| 0 <= i < p.len() && (#[trigger] p[i]).node_id@ == k;
                assert(peers[i].node_id@ == k);
            }
        }
        assert(endpoint_book(peers, parsed).dom() =~= address_book(peers).dom());
    }
}

/// Whether number `i` is the first that the URI parser does not accept.
pub open spec fn first_invalid(parsed: Seq<Option<Endpoint>>, i: int) -> bool {
    &&& 0 <= i < parsed.len()
    &&& parsed[i] is None
    &&& forall|j: int| 0 <= j < i ==> (#[trigger] parsed[j]) is Some
}

/// The peers of a node.
#[derive(Debug)]
pub struct PeerManager {
    identity: NodeIdentity,
    peers: HashMap<u64, PeerConnection>,
}

/// What setting up the peers gives, given what the URI parser makes of each
/// address.
pub open spec fn sets_up(
    identity: NodeIdentity,
    peers: Seq<PeerAddress>,
    parsed: Seq<Option<Endpoint>>,
    r: Result<PeerManager, PeerError>,
) -> bool {
    match r {
        Ok(m) => {
            &&& m.owner() == identity@
            &&& m.addresses() == address_book(peers)
            &&& m.endpoints() == endpoint_book(peers, parsed)
            &&& forall|j: int| 0 <= j < parsed.len() ==> (#[trigger] parsed[j]) is Some
        },
        Err(PeerError::InvalidUri { node_id, uri }) => exists|i: int| #[trigger]
            first_invalid(parsed, i) && node_id == peers[i].node_id && uri@ == peers[i].uri@,
        Err(_) => false,
    }
}

impl PeerManager {
    #[verifier::type_invariant]
    spec fn inv(self) -> bool {
        forall|k: u64| #[trigger] self.peers@.contains_key(k) ==> self.peers@[k].node_id@ == k
    }

    /// The addresses of the peers, by node.
    pub closed spec fn addresses(&self) -> Map<u64, Seq<char>> {
        Map::new(|k: u64| self.peers@.contains_key(k), |k: u64| self.peers@[k].address@)
    }

    /// The endpoints of the peers, by node.
    pub closed spec fn endpoints(&self) -> Map<u64, Endpoint> {
        Map::new(|k: u64| self.peers@.contains_key(k), |k: u64| self.peers@[k].endpoint)
    }

    /// The node whose peers these are.
    pub closed spec fn owner(&self) -> IdentityView {
        self.identity@
    }

    /// Checks every address of the topology. Of several that are no URIs any
    /// one is reported.
    pub fn try_new(identity: NodeIdentity, peer_map: &PeerMap) -> (r: Result<
        PeerManager,
        PeerError,
    >)
        ensures
            match r {
                Ok(m) => {
                    &&& m.owner() == identity@
                    &&& m.addresses() == peer_map@
                    &&& m.endpoints() == Map::new(
                        |k: u64| peer_map@.contains_key(k),
                        |k: u64| parsed_endpoint(peer_map@[k])->0,
                    )
                    &&& forall|k: u64| #[trigger]
                        peer_map@.contains_key(k) ==> parsed_endpoint(peer_map@[k]) is Some
                },
                Err(PeerError::InvalidUri { node_id, uri }) => {
                    &&& peer_map@.contains_key(node_id@)
                    &&& uri@ == peer_map@[node_id@]
                    &&& parsed_endpoint(uri@) is None
                },
                Err(_) => false,
            },
    {
        let list: Vec<PeerAddress> = peer_map.listed();
        let mut parsed: Vec<Option<Endpoint>> = Vec::new();
        let mut i: usize = 0;
        while i < list.len()
            invariant
                i <= list.len(),
                parsed.len() == i,
                forall|j: int|
                    0 <= j < i ==> #[trigger] parsed[j] == parsed_endpoint(list[j].uri@),
            decreases list.len() - i,
        {
            parsed.push(
                match parse_endpoint(&list[i].uri) {
                    Ok(e) => Some(e),
                    Err(_) => None,
                },
            );
            i = i + 1;
        }
        proof {
            let endpoints = Map::new(
                |k: u64| peer_map@.contains_key(k),
                |k: u64| parsed_endpoint(peer_map@[k])->0,
            );
            let addresses = address_book(list@);
            lemma_books(list@, parsed@);
            assert forall|k: u64| #[trigger] peer_map@.contains_key(k) implies
                addresses.contains_key(k) && addresses[k] == peer_map@[k] && endpoint_book(
                list@,
                parsed@,
            )[k] == endpoints[k] && exists|j: int|
                0 <= j < list.len() && (#[trigger] list@[j]).node_id@ == k by {
                let j = choose|j: int| 0 <= j < list.len() && (#[trigger] list@[j]).node_id@ == k;
                assert(parsed@[j] == parsed_endpoint(list@[j].uri@));
            }
            assert forall|k: u64| #[trigger] addresses.contains_key(k) implies
                peer_map@.contains_key(k) by {
                let j = choose|j: int| 0 <= j < list.len() && (#[trigger] list@[j]).node_id@ == k;
                assert(peer_map@.contains_key(list@[j].node_id@));
            }
            assert(addresses =~= peer_map@);
            assert(endpoint_book(list@, parsed@) =~= endpoints);
            if forall|j: int| 0 <= j < parsed.len() ==> (#[trigger] parsed@[j]) is Some {
                assert forall|k: u64| #[trigger] peer_map@.contains_key(k) implies parsed_endpoint(
                    peer_map@[k],
                ) is Some by {
                    let j = choose|j: int|
                        0 <= j < list.len() && (#[trigger] list@[j]).node_id@ == k;
                    assert(parsed@[j] is Some);
                }
            }
        }
        PeerManager::try_from_parsed(identity, &list, parsed)
    }

    /// Sets the peers up, given what the URI parser makes of each address.
    pub fn try_from_parsed(
        identity: NodeIdentity,
        peer_map: &Vec<PeerAddress>,
        parsed: Vec<Option<Endpoint>>,
    ) -> (r: Result<PeerManager, PeerError>)
        requires
            parsed.len() == peer_map.len(),
        ensures
            sets_up(identity, peer_map@, parsed@, r),
    {
        let ghost all = parsed@;
        let mut rest: Vec<Option<Endpoint>> = parsed;
        let mut peers: HashMap<u64, PeerConnection> = HashMap::new();
        let mut i: usize = 0;
        proof {
            assert(all.skip(0) =~= all);
        }
        while i < peer_map.len()
            invariant
                i <= peer_map.len(),
                all == parsed@,
                all.len() == peer_map.len(),
                rest@ == all.skip(i as int),
                forall|k: u64| #[trigger]
                    peers@.contains_key(k) <==> address_book(peer_map@.take(i as int)).contains_key(
                        k,
                    ),
                forall|k: u64| #[trigger]
                    peers@.contains_key(k) <==> endpoint_book(
                        peer_map@.take(i as int),
                        all.take(i as int),
                    ).contains_key(k),
                forall|k: u64| #[trigger]
                    peers@.contains_key(k) ==> peers@[k].node_id@ == k && peers@[k].address@
                        == address_book(peer_map@.take(i as int))[k] && peers@[k].endpoint
                        == endpoint_book(peer_map@.take(i as int), all.take(i as int))[k],
                forall|j: int| 0 <= j < i ==> (#[trigger] all[j]) is Some,
            decreases peer_map.len() - i,
        {
            let peer: &PeerAddress = &peer_map[i];
            let endpoint: Endpoint = match rest.remove(0) {
                Some(e) => e,
                None => {
                    assert(first_invalid(all, i as int));
                    return Err(
                        PeerError::InvalidUri { node_id: peer.node_id, uri: peer.uri.clone() },
                    );
                },
            };
            proof {
                assert(rest@ =~= all.skip(i + 1));
                assert(peer_map@.take(i + 1).drop_last() =~= peer_map@.take(i as int));
                assert(peer_map@.take(i + 1).last() == *peer);
                assert(all.take(i + 1).drop_last() =~= all.take(i as int));
                assert(all.take(i + 1).last() == Some(endpoint));
            }
            peers.insert(
                peer.node_id.as_u64(),
                PeerConnection { node_id: peer.node_id, endpoint, address: peer.uri.clone() },
            );
            i = i + 1;
        }
        let manager = PeerManager { identity, peers };
        proof {
            assert(peer_map@.take(i as int) =~= peer_map@);
            assert(all.take(i as int) =~= all);
            assert(manager.addresses() =~= address_book(peer_map@));
            assert(manager.endpoints() =~= endpoint_book(peer_map@, all));
        }
        Ok(manager)
    }

    /// Where to reach `node_id`, and what a request to it carries.
    pub fn get_client(&self, node_id: NodeId) -> (r: Result<ClientTarget<'_>, PeerError>)
        ensures
            match r {
                Ok(t) => {
                    &&& self.addresses().contains_key(node_id@)
                    &&& *t.endpoint == self.endpoints()[node_id@]
                    &&& t.cluster_id@ == self.owner().cluster
                    &&& t.node_id == node_id
                },
                Err(e) => !self.addresses().contains_key(node_id@) && e == PeerError::NodeNotFound(
                    node_id,
                ),
            },
    {
        proof {
            use_type_invariant(self);
        }
        match self.peers.get(&node_id.as_u64()) {
            Some(p) => Ok(
                ClientTarget {
                    endpoint: &p.endpoint,
                    cluster_id: self.identity.cluster_id(),
                    node_id,
                },
            ),
            None => Err(PeerError::NodeNotFound(node_id)),
        }
    }

    /// The address of `node_id`.
    pub fn get_address(&self, node_id: NodeId) -> (r: Result<String, PeerError>)
        ensures
            match r {
                Ok(s) => self.addresses().contains_key(node_id@) && s@
                    == self.addresses()[node_id@],
                Err(e) => !self.addresses().contains_key(node_id@) && e == PeerError::NodeNotFound(
                    node_id,
                ),
            },
    {
        match self.peers.get(&node_id.as_u64()) {
            Some(p) => Ok(p.address.clone()),
            None => Err(PeerError::NodeNotFound(node_id)),
        }
    }

    /// All peers, each once, in no particular order.
    pub fn peer_ids(&self) -> (r: Vec<NodeId>)
        ensures
            id_set(r@) == self.addresses().dom(),
            r@.no_duplicates(),
            r.len() == self.addresses().dom().len(),
    {
        proof {
            use_type_invariant(self);
        }
        let mut ids: Vec<NodeId> = Vec::new();
        let ghost dom = self.peers@.dom();
        for k in it: self.peers.keys()
            invariant
                dom == self.peers@.dom(),
                self.inv(),
                it.seq().unref().to_set() == dom,
                ids.len() == it.index(),
                forall|j: int| 0 <= j < ids.len() ==> (#[trigger] ids[j])@ == *it.seq()[j],
        {
            proof {
                assert(it.seq().unref()[it.index() as int] == *k);
                assert(it.seq().unref().to_set().contains(*k));
            }
            match self.peers.get(k) {
                Some(p) => ids.push(p.node_id),
                None => {},
            }
        }
        proof {
            let keys = self.peers.keys().remaining();
            let raw = ids@.map_values(|id: NodeId| id@);
            assert(raw =~= keys.unref());
            assert(self.addresses().dom() =~= dom);
            assert forall|a: int, b: int|
                0 <= a < b < ids.len() implies ids@[a] != ids@[b] by {
                assert(keys[a] != keys[b]);
            }
        }
        ids
    }
}

} // verus!
