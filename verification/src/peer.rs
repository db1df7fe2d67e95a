//! Peer sidecars: where forwarded instances and votes go, and what a vote
//! message says. The HTTP requests themselves are made by the caller.

use vstd::prelude::*;
use vstd::string::StringExecFns;

use crate::assoc::{ChainMap, DeepClone};
use crate::primitives::ChainId;

verus! {

/// A peer sidecar: the chain it serves and its `host:port`.
#[derive(Debug)]
pub struct PeerEntry {
    pub chain_id: ChainId,
    pub addr: String,
}

/// Sends instances and votes to peer sidecars over JSON-over-HTTP.
#[derive(Debug)]
pub struct HttpPeerCoordinator {
    pub peers: Vec<PeerEntry>,
}

/// A vote for an instance, as sent to peers.
#[derive(Debug)]
pub struct VoteRequest {
    pub instance_id: String,
    pub chain_id: u64,
    pub vote: bool,
}

/// An instance forwarded to peers: its id, its transactions by chain, and
/// the chain and sequence number it comes from.
#[derive(Debug)]
pub struct ForwardRequest {
    pub instance_id: String,
    pub txs: ChainMap<Vec<Vec<u8>>>,
    pub origin_chain: ChainId,
    pub origin_seq: u64,
}

/// The path on a peer to which instances are forwarded.
pub open spec fn forward_path() -> Seq<char> {
    "/xt/forward"@
}

/// The path on a peer to which votes are sent.
pub open spec fn vote_path() -> Seq<char> {
    "/xt/vote"@
}

/// The URL of `path` on the peer at `addr`.
pub open spec fn peer_url(addr: Seq<char>, path: Seq<char>) -> Seq<char> {
    "http://"@ + addr + path
}

/// `urls` holds, for each peer in order, its chain and the URL of `path` on it.
pub open spec fn urls_for(peers: Seq<PeerEntry>, path: Seq<char>, urls: Seq<(ChainId, String)>) -> bool {
    &&& urls.len() == peers.len()
    &&& forall|i: int| 0 <= i < peers.len() ==> (#[trigger] urls[i]).0 == peers[i].chain_id && urls[i].1@ == peer_url(
        peers[i].addr@,
        path,
    )
}

impl HttpPeerCoordinator {
    pub fn new(peers: Vec<PeerEntry>) -> (c: Self)
        ensures
            c.peers@ == peers@,
    {
        HttpPeerCoordinator { peers }
    }

    /// For each peer, its chain and the URL of `path` on it.
    pub fn all_peer_urls(&self, path: &str) -> (urls: Vec<(ChainId, String)>)
        ensures
            urls_for(self.peers@, path@, urls@),
    {
        let mut urls: Vec<(ChainId, String)> = Vec::new();
        let mut i: usize = 0;
        while i < self.peers.len()
            invariant
                i <= self.peers@.len(),
                urls_for(self.peers@.subrange(0, i as int), path@, urls@),
            decreases self.peers@.len() - i,
        {
            let p = &self.peers[i];
            let mut url = String::from_str("http://");
            proof {
                reveal_strlit("http://");
            }
            url.append(p.addr.as_str());
            url.append(path);
            let ghost before = urls@;
            urls.push((p.chain_id, url));
            proof {
                assert(url@ =~= peer_url(p.addr@, path@));
                assert forall|j: int| 0 <= j < i + 1 implies (#[trigger] urls@[j]).0 == self.peers@.subrange(
                    0,
                    i as int + 1,
                )[j].chain_id && urls@[j].1@ == peer_url(self.peers@.subrange(0, i as int + 1)[j].addr@, path@) by {
                    if j < i {
                        assert(self.peers@.subrange(0, i as int)[j] == self.peers@.subrange(0, i as int + 1)[j]);
                        assert(urls@[j] == before[j]);
                    }
                }
            }
            i = i + 1;
        }
        proof {
            assert(self.peers@.subrange(0, i as int) =~= self.peers@);
        }
        urls
    }

    /// The chains of the peers, in order.
    pub fn peer_chain_ids(&self) -> (ids: Vec<ChainId>)
        ensures
            ids@.len() == self.peers@.len(),
            forall|i: int| 0 <= i < ids@.len() ==> #[trigger] ids@[i] == self.peers@[i].chain_id,
    {
        let mut ids: Vec<ChainId> = Vec::new();
        let mut i: usize = 0;
        while i < self.peers.len()
            invariant
                i <= self.peers@.len(),
                ids@.len() == i,
                forall|j: int| 0 <= j < i ==> #[trigger] ids@[j] == self.peers@[j].chain_id,
            decreases self.peers@.len() - i,
        {
            ids.push(self.peers[i].chain_id);
            i = i + 1;
        }
        ids
    }

    /// The chain named as origin of a forwarded instance: the first peer's,
    /// or chain 0 without peers.
    pub fn origin_chain(&self) -> (c: ChainId)
        ensures
            self.peers@.len() > 0 ==> c == self.peers@[0].chain_id,
            self.peers@.len() == 0 ==> c == ChainId(0),
    {
        if self.peers.len() > 0 {
            self.peers[0].chain_id
        } else {
            ChainId(0)
        }
    }

    /// The vote message for peers and the peers to send it to.
    pub fn vote_to_peers(&self, instance_id: &str, chain_id: ChainId, vote: bool) -> (r: (
        VoteRequest,
        Vec<(ChainId, String)>,
    ))
        ensures
            r.0.instance_id@ == instance_id@,
            r.0.chain_id == chain_id.0,
            r.0.vote == vote,
            urls_for(self.peers@, vote_path(), r.1@),
    {
        let req = VoteRequest { instance_id: String::from_str(instance_id), chain_id: chain_id.0, vote };
        proof {
            reveal_strlit("/xt/vote");
        }
        let urls = self.all_peer_urls("/xt/vote");
        (req, urls)
    }

    /// The origin chain of a forwarded instance and the peers to forward it to.
    pub fn forward_targets(&self) -> (r: (ChainId, Vec<(ChainId, String)>))
        ensures
            self.peers@.len() > 0 ==> r.0 == self.peers@[0].chain_id,
            self.peers@.len() == 0 ==> r.0 == ChainId(0),
            urls_for(self.peers@, forward_path(), r.1@),
    {
        proof {
            reveal_strlit("/xt/forward");
        }
        (self.origin_chain(), self.all_peer_urls("/xt/forward"))
    }

    /// The request that forwards instance `instance_id` with transactions
    /// `txs` and sequence number `origin_seq`, naming the first peer's chain
    /// as origin (chain 0 without peers), and the peers to send it to, one
    /// request each, in order.
    pub fn forward_xt_request(&self, instance_id: &str, txs: &ChainMap<Vec<Vec<u8>>>, origin_seq: u64) -> (r: (
        ForwardRequest,
        Vec<(ChainId, String)>,
    ))
        ensures
            r.0.instance_id@ == instance_id@,
            r.0.txs@ == txs@,
            r.0.origin_seq == origin_seq,
            self.peers@.len() > 0 ==> r.0.origin_chain == self.peers@[0].chain_id,
            self.peers@.len() == 0 ==> r.0.origin_chain == ChainId(0),
            urls_for(self.peers@, forward_path(), r.1@),
    {
        let (origin_chain, urls) = self.forward_targets();
        let req = ForwardRequest {
            instance_id: String::from_str(instance_id),
            txs: txs.deep_clone(),
            origin_chain,
            origin_seq,
        };
        (req, urls)
    }
}

} // verus!
