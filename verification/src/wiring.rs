//! Which services the coordinator of a sidecar gets, from its settings.

use vstd::prelude::*;
use vstd::string::StrSliceExecFns;

use crate::config::{ChainConfig, PeerConfig, PeersConfig, PublisherConfig};
use crate::coordinator::DefaultCoordinator;
use crate::pending_xt::PendingXtView;
use crate::primitives::ChainState;
use crate::peer::PeerEntry;
use crate::primitives::ChainId;
use crate::simulation::ChainRpcConfig;

verus! {

/// How to reach the publisher.
#[derive(Debug)]
pub struct PublisherClientConfig {
    pub addr: String,
    pub reconnect_delay_secs: u64,
    pub max_retries: u32,
}

/// The services to build the coordinator with: a simulator on the node of
/// the local chain when it has one, a mailbox queue always, a peer
/// coordinator and a mailbox sender when there are peer sidecars, and the
/// publisher when it is enabled and has an address.
#[derive(Debug)]
pub struct CoordinatorPlan {
    pub chain_id: ChainId,
    pub simulator_chains: Option<Vec<ChainRpcConfig>>,
    pub peers: Vec<PeerEntry>,
    pub publisher: Option<PublisherClientConfig>,
    pub has_simulator: bool,
    pub has_mailbox_queue: bool,
    pub has_peer_coordinator: bool,
    pub has_mailbox_sender: bool,
}

/// The plan for a sidecar of chain `chain` with these peers and publisher settings.
pub fn plan_coordinator(chain: &ChainConfig, peers: &PeersConfig, publisher: &PublisherConfig) -> (p: CoordinatorPlan)
    ensures
        p.chain_id == ChainId(chain.id),
        chain.rpc@.len() == 0 ==> p.simulator_chains is None,
        chain.rpc@.len() > 0 ==> (p.simulator_chains matches Some(cs) && cs@.len() == 1 && cs@[0].chain_id == ChainId(
            chain.id,
        ) && cs@[0].rpc_url@ == chain.rpc@),
        p.peers@.len() == peers.sidecars@.len(),
        forall|i: int| 0 <= i < p.peers@.len() ==> (#[trigger] p.peers@[i]).chain_id == ChainId(peers.sidecars@[i].chain_id)
            && p.peers@[i].addr@ == peers.sidecars@[i].addr@,
        (publisher.enabled && publisher.addr@.len() > 0) ==> (p.publisher matches Some(c) && c.addr@ == publisher.addr@
            && c.reconnect_delay_secs == publisher.reconnect_delay_secs && c.max_retries == publisher.max_retries),
        !(publisher.enabled && publisher.addr@.len() > 0) ==> p.publisher is None,
        p.has_simulator == (chain.rpc@.len() > 0),
        p.has_simulator == p.simulator_chains is Some,
        p.has_mailbox_queue,
        p.has_peer_coordinator == (peers.sidecars@.len() > 0),
        p.has_mailbox_sender == p.has_peer_coordinator,
{
    let chain_id = chain.chain_id();
    let simulator_chains = if chain.rpc.as_str().unicode_len() > 0 {
        let mut cs: Vec<ChainRpcConfig> = Vec::new();
        cs.push(ChainRpcConfig { chain_id, rpc_url: chain.rpc.clone() });
        Some(cs)
    } else {
        None
    };
    let mut entries: Vec<PeerEntry> = Vec::new();
    let mut i: usize = 0;
    while i < peers.sidecars.len()
        invariant
            i <= peers.sidecars@.len(),
            entries@.len() == i,
            forall|j: int| 0 <= j < i ==> (#[trigger] entries@[j]).chain_id == ChainId(peers.sidecars@[j].chain_id)
                && entries@[j].addr@ == peers.sidecars@[j].addr@,
        decreases peers.sidecars@.len() - i,
    {
        let pc: &PeerConfig = &peers.sidecars[i];
        entries.push(PeerEntry { chain_id: ChainId(pc.chain_id), addr: pc.addr.clone() });
        i = i + 1;
    }
    let publisher_config = if publisher.enabled && publisher.addr.as_str().unicode_len() > 0 {
        Some(
            PublisherClientConfig {
                addr: publisher.addr.clone(),
                reconnect_delay_secs: publisher.reconnect_delay_secs,
                max_retries: publisher.max_retries,
            },
        )
    } else {
        None
    };
    let has_simulator = simulator_chains.is_some();
    let has_peers = entries.len() > 0;
    CoordinatorPlan {
        chain_id,
        simulator_chains,
        peers: entries,
        publisher: publisher_config,
        has_simulator,
        has_mailbox_queue: true,
        has_peer_coordinator: has_peers,
        has_mailbox_sender: has_peers,
    }
}

impl DefaultCoordinator {
    /// The coordinator a plan gives: the planned services, and a publisher
    /// when one is planned and its client was built (`publisher_built`).
    /// No put-inbox builder is configured.
    pub fn from_plan(plan: &CoordinatorPlan, publisher_built: bool, circ_timeout_ms: u64) -> (c: Self)
        ensures
            c.chain_id == plan.chain_id,
            c.circ_timeout_ms == circ_timeout_ms,
            c.has_simulator == plan.has_simulator,
            c.has_publisher == (plan.publisher is Some && publisher_built),
            c.has_mailbox_sender == plan.has_mailbox_sender,
            c.has_mailbox_queue == plan.has_mailbox_queue,
            c.has_peer_coordinator == plan.has_peer_coordinator,
            !c.has_put_inbox_builder,
            c.state.pending@ == Map::<Seq<char>, PendingXtView>::empty(),
            c.state.chain_states@ == Map::<u64, <ChainState as DeepView>::V>::empty(),
            c.state.last_known_blocks@ == Map::<u64, u64>::empty(),
    {
        DefaultCoordinator::new(
            plan.chain_id,
            plan.has_simulator,
            plan.publisher.is_some() && publisher_built,
            plan.has_mailbox_sender,
            plan.has_mailbox_queue,
            plan.has_peer_coordinator,
            false,
            circ_timeout_ms,
        )
    }
}

} // verus!
