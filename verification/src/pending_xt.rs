//! The record the coordinator keeps for each pending cross-chain transaction.

use vstd::prelude::*;

use crate::assoc::{ChainMap, DeepClone};
use crate::overrides::{AccountOverrideView, StateOverrides};
use crate::primitives::{
    ChainState, ChainStateView, CrossRollupDependency, CrossRollupDependencyView,
    CrossRollupMessage, CrossRollupMessageView, MailboxMessage, MailboxMessageView,
};

verus! {

/// A pending cross-chain transaction (XT) instance.
///
/// `id` is the hex form of `instance_id`, the key under which the coordinator
/// files the instance; `sequence` orders instances for delivery. Times are
/// milliseconds on the coordinator's monotonic clock.
#[derive(Debug)]
pub struct PendingXt {
    pub id: String,
    pub instance_id: Vec<u8>,
    pub sequence: u64,
    pub raw_txs: ChainMap<Vec<Vec<u8>>>,
    pub chain_states: ChainMap<ChainState>,
    pub locked_chains: ChainMap<bool>,
    pub delivered_chains: ChainMap<bool>,
    pub peer_votes: ChainMap<bool>,
    pub local_vote: Option<bool>,
    pub decision: Option<bool>,
    pub vote_sent: bool,
    pub decided_at: Option<u64>,
    pub simulated_at: Option<u64>,
    pub pending_mailbox: Vec<MailboxMessage>,
    pub sent_mailbox: Vec<MailboxMessage>,
    pub outbound_messages: Vec<CrossRollupMessage>,
    pub dependencies: Vec<CrossRollupDependency>,
    pub fulfilled_deps: Vec<CrossRollupDependency>,
    pub state_overrides: ChainMap<StateOverrides>,
}

pub struct PendingXtView {
    pub id: Seq<char>,
    pub instance_id: Seq<u8>,
    pub sequence: u64,
    pub raw_txs: Map<u64, Seq<Seq<u8>>>,
    pub chain_states: Map<u64, ChainStateView>,
    pub locked_chains: Map<u64, bool>,
    pub delivered_chains: Map<u64, bool>,
    pub peer_votes: Map<u64, bool>,
    pub local_vote: Option<bool>,
    pub decision: Option<bool>,
    pub vote_sent: bool,
    pub decided_at: Option<u64>,
    pub simulated_at: Option<u64>,
    pub pending_mailbox: Seq<MailboxMessageView>,
    pub sent_mailbox: Seq<MailboxMessageView>,
    pub outbound_messages: Seq<CrossRollupMessageView>,
    pub dependencies: Seq<CrossRollupDependencyView>,
    pub fulfilled_deps: Seq<CrossRollupDependencyView>,
    pub state_overrides: Map<u64, Map<Seq<char>, AccountOverrideView>>,
}

impl DeepView for PendingXt {
    type V = PendingXtView;

    open spec fn deep_view(&self) -> PendingXtView {
        PendingXtView {
            id: self.id@,
            instance_id: self.instance_id.deep_view(),
            sequence: self.sequence,
            raw_txs: self.raw_txs@,
            chain_states: self.chain_states@,
            locked_chains: self.locked_chains@,
            delivered_chains: self.delivered_chains@,
            peer_votes: self.peer_votes@,
            local_vote: self.local_vote,
            decision: self.decision,
            vote_sent: self.vote_sent,
            decided_at: self.decided_at,
            simulated_at: self.simulated_at,
            pending_mailbox: self.pending_mailbox.deep_view(),
            sent_mailbox: self.sent_mailbox.deep_view(),
            outbound_messages: self.outbound_messages.deep_view(),
            dependencies: self.dependencies.deep_view(),
            fulfilled_deps: self.fulfilled_deps.deep_view(),
            state_overrides: self.state_overrides@,
        }
    }
}

/// A freshly started instance: nothing recorded yet.
pub open spec fn fresh_xt(id: Seq<char>, instance_id: Seq<u8>) -> PendingXtView {
    PendingXtView {
        id,
        instance_id,
        sequence: 0,
        raw_txs: Map::empty(),
        chain_states: Map::empty(),
        locked_chains: Map::empty(),
        delivered_chains: Map::empty(),
        peer_votes: Map::empty(),
        local_vote: None,
        decision: None,
        vote_sent: false,
        decided_at: None,
        simulated_at: None,
        pending_mailbox: Seq::empty(),
        sent_mailbox: Seq::empty(),
        outbound_messages: Seq::empty(),
        dependencies: Seq::empty(),
        fulfilled_deps: Seq::empty(),
        state_overrides: Map::empty(),
    }
}

impl PendingXt {
    pub fn new(id: String, instance_id: Vec<u8>) -> (xt: Self)
        ensures
            xt.deep_view() == fresh_xt(id@, instance_id.deep_view()),
    {
        let xt = PendingXt {
            id,
            instance_id,
            sequence: 0,
            raw_txs: ChainMap::new(),
            chain_states: ChainMap::new(),
            locked_chains: ChainMap::new(),
            delivered_chains: ChainMap::new(),
            peer_votes: ChainMap::new(),
            local_vote: None,
            decision: None,
            vote_sent: false,
            decided_at: None,
            simulated_at: None,
            pending_mailbox: Vec::new(),
            sent_mailbox: Vec::new(),
            outbound_messages: Vec::new(),
            dependencies: Vec::new(),
            fulfilled_deps: Vec::new(),
            state_overrides: ChainMap::new(),
        };
        assert(xt.pending_mailbox.deep_view() =~= Seq::<MailboxMessageView>::empty());
        assert(xt.sent_mailbox.deep_view() =~= Seq::<MailboxMessageView>::empty());
        assert(xt.outbound_messages.deep_view() =~= Seq::<CrossRollupMessageView>::empty());
        assert(xt.dependencies.deep_view() =~= Seq::<CrossRollupDependencyView>::empty());
        assert(xt.fulfilled_deps.deep_view() =~= Seq::<CrossRollupDependencyView>::empty());
        xt
    }
}

impl DeepClone for PendingXt {
    fn deep_clone(&self) -> (r: Self) {
        PendingXt {
            id: self.id.clone(),
            instance_id: self.instance_id.deep_clone(),
            sequence: self.sequence,
            raw_txs: self.raw_txs.deep_clone(),
            chain_states: self.chain_states.deep_clone(),
            locked_chains: self.locked_chains.deep_clone(),
            delivered_chains: self.delivered_chains.deep_clone(),
            peer_votes: self.peer_votes.deep_clone(),
            local_vote: self.local_vote,
            decision: self.decision,
            vote_sent: self.vote_sent,
            decided_at: self.decided_at,
            simulated_at: self.simulated_at,
            pending_mailbox: self.pending_mailbox.deep_clone(),
            sent_mailbox: self.sent_mailbox.deep_clone(),
            outbound_messages: self.outbound_messages.deep_clone(),
            dependencies: self.dependencies.deep_clone(),
            fulfilled_deps: self.fulfilled_deps.deep_clone(),
            state_overrides: self.state_overrides.deep_clone(),
        }
    }
}

} // verus!
