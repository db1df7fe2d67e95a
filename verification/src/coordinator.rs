//! The coordinator's state, the voting rules and the decision they lead to.

use vstd::prelude::*;

use crate::assoc::{ChainMap, MapKey, StrMap};
use crate::builder_poll::flag;
use crate::hex::{hex_encode, hex_text};
use crate::pending_xt::{PendingXt, PendingXtView};
use crate::primitives::{ChainId, ChainState, MailboxMessage, MailboxMessageView};
use crate::assoc::DeepClone;

verus! {

/// Errors of coordinator operations.
#[derive(Debug)]
pub enum CoordinatorError {
    InstanceNotFound(String),
    InstanceAlreadyPending(String),
    PutInboxNotConfigured,
    Mailbox(String),
    Other(String),
}

/// State shared by the coordinator's handlers.
#[derive(Debug)]
pub struct CoordinatorState {
    pub pending: StrMap<PendingXt>,
    pub chain_states: ChainMap<ChainState>,
    pub current_period_id: u64,
    pub current_superblock_num: u64,
    pub period_initialized: bool,
    pub last_sequence_num: u64,
    pub last_known_blocks: ChainMap<u64>,
}

/// The coordinator of one chain: its identity, its timing and its state,
/// and which of the outside services it was given.
#[derive(Debug)]
pub struct DefaultCoordinator {
    pub chain_id: ChainId,
    pub circ_timeout_ms: u64,
    pub state: CoordinatorState,
    pub has_simulator: bool,
    pub has_publisher: bool,
    pub has_mailbox_sender: bool,
    pub has_mailbox_queue: bool,
    pub has_peer_coordinator: bool,
    pub has_put_inbox_builder: bool,
}

/// What the coordinator was built with stays as it was.
pub open spec fn same_setup(a: &DefaultCoordinator, b: &DefaultCoordinator) -> bool {
    &&& a.chain_id == b.chain_id
    &&& a.circ_timeout_ms == b.circ_timeout_ms
    &&& a.has_simulator == b.has_simulator
    &&& a.has_publisher == b.has_publisher
    &&& a.has_mailbox_sender == b.has_mailbox_sender
    &&& a.has_mailbox_queue == b.has_mailbox_queue
    &&& a.has_peer_coordinator == b.has_peer_coordinator
    &&& a.has_put_inbox_builder == b.has_put_inbox_builder
}

/// Every instance that was marked delivered on a chain and is still pending
/// is still marked delivered on that chain.
pub open spec fn marks_kept(before: Map<Seq<char>, PendingXtView>, after: Map<Seq<char>, PendingXtView>) -> bool {
    forall|k: Seq<char>, c: u64|
        #![trigger flag(after[k].delivered_chains, c)]
        #![trigger flag(before[k].delivered_chains, c)]
        before.dom().contains(k) && after.dom().contains(k) && flag(before[k].delivered_chains, c) ==> flag(
            after[k].delivered_chains,
            c,
        )
}

/// Everything but the pending table stays as it was.
pub open spec fn same_besides_pending(a: &DefaultCoordinator, b: &DefaultCoordinator) -> bool {
    &&& same_setup(a, b)
    &&& a.state.chain_states@ == b.state.chain_states@
    &&& a.state.current_period_id == b.state.current_period_id
    &&& a.state.current_superblock_num == b.state.current_superblock_num
    &&& a.state.period_initialized == b.state.period_initialized
    &&& a.state.last_sequence_num == b.state.last_sequence_num
    &&& a.state.last_known_blocks@ == b.state.last_known_blocks@
}

// ---------------------------------------------------------------------------
// Voting rules
// ---------------------------------------------------------------------------

/// Votes counted towards a standalone decision: the local vote, if any, and
/// the peer votes of every chain other than the local one.
pub open spec fn votes_collected(x: PendingXtView, local_chain: u64) -> nat {
    (if x.local_vote is Some { 1nat } else { 0nat }) + x.peer_votes.dom().remove(local_chain).len()
}

/// No counted vote is a "no".
pub open spec fn votes_all_yes(x: PendingXtView, local_chain: u64) -> bool {
    &&& x.local_vote != Some(false)
    &&& forall|c: u64| #[trigger] x.peer_votes.dom().contains(c) && c != local_chain ==> x.peer_votes[c]
}

/// The decision reached without a publisher: once as many votes are in as
/// chains take part, commit if and only if every vote is "yes". An instance
/// that is already decided gets no new decision.
pub open spec fn standalone_decision(x: PendingXtView, local_chain: u64) -> Option<bool> {
    if x.decision is None && votes_collected(x, local_chain) >= x.raw_txs.dom().len() {
        Some(votes_all_yes(x, local_chain))
    } else {
        None
    }
}

/// The instance after the standalone decision rule ran at time `now`.
pub open spec fn apply_standalone_decision(x: PendingXtView, local_chain: u64, now: u64) -> PendingXtView {
    match standalone_decision(x, local_chain) {
        Some(d) => PendingXtView { decision: Some(d), decided_at: Some(now), ..x },
        None => x,
    }
}

/// The instance after a peer's vote arrived.
pub open spec fn after_peer_vote(
    x: PendingXtView,
    chain: u64,
    vote: bool,
    local_chain: u64,
    now: u64,
) -> PendingXtView {
    apply_standalone_decision(
        PendingXtView { peer_votes: x.peer_votes.insert(chain, vote), ..x },
        local_chain,
        now,
    )
}

/// The instance after the local vote was recorded; a second local vote
/// changes nothing. Without a publisher the standalone rule runs too.
pub open spec fn after_local_vote(
    x: PendingXtView,
    vote: bool,
    local_chain: u64,
    standalone: bool,
    now: u64,
) -> PendingXtView {
    if x.local_vote is Some {
        x
    } else {
        let voted = PendingXtView {
            simulated_at: Some(now),
            vote_sent: true,
            local_vote: Some(vote),
            locked_chains: x.locked_chains.insert(local_chain, true),
            ..x
        };
        if standalone {
            apply_standalone_decision(voted, local_chain, now)
        } else {
            voted
        }
    }
}

/// Whether a decided instance is still kept by a cleanup at `now`.
pub open spec fn kept_by_cleanup(x: PendingXtView, now: u64, max_age_ms: u64) -> bool {
    match x.decided_at {
        Some(t) => (if now >= t { now - t } else { 0 }) <= max_age_ms,
        None => true,
    }
}

/// Whether the instance is undecided and holds transactions for `chain`.
pub open spec fn is_active_on(x: PendingXtView, chain: u64) -> bool {
    &&& x.decision is None
    &&& x.raw_txs.dom().contains(chain)
    &&& x.raw_txs[chain].len() > 0
}

/// What a local vote leads to.
#[derive(Debug)]
pub enum VoteAction {
    /// The instance is not pending: nothing happens.
    NotPending,
    /// A local vote was recorded before: nothing happens.
    AlreadyVoted,
    /// Send the vote to the publisher for the instance with these id bytes.
    SendToPublisher { instance_id: Vec<u8>, vote: bool },
    /// Forward the vote to the peer sidecars.
    ForwardToPeers { vote: bool },
    /// Recorded locally; nobody to tell.
    RecordedOnly,
}

/// What clients are told of an instance: its id and its decision, if any.
/// No further status is computed.
#[derive(Debug)]
pub struct XtStatusResponse {
    pub instance_id: String,
    pub decision: Option<bool>,
}

proof fn lemma_insert_twice<K, V>(m: Map<K, V>, k: K, a: V, b: V)
    ensures
        m.insert(k, a).insert(k, b) == m.insert(k, b),
{
    assert(m.insert(k, a).insert(k, b) =~= m.insert(k, b));
}

impl CoordinatorState {
    pub fn new() -> (s: Self)
        ensures
            s.pending@ == Map::<Seq<char>, PendingXtView>::empty(),
            s.chain_states@ == Map::<u64, <ChainState as DeepView>::V>::empty(),
            s.current_period_id == 0,
            s.current_superblock_num == 0,
            !s.period_initialized,
            s.last_sequence_num == 0,
            s.last_known_blocks@ == Map::<u64, u64>::empty(),
    {
        CoordinatorState {
            pending: StrMap::new(),
            chain_states: ChainMap::new(),
            current_period_id: 0,
            current_superblock_num: 0,
            period_initialized: false,
            last_sequence_num: 0,
            last_known_blocks: ChainMap::new(),
        }
    }

    /// Whether some undecided instance holds transactions for `chain_id`.
    pub fn has_active_instance(&self, chain_id: ChainId) -> (b: bool)
        ensures
            b == exists|k: Seq<char>| #[trigger] self.pending@.dom().contains(k) && is_active_on(self.pending@[k], chain_id.0),
    {
        let n = self.pending.len();
        let mut i: usize = 0;
        while i < n
            invariant
                n == self.pending@.dom().len(),
                i <= n,
                self.pending.key_seq().len() == n,
                forall|k: Seq<char>| #[trigger] self.pending@.dom().contains(k) <==> self.pending.key_seq().contains(k),
                forall|j: int| 0 <= j < i ==> !is_active_on(self.pending@[#[trigger] self.pending.key_seq()[j]], chain_id.0),
            decreases n - i,
        {
            let xt = self.pending.value_at(i);
            if xt.decision.is_none() {
                match xt.raw_txs.get(&chain_id.0) {
                    Some(txs) => {
                        if txs.len() > 0 {
                            proof {
                                let k = self.pending.key_seq()[i as int];
                                assert(self.pending.key_seq().contains(k));
                                assert(self.pending@.dom().contains(k));
                            }
                            return true;
                        }
                    },
                    None => {},
                }
            }
            i = i + 1;
        }
        proof {
            assert forall|k: Seq<char>| #[trigger] self.pending@.dom().contains(k) implies !is_active_on(self.pending@[k], chain_id.0) by {
                assert(self.pending.key_seq().contains(k));
                let j = choose|j: int| 0 <= j < self.pending.key_seq().len() && self.pending.key_seq()[j] == k;
            }
        }
        false
    }

    /// Take the instance `id` out of the table for an update; a placeholder
    /// holds its place until `put_back`.
    pub(crate) fn take_out(&mut self, id: &String) -> (r: Option<PendingXt>)
        ensures
            final(self).pending.key_seq() == old(self).pending.key_seq(),
            final(self).pending@.dom() == old(self).pending@.dom(),
            final(self).chain_states@ == old(self).chain_states@,
            final(self).current_period_id == old(self).current_period_id,
            final(self).current_superblock_num == old(self).current_superblock_num,
            final(self).period_initialized == old(self).period_initialized,
            final(self).last_sequence_num == old(self).last_sequence_num,
            final(self).last_known_blocks@ == old(self).last_known_blocks@,
            match r {
                Some(x) => old(self).pending@.dom().contains(id@) && x.deep_view() == old(self).pending@[id@]
                    && final(self).pending@ == old(self).pending@.insert(id@, final(self).pending@[id@]),
                None => !old(self).pending@.dom().contains(id@) && final(self).pending@ == old(self).pending@,
            },
    {
        let placeholder = PendingXt::new(String::new(), Vec::new());
        let r = self.pending.replace(id, placeholder);
        proof {
            if r is Some {
                assert(self.pending@.dom() =~= old(self).pending@.dom());
                assert(self.pending@ =~= old(self).pending@.insert(id@, self.pending@[id@]));
            }
        }
        r
    }

    pub(crate) fn put_back(&mut self, id: &String, x: PendingXt)
        requires
            old(self).pending@.dom().contains(id@),
        ensures
            final(self).pending.key_seq() == old(self).pending.key_seq(),
            final(self).pending@ == old(self).pending@.insert(id@, x.deep_view()),
            final(self).chain_states@ == old(self).chain_states@,
            final(self).current_period_id == old(self).current_period_id,
            final(self).current_superblock_num == old(self).current_superblock_num,
            final(self).period_initialized == old(self).period_initialized,
            final(self).last_sequence_num == old(self).last_sequence_num,
            final(self).last_known_blocks@ == old(self).last_known_blocks@,
    {
        let _ = self.pending.replace(id, x);
    }
}

impl DefaultCoordinator {
    pub fn new(
        chain_id: ChainId,
        has_simulator: bool,
        has_publisher: bool,
        has_mailbox_sender: bool,
        has_mailbox_queue: bool,
        has_peer_coordinator: bool,
        has_put_inbox_builder: bool,
        circ_timeout_ms: u64,
    ) -> (c: Self)
        ensures
            c.chain_id == chain_id,
            c.circ_timeout_ms == circ_timeout_ms,
            c.has_simulator == has_simulator,
            c.has_publisher == has_publisher,
            c.has_mailbox_sender == has_mailbox_sender,
            c.has_mailbox_queue == has_mailbox_queue,
            c.has_peer_coordinator == has_peer_coordinator,
            c.has_put_inbox_builder == has_put_inbox_builder,
            c.state.pending@ == Map::<Seq<char>, PendingXtView>::empty(),
            c.state.chain_states@ == Map::<u64, <ChainState as DeepView>::V>::empty(),
            c.state.last_known_blocks@ == Map::<u64, u64>::empty(),
    {
        DefaultCoordinator {
            chain_id,
            circ_timeout_ms,
            state: CoordinatorState::new(),
            has_simulator,
            has_publisher,
            has_mailbox_sender,
            has_mailbox_queue,
            has_peer_coordinator,
            has_put_inbox_builder,
        }
    }

    /// Start tracking a new instance under its id.
    pub fn insert_pending(&mut self, xt: PendingXt) -> (r: Result<(), CoordinatorError>)
        ensures
            same_besides_pending(old(self), final(self)),
            marks_kept(old(self).state.pending@, final(self).state.pending@),
            match r {
                Ok(()) => !old(self).state.pending@.dom().contains(xt.id@)
                    && final(self).state.pending@ == old(self).state.pending@.insert(xt.id@, xt.deep_view()),
                Err(e) => old(self).state.pending@.dom().contains(xt.id@)
                    && final(self).state.pending@ == old(self).state.pending@
                    && (e matches CoordinatorError::InstanceAlreadyPending(s) && s@ == xt.id@),
            },
    {
        if self.state.pending.contains_key(&xt.id) {
            return Err(CoordinatorError::InstanceAlreadyPending(xt.id.clone()));
        }
        let key = xt.id.clone();
        self.state.pending.insert(key, xt);
        Ok(())
    }

    /// Apply the standalone decision rule to `xt`.
    fn decide_standalone(&self, xt: &mut PendingXt, now: u64) -> (d: Option<bool>)
        ensures
            final(xt).deep_view() == apply_standalone_decision(old(xt).deep_view(), self.chain_id.0, now),
            d == standalone_decision(old(xt).deep_view(), self.chain_id.0),
    {
        if xt.decision.is_some() {
            return None;
        }
        let expected = xt.raw_txs.len();
        let peers = xt.peer_votes.count_except(&self.chain_id.0);
        let enough = match xt.local_vote {
            Some(_) => expected == 0 || peers >= expected - 1,
            None => peers >= expected,
        };
        if !enough {
            return None;
        }
        let all_yes = xt.local_vote != Some(false) && xt.peer_votes.all_true_except(&self.chain_id.0);
        xt.decision = Some(all_yes);
        xt.decided_at = Some(now);
        Some(all_yes)
    }

    /// Process a vote received from a peer sidecar.
    pub fn handle_peer_vote(&mut self, instance_id: &String, chain_id: ChainId, vote: bool, now: u64) -> (r: Result<(), CoordinatorError>)
        ensures
            same_besides_pending(old(self), final(self)),
            marks_kept(old(self).state.pending@, final(self).state.pending@),
            final(self).state.pending.key_seq() == old(self).state.pending.key_seq(),
            old(self).state.pending@.dom().contains(instance_id@) ==> r is Ok
                && final(self).state.pending@ == old(self).state.pending@.insert(
                    instance_id@,
                    after_peer_vote(old(self).state.pending@[instance_id@], chain_id.0, vote, old(self).chain_id.0, now),
                ),
            !old(self).state.pending@.dom().contains(instance_id@) ==> final(self).state.pending@ == old(self).state.pending@
                && (r matches Err(CoordinatorError::InstanceNotFound(s)) && s@ == instance_id@),
    {
        match self.state.take_out(instance_id) {
            None => Err(CoordinatorError::InstanceNotFound(instance_id.clone())),
            Some(mut xt) => {
                let ghost before = self.state.pending@;
                xt.peer_votes.insert(chain_id.0, vote);
                let _ = self.decide_standalone(&mut xt, now);
                self.state.put_back(instance_id, xt);
                proof {
                    lemma_insert_twice(old(self).state.pending@, instance_id@, before[instance_id@], xt.deep_view());
                }
                Ok(())
            },
        }
    }

    /// Record the local vote for an instance. The first local vote wins;
    /// without a publisher connection the standalone decision rule runs.
    pub fn send_vote(&mut self, instance_id: &String, vote: bool, publisher_connected: bool, now: u64) -> (a: VoteAction)
        ensures
            same_besides_pending(old(self), final(self)),
            marks_kept(old(self).state.pending@, final(self).state.pending@),
            final(self).state.pending.key_seq() == old(self).state.pending.key_seq(),
            !old(self).state.pending@.dom().contains(instance_id@) ==> a is NotPending
                && final(self).state.pending@ == old(self).state.pending@,
            old(self).state.pending@.dom().contains(instance_id@) ==> {
                let x = old(self).state.pending@[instance_id@];
                &&& final(self).state.pending@ == old(self).state.pending@.insert(
                    instance_id@,
                    after_local_vote(x, vote, old(self).chain_id.0, !publisher_connected, now),
                )
                &&& x.local_vote is Some ==> a is AlreadyVoted
                &&& x.local_vote is None ==> match a {
                    VoteAction::SendToPublisher { instance_id: bytes, vote: v } =>
                        publisher_connected && old(self).has_publisher && bytes.deep_view() == x.instance_id && v == vote,
                    VoteAction::ForwardToPeers { vote: v } =>
                        !publisher_connected && old(self).has_peer_coordinator && v == vote,
                    VoteAction::RecordedOnly =>
                        if publisher_connected { !old(self).has_publisher } else { !old(self).has_peer_coordinator },
                    _ => false,
                }
            },
    {
        let standalone = !publisher_connected;
        match self.state.take_out(instance_id) {
            None => VoteAction::NotPending,
            Some(mut xt) => {
                let ghost before = self.state.pending@;
                let ghost x0 = xt.deep_view();
                if xt.local_vote.is_some() {
                    self.state.put_back(instance_id, xt);
                    proof {
                        lemma_insert_twice(old(self).state.pending@, instance_id@, before[instance_id@], x0);
                        assert(self.state.pending@ =~= old(self).state.pending@);
                    }
                    return VoteAction::AlreadyVoted;
                }
                xt.simulated_at = Some(now);
                xt.vote_sent = true;
                xt.local_vote = Some(vote);
                xt.locked_chains.insert(self.chain_id.0, true);
                if standalone {
                    let _ = self.decide_standalone(&mut xt, now);
                }
                let instance_bytes = xt.instance_id.deep_clone();
                self.state.put_back(instance_id, xt);
                proof {
                    lemma_insert_twice(old(self).state.pending@, instance_id@, before[instance_id@], xt.deep_view());
                }
                if !standalone {
                    if self.has_publisher {
                        VoteAction::SendToPublisher { instance_id: instance_bytes, vote }
                    } else {
                        VoteAction::RecordedOnly
                    }
                } else if self.has_peer_coordinator {
                    VoteAction::ForwardToPeers { vote }
                } else {
                    VoteAction::RecordedOnly
                }
            },
        }
    }

    /// Remove decided instances that were decided more than `max_age_ms` ago.
    pub fn cleanup(&mut self, now: u64, max_age_ms: u64)
        ensures
            same_besides_pending(old(self), final(self)),
            marks_kept(old(self).state.pending@, final(self).state.pending@),
            final(self).state.pending@ == old(self).state.pending@.restrict(
                old(self).state.pending@.dom().filter(|k: Seq<char>| kept_by_cleanup(old(self).state.pending@[k], now, max_age_ms)),
            ),
    {
        let ghost old_map = self.state.pending@;
        let keys = self.state.pending.keys();
        let mut i: usize = 0;
        while i < keys.len()
            invariant
                i <= keys@.len(),
                same_besides_pending(old(self), self),
                forall|k: Seq<char>| keys.deep_view().contains(k) <==> old_map.dom().contains(k),
                keys.deep_view().no_duplicates(),
                keys@.len() == keys.deep_view().len(),
                forall|k: Seq<char>| #[trigger] self.state.pending@.dom().contains(k) <==> (old_map.dom().contains(k)
                    && (keys.deep_view().subrange(0, i as int).contains(k) ==> kept_by_cleanup(old_map[k], now, max_age_ms))),
                forall|k: Seq<char>| #[trigger] self.state.pending@.dom().contains(k) ==> self.state.pending@[k] == old_map[k],
            decreases keys@.len() - i,
        {
            let key = &keys[i];
            let ghost kv = keys.deep_view()[i as int];
            proof {
                assert(key.deep_view() == kv);
                assert(keys.deep_view().contains(kv));
                assert(!keys.deep_view().subrange(0, i as int).contains(kv)) by {
                    if keys.deep_view().subrange(0, i as int).contains(kv) {
                        let j = choose|j: int| 0 <= j < i && keys.deep_view().subrange(0, i as int)[j] == kv;
                        assert(keys.deep_view()[j] == kv);
                    }
                }
                assert(self.state.pending@.dom().contains(kv));
            }
            let keep = match self.state.pending.get(key) {
                Some(xt) => match xt.decided_at {
                    Some(t) => (if now >= t { now - t } else { 0 }) <= max_age_ms,
                    None => true,
                },
                None => true,
            };
            if !keep {
                let _ = self.state.pending.remove(key);
            }
            proof {
                assert forall|k: Seq<char>| keys.deep_view().subrange(0, i as int + 1).contains(k) <==> (keys.deep_view().subrange(0, i as int).contains(k) || k == kv) by {
                    let s1 = keys.deep_view().subrange(0, i as int + 1);
                    let s0 = keys.deep_view().subrange(0, i as int);
                    if s1.contains(k) {
                        let j = choose|j: int| 0 <= j < s1.len() && s1[j] == k;
                        if j < i {
                            assert(s0[j] == k);
                        }
                    }
                    if s0.contains(k) {
                        let j = choose|j: int| 0 <= j < s0.len() && s0[j] == k;
                        assert(s1[j] == k);
                    }
                    if k == kv {
                        assert(s1[i as int] == k);
                    }
                }
            }
            i = i + 1;
        }
        proof {
            assert(keys.deep_view().subrange(0, keys@.len() as int) =~= keys.deep_view());
            assert(self.state.pending@ =~= old_map.restrict(
                old_map.dom().filter(|k: Seq<char>| kept_by_cleanup(old_map[k], now, max_age_ms)),
            ));
        }
    }

    /// The status of a pending instance.
    pub fn get_xt_status(&self, instance_id: &String) -> (r: Result<XtStatusResponse, CoordinatorError>)
        ensures
            match r {
                Ok(resp) => self.state.pending@.dom().contains(instance_id@)
                    && resp.instance_id@ == instance_id@
                    && resp.decision == self.state.pending@[instance_id@].decision,
                Err(e) => !self.state.pending@.dom().contains(instance_id@)
                    && (e matches CoordinatorError::InstanceNotFound(s) && s@ == instance_id@),
            },
    {
        match self.state.pending.get(instance_id) {
            Some(xt) => Ok(XtStatusResponse { instance_id: instance_id.clone(), decision: xt.decision }),
            None => Err(CoordinatorError::InstanceNotFound(instance_id.clone())),
        }
    }

    /// Take an incoming mailbox message. With a mailbox queue the message
    /// was first recorded there, with outcome `recorded`; when that failed the
    /// error is returned and nothing else happens. Otherwise the message is
    /// filed with the pending instance it belongs to (the instance whose key
    /// is the hex text of the message's instance id), if there is one.
    pub fn handle_mailbox_message(&mut self, msg: &MailboxMessage, recorded: Result<(), String>) -> (r: Result<(), CoordinatorError>)
        ensures
            same_besides_pending(old(self), final(self)),
            marks_kept(old(self).state.pending@, final(self).state.pending@),
            final(self).state.pending.key_seq() == old(self).state.pending.key_seq(),
            (old(self).has_mailbox_queue && recorded is Err) ==> final(self).state.pending@ == old(self).state.pending@
                && (r matches Err(CoordinatorError::Mailbox(s)) && s@ == recorded->Err_0@),
            !(old(self).has_mailbox_queue && recorded is Err) ==> r is Ok && ({
                let key = hex_text(msg.instance_id@);
                if old(self).state.pending@.dom().contains(key) {
                    let x = old(self).state.pending@[key];
                    final(self).state.pending@ == old(self).state.pending@.insert(
                        key,
                        PendingXtView { pending_mailbox: x.pending_mailbox.push(msg.deep_view()), ..x },
                    )
                } else {
                    final(self).state.pending@ == old(self).state.pending@
                }
            }),
    {
        if self.has_mailbox_queue {
            if let Err(e) = recorded {
                return Err(CoordinatorError::Mailbox(e));
            }
        }
        let key = hex_encode(msg.instance_id.as_slice());
        match self.state.take_out(&key) {
            None => {},
            Some(mut xt) => {
                let ghost before = self.state.pending@;
                let ghost old_box = xt.pending_mailbox.deep_view();
                let m = msg.deep_clone();
                xt.pending_mailbox.push(m);
                proof {
                    assert(xt.pending_mailbox.deep_view() =~= old_box.push(msg.deep_view()));
                    assert(msg.instance_id.deep_view() =~= msg.instance_id@);
                }
                self.state.put_back(&key, xt);
                proof {
                    lemma_insert_twice(old(self).state.pending@, key@, before[key@], xt.deep_view());
                }
            },
        }
        proof {
            assert(msg.instance_id.deep_view() =~= msg.instance_id@);
        }
        Ok(())
    }
}

} // verus!
