//! Builder polls: which instance to process next, what to hold for, and
//! which committed transactions to hand to the builder in which order.

use vstd::prelude::*;

use crate::assoc::{DeepClone, MapKey};
use crate::coordinator::{marks_kept, same_besides_pending, same_setup, DefaultCoordinator};
use crate::pending_xt::{PendingXt, PendingXtView};
use crate::primitives::{
    BuilderPollRequest, BuilderPollResponse, ChainId, ChainState, ChainStateView,
    CrossRollupDependency, CrossRollupDependencyView,
};

verus! {

/// How long a held builder waits before polling again, in milliseconds.
pub const HOLD_POLL_AFTER_MS: u64 = 50;

/// `m` maps `c` to `true`.
pub open spec fn flag(m: Map<u64, bool>, c: u64) -> bool {
    m.dom().contains(c) && m[c]
}

/// The instance has transactions for chain `c`.
pub open spec fn touches(x: PendingXtView, c: u64) -> bool {
    x.raw_txs.dom().contains(c)
}

/// The snapshot of the polling chain that the request carries.
pub open spec fn snapshot_of(req: &BuilderPollRequest) -> ChainStateView {
    ChainStateView {
        chain_id: req.chain_id,
        block_number: req.block_number,
        flashblock_index: req.flashblock_index,
        state_root: req.state_root.deep_view(),
        timestamp: req.timestamp,
        gas_limit: req.gas_limit,
        state_overrides: req.state_overrides.deep_view(),
    }
}

/// An undecided instance that has not locked chain `c` takes the new snapshot of `c`.
pub open spec fn refresh(x: PendingXtView, c: u64, snap: ChainStateView) -> PendingXtView {
    if touches(x, c) && x.decision is None && !flag(x.locked_chains, c) {
        PendingXtView { chain_states: x.chain_states.insert(c, snap), ..x }
    } else {
        x
    }
}

/// Poll order of the instances at positions `i` and `j` of the table: by
/// sequence number, then by position.
pub open spec fn poll_before(p: Map<Seq<char>, PendingXtView>, ks: Seq<Seq<char>>, i: int, j: int) -> bool {
    ||| p[ks[i]].sequence < p[ks[j]].sequence
    ||| (p[ks[i]].sequence == p[ks[j]].sequence && i < j)
}

/// Position `i` holds an instance taking part on chain `c`.
pub open spec fn in_poll(p: Map<Seq<char>, PendingXtView>, ks: Seq<Seq<char>>, c: u64, i: int) -> bool {
    0 <= i < ks.len() && touches(p[ks[i]], c)
}

/// `o` lists the positions taking part on chain `c`, each once, in poll order.
pub open spec fn is_poll_order(p: Map<Seq<char>, PendingXtView>, ks: Seq<Seq<char>>, c: u64, o: Seq<usize>) -> bool {
    &&& forall|t: int| 0 <= t < o.len() ==> in_poll(p, ks, c, #[trigger] o[t] as int)
    &&& forall|i: int| #![trigger ks[i]] in_poll(p, ks, c, i) ==> exists|t: int| 0 <= t < o.len() && o[t] == i
    &&& forall|t1: int, t2: int| 0 <= t1 < t2 < o.len() ==> poll_before(p, ks, #[trigger] o[t1] as int, #[trigger] o[t2] as int)
}

/// The position of key `k` in `ks`.
pub open spec fn pos_of(ks: Seq<Seq<char>>, k: Seq<char>) -> int {
    choose|i: int| 0 <= i < ks.len() && ks[i] == k
}

/// The table after a poll of chain `c` refreshed the snapshots.
pub open spec fn polled(p: Map<Seq<char>, PendingXtView>, c: u64, snap: ChainStateView) -> Map<Seq<char>, PendingXtView> {
    p.map_values(|x: PendingXtView| refresh(x, c, snap))
}

/// Position `j` is on chain `c`, not yet delivered there, committed, with transactions for `c`.
pub open spec fn delivery_candidate(p: Map<Seq<char>, PendingXtView>, ks: Seq<Seq<char>>, c: u64, j: int) -> bool {
    &&& in_poll(p, ks, c, j)
    &&& !flag(p[ks[j]].delivered_chains, c)
    &&& p[ks[j]].decision == Some(true)
    &&& p[ks[j]].raw_txs[c].len() > 0
}

/// Position `j` is on chain `c`, not yet delivered there, decided, and has nothing to deliver.
pub open spec fn retire_candidate(p: Map<Seq<char>, PendingXtView>, ks: Seq<Seq<char>>, c: u64, j: int) -> bool {
    &&& in_poll(p, ks, c, j)
    &&& !flag(p[ks[j]].delivered_chains, c)
    &&& p[ks[j]].decision is Some
    &&& !delivery_candidate(p, ks, c, j)
}

/// Position `j` is on chain `c`, not yet delivered there and undecided.
pub open spec fn stalls(p: Map<Seq<char>, PendingXtView>, ks: Seq<Seq<char>>, c: u64, j: int) -> bool {
    &&& in_poll(p, ks, c, j)
    &&& !flag(p[ks[j]].delivered_chains, c)
    &&& p[ks[j]].decision is None
}

/// The table after the instances that `retires` picks were marked delivered on `c`.
pub open spec fn after_retiring(p: Map<Seq<char>, PendingXtView>, ks: Seq<Seq<char>>, c: u64) -> Map<Seq<char>, PendingXtView> {
    Map::new(
        |k: Seq<char>| p.dom().contains(k),
        |k: Seq<char>| if retires(p, ks, c, pos_of(ks, k)) { mark_delivered(p[k], c) } else { p[k] },
    )
}

/// The instance with the local chain locked for processing.
pub open spec fn lock_local(x: PendingXtView, local_chain: u64) -> PendingXtView {
    PendingXtView { locked_chains: x.locked_chains.insert(local_chain, true), ..x }
}

/// `ds` lists, in poll order, the instances that `delivers` picks, with their
/// transactions and fulfilled dependencies for chain `c`.
pub open spec fn is_delivery(p: Map<Seq<char>, PendingXtView>, ks: Seq<Seq<char>>, c: u64, ds: Seq<DeliverableXt>) -> bool {
    &&& forall|a: int| 0 <= a < ds.len() ==> {
        let k = (#[trigger] ds[a]).id@;
        &&& ks.contains(k)
        &&& delivers(p, ks, c, pos_of(ks, k))
        &&& ds[a].raw_txs.deep_view() == p[k].raw_txs[c]
        &&& ds[a].deps.deep_view() == deps_for(p[k].fulfilled_deps, c)
        &&& ds[a].put_inbox_txs@.len() == 0
    }
    &&& forall|j: int| #![trigger ks[j]] delivers(p, ks, c, j) ==> exists|a: int| 0 <= a < ds.len() && ds[a].id@ == ks[j]
    &&& forall|a: int, b: int| 0 <= a < b < ds.len() ==> poll_before(p, ks, pos_of(ks, (#[trigger] ds[a]).id@), pos_of(ks, (#[trigger] ds[b]).id@))
}

/// Some instance on chain `c` holds the delivery back.
pub open spec fn has_blocker(p: Map<Seq<char>, PendingXtView>, ks: Seq<Seq<char>>, c: u64) -> bool {
    exists|b: int| is_blocker(p, ks, c, b)
}

/// Some instance on chain `c` has transactions to deliver now.
pub open spec fn has_delivery(p: Map<Seq<char>, PendingXtView>, ks: Seq<Seq<char>>, c: u64) -> bool {
    exists|j: int| delivers(p, ks, c, j)
}

pub proof fn lemma_pos_of(ks: Seq<Seq<char>>, j: int)
    requires
        ks.no_duplicates(),
        0 <= j < ks.len(),
    ensures
        pos_of(ks, ks[j]) == j,
{
    let i = pos_of(ks, ks[j]);
    assert(0 <= i < ks.len() && ks[i] == ks[j]);
}

/// What the coordinator does on a builder poll, before any outside work.
#[derive(Debug)]
pub enum PollStep {
    /// Answer with this response.
    Respond(BuilderPollResponse),
    /// Start processing the instance `id`, and answer with `response`.
    Process { id: String, response: BuilderPollResponse },
    /// Build the put-inbox transactions of these entries, then finish the poll.
    Deliver(Vec<DeliverableXt>),
}

/// Poll order is a strict total order on distinct positions.
pub proof fn lemma_poll_before_total(p: Map<Seq<char>, PendingXtView>, ks: Seq<Seq<char>>, i: int, j: int)
    ensures
        i != j ==> (poll_before(p, ks, i, j) || poll_before(p, ks, j, i)),
        !(poll_before(p, ks, i, j) && poll_before(p, ks, j, i)),
        !poll_before(p, ks, i, i),
{
}

/// In a poll order, the earlier of two entries is the one listed first.
pub proof fn lemma_poll_order_index(p: Map<Seq<char>, PendingXtView>, ks: Seq<Seq<char>>, c: u64, o: Seq<usize>, t1: int, t2: int)
    requires
        is_poll_order(p, ks, c, o),
        0 <= t1 < o.len(),
        0 <= t2 < o.len(),
        poll_before(p, ks, o[t1] as int, o[t2] as int),
    ensures
        t1 < t2,
{
    if t1 == t2 {
        lemma_poll_before_total(p, ks, o[t1] as int, o[t1] as int);
    } else if t2 < t1 {
        assert(poll_before(p, ks, o[t2] as int, o[t1] as int));
        lemma_poll_before_total(p, ks, o[t1] as int, o[t2] as int);
    }
}

/// The first undecided instance on chain `c`, in poll order, is at position `i`.
pub open spec fn is_first_undecided(p: Map<Seq<char>, PendingXtView>, ks: Seq<Seq<char>>, c: u64, i: int) -> bool {
    &&& in_poll(p, ks, c, i)
    &&& p[ks[i]].decision is None
    &&& forall|j: int| #![trigger p[ks[j]]] in_poll(p, ks, c, j) && p[ks[j]].decision is None && j != i ==> poll_before(p, ks, i, j)
}

/// Whether the instance has what it needs for processing to start: the
/// snapshot of every chain it touches when a publisher coordinates, else the
/// snapshot of the local chain.
pub open spec fn ready_to_process(x: PendingXtView, local_chain: u64, publisher_connected: bool) -> bool {
    if publisher_connected {
        forall|cc: u64| #[trigger] x.raw_txs.dom().contains(cc) ==> x.chain_states.dom().contains(cc)
    } else {
        x.chain_states.dom().contains(local_chain)
    }
}

/// Processing of the instance starts on this poll.
pub open spec fn starts_processing(x: PendingXtView, local_chain: u64, publisher_connected: bool) -> bool {
    &&& ready_to_process(x, local_chain, publisher_connected)
    &&& !x.vote_sent
    &&& !flag(x.locked_chains, local_chain)
}

/// The instance at position `i` blocks delivery on chain `c`: it is the first,
/// in poll order, of the instances not yet delivered there that is undecided.
pub open spec fn is_blocker(p: Map<Seq<char>, PendingXtView>, ks: Seq<Seq<char>>, c: u64, i: int) -> bool {
    &&& in_poll(p, ks, c, i)
    &&& !flag(p[ks[i]].delivered_chains, c)
    &&& p[ks[i]].decision is None
    &&& forall|j: int| #![trigger p[ks[j]]] in_poll(p, ks, c, j) && !flag(p[ks[j]].delivered_chains, c) && poll_before(p, ks, j, i)
        ==> p[ks[j]].decision is Some
}

/// Position `j` comes before any blocker.
pub open spec fn before_blocker(p: Map<Seq<char>, PendingXtView>, ks: Seq<Seq<char>>, c: u64, j: int) -> bool {
    forall|b: int| #[trigger] is_blocker(p, ks, c, b) ==> poll_before(p, ks, j, b)
}

/// The instance at `j` is up for delivery on chain `c` in this poll.
pub open spec fn up_for_delivery(p: Map<Seq<char>, PendingXtView>, ks: Seq<Seq<char>>, c: u64, j: int) -> bool {
    &&& in_poll(p, ks, c, j)
    &&& !flag(p[ks[j]].delivered_chains, c)
    &&& p[ks[j]].decision is Some
    &&& before_blocker(p, ks, c, j)
}

/// Delivered now with transactions: committed and holding some for `c`.
pub open spec fn delivers(p: Map<Seq<char>, PendingXtView>, ks: Seq<Seq<char>>, c: u64, j: int) -> bool {
    &&& up_for_delivery(p, ks, c, j)
    &&& p[ks[j]].decision == Some(true)
    &&& p[ks[j]].raw_txs[c].len() > 0
}

/// Settled now without transactions: aborted, or committed with none for `c`.
pub open spec fn retires(p: Map<Seq<char>, PendingXtView>, ks: Seq<Seq<char>>, c: u64, j: int) -> bool {
    &&& up_for_delivery(p, ks, c, j)
    &&& !delivers(p, ks, c, j)
}

/// The instance marked as delivered on chain `c`.
pub open spec fn mark_delivered(x: PendingXtView, c: u64) -> PendingXtView {
    PendingXtView { delivered_chains: x.delivered_chains.insert(c, true), ..x }
}

/// The fulfilled dependencies that target chain `c`.
pub open spec fn deps_for(deps: Seq<CrossRollupDependencyView>, c: u64) -> Seq<CrossRollupDependencyView> {
    deps.filter(|d: CrossRollupDependencyView| d.dest_chain_id.0 == c)
}

/// An empty answer telling the builder to go ahead.
pub open spec fn is_ready_response(r: &BuilderPollResponse) -> bool {
    &&& !r.hold
    &&& r.transactions@.len() == 0
    &&& r.poll_after_ms is None
    &&& r.max_hold_ms is None
}

/// An empty answer telling the builder to hold.
pub open spec fn is_hold_response(r: &BuilderPollResponse, circ_timeout_ms: u64) -> bool {
    &&& r.hold
    &&& r.transactions@.len() == 0
    &&& r.poll_after_ms == Some(HOLD_POLL_AFTER_MS)
    &&& r.max_hold_ms == Some(circ_timeout_ms)
}

pub fn ready_response() -> (r: BuilderPollResponse)
    ensures
        is_ready_response(&r),
{
    BuilderPollResponse { hold: false, transactions: Vec::new(), poll_after_ms: None, max_hold_ms: None }
}

pub fn hold_response(circ_timeout_ms: u64) -> (r: BuilderPollResponse)
    ensures
        is_hold_response(&r, circ_timeout_ms),
{
    BuilderPollResponse {
        hold: true,
        transactions: Vec::new(),
        poll_after_ms: Some(HOLD_POLL_AFTER_MS),
        max_hold_ms: Some(circ_timeout_ms),
    }
}

/// A committed instance's share of a delivery to one chain.
#[derive(Debug)]
pub struct DeliverableXt {
    pub id: String,
    pub put_inbox_txs: Vec<Vec<u8>>,
    pub raw_txs: Vec<Vec<u8>>,
    pub deps: Vec<CrossRollupDependency>,
}

/// The transactions of a delivery, entry by entry: first the put-inbox
/// transactions that fill the mailbox, then the instance's own transactions.
pub open spec fn payloads(ds: Seq<(Seq<Seq<u8>>, Seq<Seq<u8>>)>) -> Seq<Seq<u8>>
    decreases ds.len(),
{
    if ds.len() == 0 {
        Seq::empty()
    } else {
        payloads(ds.drop_last()) + ds.last().0 + ds.last().1
    }
}

/// The put-inbox and raw transactions of each deliverable.
pub open spec fn deliverable_txs(ds: Seq<DeliverableXt>) -> Seq<(Seq<Seq<u8>>, Seq<Seq<u8>>)> {
    ds.map_values(|d: DeliverableXt| (d.put_inbox_txs.deep_view(), d.raw_txs.deep_view()))
}

/// Concatenate the transactions of the deliverables, in order.
pub fn build_transaction_payloads(ds: &Vec<DeliverableXt>) -> (txs: Vec<Vec<u8>>)
    ensures
        txs.deep_view() == payloads(deliverable_txs(ds@)),
{
    let mut txs: Vec<Vec<u8>> = Vec::new();
    let mut i: usize = 0;
    while i < ds.len()
        invariant
            i <= ds@.len(),
            txs.deep_view() == payloads(deliverable_txs(ds@.subrange(0, i as int))),
        decreases ds@.len() - i,
    {
        let d = &ds[i];
        let ghost before = txs.deep_view();
        let mut j: usize = 0;
        while j < d.put_inbox_txs.len()
            invariant
                j <= d.put_inbox_txs@.len(),
                txs.deep_view() == before + d.put_inbox_txs.deep_view().subrange(0, j as int),
            decreases d.put_inbox_txs@.len() - j,
        {
            let t = d.put_inbox_txs[j].deep_clone();
            let ghost prev = txs.deep_view();
            txs.push(t);
            proof {
                assert(txs.deep_view() =~= prev.push(t.deep_view()));
                assert(before + d.put_inbox_txs.deep_view().subrange(0, j as int + 1) =~= (before
                    + d.put_inbox_txs.deep_view().subrange(0, j as int)).push(t.deep_view()));
            }
            j = j + 1;
        }
        let ghost mid = txs.deep_view();
        let mut j: usize = 0;
        while j < d.raw_txs.len()
            invariant
                j <= d.raw_txs@.len(),
                txs.deep_view() == mid + d.raw_txs.deep_view().subrange(0, j as int),
            decreases d.raw_txs@.len() - j,
        {
            let t = d.raw_txs[j].deep_clone();
            let ghost prev = txs.deep_view();
            txs.push(t);
            proof {
                assert(txs.deep_view() =~= prev.push(t.deep_view()));
                assert(mid + d.raw_txs.deep_view().subrange(0, j as int + 1) =~= (mid
                    + d.raw_txs.deep_view().subrange(0, j as int)).push(t.deep_view()));
            }
            j = j + 1;
        }
        proof {
            let s1 = ds@.subrange(0, i as int + 1);
            assert(deliverable_txs(s1).drop_last() =~= deliverable_txs(ds@.subrange(0, i as int)));
            assert(d.put_inbox_txs.deep_view().subrange(0, d.put_inbox_txs@.len() as int) =~= d.put_inbox_txs.deep_view());
            assert(d.raw_txs.deep_view().subrange(0, d.raw_txs@.len() as int) =~= d.raw_txs.deep_view());
            assert(txs.deep_view() =~= payloads(deliverable_txs(s1)));
        }
        i = i + 1;
    }
    proof {
        assert(ds@.subrange(0, ds@.len() as int) =~= ds@);
    }
    txs
}

/// The fulfilled dependencies whose destination is `c`.
pub fn deps_for_chain(deps: &Vec<CrossRollupDependency>, c: ChainId) -> (r: Vec<CrossRollupDependency>)
    ensures
        r.deep_view() == deps_for(deps.deep_view(), c.0),
{
    let mut r: Vec<CrossRollupDependency> = Vec::new();
    let mut i: usize = 0;
    while i < deps.len()
        invariant
            i <= deps@.len(),
            r.deep_view() == deps_for(deps.deep_view().subrange(0, i as int), c.0),
        decreases deps@.len() - i,
    {
        let ghost prev = r.deep_view();
        let ghost s1 = deps.deep_view().subrange(0, i as int + 1);
        proof {
            assert(s1.drop_last() =~= deps.deep_view().subrange(0, i as int));
            reveal_with_fuel(Seq::<_>::filter, 1);
            assert(s1.last() == deps[i as int].deep_view());
        }
        if deps[i].dest_chain_id.0 == c.0 {
            let d = deps[i].deep_clone();
            r.push(d);
            proof {
                assert(r.deep_view() =~= prev.push(d.deep_view()));
            }
        }
        i = i + 1;
    }
    proof {
        assert(deps.deep_view().subrange(0, deps@.len() as int) =~= deps.deep_view());
    }
    r
}

impl DefaultCoordinator {
    /// Give every undecided instance on chain `c` that has not locked `c`
    /// the new snapshot of `c`.
    fn refresh_snapshots(&mut self, c: u64, snap: &ChainState)
        ensures
            same_besides_pending(old(self), final(self)),
            marks_kept(old(self).state.pending@, final(self).state.pending@),
            final(self).state.pending.key_seq() == old(self).state.pending.key_seq(),
            final(self).state.pending@ == polled(old(self).state.pending@, c, snap.deep_view()),
    {
        let ghost p0 = self.state.pending@;
        let ghost ks = self.state.pending.key_seq();
        let n = self.state.pending.len();
        let mut i: usize = 0;
        while i < n
            invariant
                i <= n,
                n == ks.len(),
                n == self.state.pending@.dom().len(),
                ks.no_duplicates(),
                same_besides_pending(old(self), self),
                self.state.pending.key_seq() == ks,
                self.state.pending@.dom() == p0.dom(),
                forall|k: Seq<char>| #[trigger] p0.dom().contains(k) <==> ks.contains(k),
                forall|j: int| 0 <= j < ks.len() ==> #[trigger] p0.dom().contains(ks[j]),
                forall|j: int| 0 <= j < i ==> self.state.pending@[#[trigger] ks[j]] == refresh(p0[ks[j]], c, snap.deep_view()),
                forall|j: int| i <= j < n ==> self.state.pending@[#[trigger] ks[j]] == p0[ks[j]],
            decreases n - i,
        {
            let key = self.state.pending.key_at(i).copy_key();
            let needs = {
                let xt = self.state.pending.value_at(i);
                let locked = match xt.locked_chains.get(&c) {
                    Some(b) => *b,
                    None => false,
                };
                xt.raw_txs.contains_key(&c) && xt.decision.is_none() && !locked
            };
            if needs {
                let ghost before = self.state.pending@;
                match self.state.take_out(&key) {
                    Some(mut xt) => {
                        let ghost mid = self.state.pending@;
                        xt.chain_states.insert(c, snap.deep_clone());
                        self.state.put_back(&key, xt);
                        proof {
                            assert(self.state.pending@ =~= before.insert(key@, xt.deep_view()));
                        }
                    },
                    None => {},
                }
                proof {
                    assert forall|j: int| 0 <= j < n && j != i implies self.state.pending@[#[trigger] ks[j]] == before[ks[j]] by {
                        assert(ks[j] != ks[i as int]);
                    }
                }
            }
            i = i + 1;
        }
        proof {
            assert forall|k: Seq<char>| #[trigger] self.state.pending@.dom().contains(k) implies self.state.pending@[k]
                == refresh(p0[k], c, snap.deep_view()) by {
                assert(ks.contains(k));
                let j = choose|j: int| 0 <= j < ks.len() && ks[j] == k;
            }
            assert(self.state.pending@ =~= polled(p0, c, snap.deep_view()));
        }
    }

    /// The positions of the instances on chain `c`, in poll order.
    fn poll_order(&self, c: u64) -> (o: Vec<usize>)
        ensures
            is_poll_order(self.state.pending@, self.state.pending.key_seq(), c, o@),
    {
        let ghost p = self.state.pending@;
        let ghost ks = self.state.pending.key_seq();
        let n = self.state.pending.len();
        let mut o: Vec<usize> = Vec::new();
        let mut i: usize = 0;
        while i < n
            invariant
                i <= n,
                n == ks.len(),
                n == self.state.pending@.dom().len(),
                p == self.state.pending@,
                ks == self.state.pending.key_seq(),
                forall|t: int| 0 <= t < o@.len() ==> in_poll(p, ks, c, #[trigger] o@[t] as int) && o@[t] < i,
                forall|j: int| #![trigger ks[j]] 0 <= j < i && in_poll(p, ks, c, j) ==> exists|t: int| 0 <= t < o@.len() && o@[t] == j,
                forall|t1: int, t2: int| 0 <= t1 < t2 < o@.len() ==> poll_before(p, ks, #[trigger] o@[t1] as int, #[trigger] o@[t2] as int),
            decreases n - i,
        {
            let xt = self.state.pending.value_at(i);
            if xt.raw_txs.contains_key(&c) {
                let s = xt.sequence;
                let mut t: usize = 0;
                while t < o.len() && self.state.pending.value_at(o[t]).sequence <= s
                    invariant
                        t <= o@.len(),
                        forall|u: int| 0 <= u < t ==> p[ks[#[trigger] o@[u] as int]].sequence <= s,
                        forall|u: int| 0 <= u < o@.len() ==> in_poll(p, ks, c, #[trigger] o@[u] as int) && o@[u] < i,
                        n == ks.len(),
                        n == self.state.pending@.dom().len(),
                        i < n,
                        p == self.state.pending@,
                        ks == self.state.pending.key_seq(),
                        s == p[ks[i as int]].sequence,
                    decreases o@.len() - t,
                {
                    t = t + 1;
                }
                let ghost old_o = o@;
                o.insert(t, i);
                proof {
                    assert(o@ == old_o.insert(t as int, i));
                    assert forall|t1: int, t2: int| 0 <= t1 < t2 < o@.len() implies poll_before(p, ks, #[trigger] o@[t1] as int, #[trigger] o@[t2] as int) by {
                        if t2 < t {
                            assert(o@[t1] == old_o[t1] && o@[t2] == old_o[t2]);
                        } else if t2 == t {
                            assert(o@[t1] == old_o[t1]);
                        } else if t1 == t {
                            assert(o@[t2] == old_o[t2 - 1]);
                            if t < old_o.len() {
                                assert(p[ks[old_o[t as int] as int]].sequence > s);
                                if t2 - 1 > t {
                                    assert(poll_before(p, ks, old_o[t as int] as int, old_o[t2 - 1] as int));
                                }
                            }
                        } else if t1 < t {
                            assert(o@[t1] == old_o[t1] && o@[t2] == old_o[t2 - 1]);
                        } else {
                            assert(o@[t1] == old_o[t1 - 1] && o@[t2] == old_o[t2 - 1]);
                        }
                    }
                    assert forall|j: int| #![trigger ks[j]] 0 <= j < i + 1 && in_poll(p, ks, c, j) implies exists|u: int| 0 <= u < o@.len() && o@[u] == j by {
                        if j == i {
                            assert(o@[t as int] == i);
                        } else {
                            let u = choose|u: int| 0 <= u < old_o.len() && old_o[u] == j;
                            if u < t {
                                assert(o@[u] == j);
                            } else {
                                assert(o@[u + 1] == j);
                            }
                        }
                    }
                }
            }
            i = i + 1;
        }
        o
    }
}

impl DefaultCoordinator {
    /// Walk the instances on chain `c` in poll order up to the first undecided
    /// one not yet delivered there: committed ones with transactions become
    /// deliverables; the others are marked delivered.
    fn collect_deliveries(&mut self, c: u64, o: &Vec<usize>) -> (r: (Vec<DeliverableXt>, bool))
        requires
            is_poll_order(old(self).state.pending@, old(self).state.pending.key_seq(), c, o@),
        ensures
            same_besides_pending(old(self), final(self)),
            marks_kept(old(self).state.pending@, final(self).state.pending@),
            final(self).state.pending.key_seq() == old(self).state.pending.key_seq(),
            final(self).state.pending@ == after_retiring(old(self).state.pending@, old(self).state.pending.key_seq(), c),
            is_delivery(old(self).state.pending@, old(self).state.pending.key_seq(), c, r.0@),
            r.1 == has_blocker(old(self).state.pending@, old(self).state.pending.key_seq(), c),
    {
        let ghost p = self.state.pending@;
        let ghost ks = self.state.pending.key_seq();
        let n = self.state.pending.len();
        let mut ds: Vec<DeliverableXt> = Vec::new();
        let ghost mut du: Seq<int> = Seq::empty();
        let mut blocked = false;
        let mut t: usize = 0;
        while t < o.len()
            invariant_except_break
                !blocked,
            invariant
                t <= o@.len(),
                n == ks.len(),
                n == p.dom().len(),
                ks.no_duplicates(),
                is_poll_order(p, ks, c, o@),
                forall|k: Seq<char>| #[trigger] p.dom().contains(k) <==> ks.contains(k),
                forall|j: int| 0 <= j < ks.len() ==> #[trigger] p.dom().contains(ks[j]),
                same_besides_pending(old(self), self),
                self.state.pending.key_seq() == ks,
                self.state.pending@.dom() == p.dom(),
                forall|u: int| 0 <= u < t ==> !stalls(p, ks, c, #[trigger] o@[u] as int),
                forall|u: int| 0 <= u < t ==> self.state.pending@[ks[#[trigger] o@[u] as int]] == (if retire_candidate(p, ks, c, o@[u] as int) {
                    mark_delivered(p[ks[o@[u] as int]], c)
                } else {
                    p[ks[o@[u] as int]]
                }),
                forall|j: int| 0 <= j < n && !(exists|u: int| 0 <= u < t && o@[u] == j) ==> self.state.pending@[#[trigger] ks[j]] == p[ks[j]],
                ds@.len() == du.len(),
                forall|a: int| 0 <= a < du.len() ==> 0 <= #[trigger] du[a] < t && delivery_candidate(p, ks, c, o@[du[a]] as int),
                forall|a: int| 0 <= a < du.len() ==> (#[trigger] ds@[a]).id@ == ks[o@[du[a]] as int]
                    && ds@[a].raw_txs.deep_view() == p[ks[o@[du[a]] as int]].raw_txs[c]
                    && ds@[a].deps.deep_view() == deps_for(p[ks[o@[du[a]] as int]].fulfilled_deps, c)
                    && ds@[a].put_inbox_txs@.len() == 0,
                forall|a: int, b: int| 0 <= a < b < du.len() ==> #[trigger] du[a] < #[trigger] du[b],
                forall|u: int| 0 <= u < t && delivery_candidate(p, ks, c, #[trigger] o@[u] as int) ==> exists|a: int| 0 <= a < du.len() && du[a] == u,
            ensures
                blocked ==> t < o@.len() && stalls(p, ks, c, o@[t as int] as int),
                !blocked ==> t == o@.len(),
            decreases o@.len() - t,
        {
            let ghost du0 = du;
            let pos = o[t];
            let key = self.state.pending.key_at(pos).copy_key();
            let ghost jpos = pos as int;
            proof {
                assert(in_poll(p, ks, c, jpos));
                assert(forall|u: int| 0 <= u < t ==> o@[u] != pos) by {
                    assert forall|u: int| 0 <= u < t implies o@[u] != pos by {
                        assert(poll_before(p, ks, o@[u] as int, o@[t as int] as int));
                        lemma_poll_before_total(p, ks, jpos, jpos);
                    }
                }
            }
            let (delivered, decision, raw_len) = {
                let xt = self.state.pending.value_at(pos);
                let delivered = match xt.delivered_chains.get(&c) {
                    Some(b) => *b,
                    None => false,
                };
                let raw_len = match xt.raw_txs.get(&c) {
                    Some(txs) => txs.len(),
                    None => 0,
                };
                (delivered, xt.decision, raw_len)
            };
            if !delivered {
                match decision {
                    None => {
                        blocked = true;
                        break;
                    },
                    Some(commit) => {
                        if commit && raw_len > 0 {
                            let (raw, deps) = {
                                let xt = self.state.pending.value_at(pos);
                                let raw = match xt.raw_txs.get(&c) {
                                    Some(txs) => txs.deep_clone(),
                                    None => Vec::new(),
                                };
                                (raw, deps_for_chain(&xt.fulfilled_deps, ChainId(c)))
                            };
                            let d = DeliverableXt { id: key, put_inbox_txs: Vec::new(), raw_txs: raw, deps };
                            let ghost old_ds = ds@;
                            ds.push(d);
                            proof {
                                du = du.push(t as int);
                                assert(ds@ == old_ds.push(d));
                            }
                        } else {
                            match self.state.take_out(&key) {
                                Some(mut xt) => {
                                    xt.delivered_chains.insert(c, true);
                                    self.state.put_back(&key, xt);
                                },
                                None => {},
                            }
                        }
                    },
                }
            }
            proof {
                assert forall|j: int| 0 <= j < n && j != jpos implies ks[j] != ks[jpos] by {}
                assert forall|u: int| 0 <= u < t + 1 && delivery_candidate(p, ks, c, #[trigger] o@[u] as int) implies exists|a: int| 0 <= a < du.len() && du[a] == u by {
                    if u == t {
                        assert(self.state.pending@[ks[jpos]] == p[ks[jpos]]);
                        assert(du[du.len() - 1] == t as int);
                    } else {
                        let a = choose|a: int| 0 <= a < du0.len() && du0[a] == u;
                        assert(du[a] == du0[a]);
                    }
                }
            }
            t = t + 1;
        }
        proof {
            lemma_collect_end(p, ks, c, o@, t as int, blocked);
            assert forall|k: Seq<char>| #[trigger] self.state.pending@.dom().contains(k) implies self.state.pending@[k]
                == after_retiring(p, ks, c)[k] by {
                assert(ks.contains(k));
                let j = choose|j: int| 0 <= j < ks.len() && ks[j] == k;
                lemma_pos_of(ks, j);
                if exists|u: int| 0 <= u < t && o@[u] == j {
                    let u = choose|u: int| 0 <= u < t && o@[u] == j;
                    assert(self.state.pending@[ks[o@[u] as int]] == self.state.pending@[k]);
                } else {
                    if in_poll(p, ks, c, j) {
                        let u = choose|u: int| 0 <= u < o@.len() && o@[u] == j;
                        assert(u >= t);
                    }
                }
            }
            assert(self.state.pending@ =~= after_retiring(p, ks, c));
            assert forall|a: int| 0 <= a < ds@.len() implies {
                let k = (#[trigger] ds@[a]).id@;
                &&& ks.contains(k)
                &&& delivers(p, ks, c, pos_of(ks, k))
                &&& ds@[a].raw_txs.deep_view() == p[k].raw_txs[c]
                &&& ds@[a].deps.deep_view() == deps_for(p[k].fulfilled_deps, c)
                &&& ds@[a].put_inbox_txs@.len() == 0
            } by {
                let j = o@[du[a]] as int;
                lemma_pos_of(ks, j);
                assert(ks.contains(ks[j]));
            }
            assert forall|j: int| #![trigger ks[j]] delivers(p, ks, c, j) implies exists|a: int| 0 <= a < ds@.len() && ds@[a].id@ == ks[j] by {
                let u = choose|u: int| 0 <= u < o@.len() && o@[u] == j;
                assert(delivery_candidate(p, ks, c, o@[u] as int));
                let a = choose|a: int| 0 <= a < du.len() && du[a] == u;
                assert(ds@[a].id@ == ks[j]);
            }
            assert forall|a: int, b: int| 0 <= a < b < ds@.len() implies poll_before(p, ks, pos_of(ks, (#[trigger] ds@[a]).id@), pos_of(ks, (#[trigger] ds@[b]).id@)) by {
                lemma_pos_of(ks, o@[du[a]] as int);
                lemma_pos_of(ks, o@[du[b]] as int);
                assert(du[a] < du[b]);
            }
        }
        (ds, blocked)
    }
}

/// After the delivery walk stopped at `t`: the processed positions are the
/// ones before any blocker, so candidates there are exactly the deliveries.
proof fn lemma_collect_end(p: Map<Seq<char>, PendingXtView>, ks: Seq<Seq<char>>, c: u64, o: Seq<usize>, t: int, blocked: bool)
    requires
        is_poll_order(p, ks, c, o),
        0 <= t <= o.len(),
        forall|u: int| 0 <= u < t ==> !stalls(p, ks, c, #[trigger] o[u] as int),
        blocked ==> t < o.len() && stalls(p, ks, c, o[t] as int),
        !blocked ==> t == o.len(),
    ensures
        blocked == has_blocker(p, ks, c),
        forall|u: int| 0 <= u < t ==> before_blocker(p, ks, c, #[trigger] o[u] as int),
        forall|u: int| 0 <= u < t ==> (delivers(p, ks, c, #[trigger] o[u] as int) <==> delivery_candidate(p, ks, c, o[u] as int)),
        forall|u: int| 0 <= u < t ==> (retires(p, ks, c, #[trigger] o[u] as int) <==> retire_candidate(p, ks, c, o[u] as int)),
        forall|u: int| t <= u < o.len() ==> !delivers(p, ks, c, #[trigger] o[u] as int) && !retires(p, ks, c, o[u] as int),
        forall|j: int| !in_poll(p, ks, c, j) ==> !delivers(p, ks, c, j) && !retires(p, ks, c, j),
{
    // Every blocker is listed at or after t.
    assert forall|b: int| #[trigger] is_blocker(p, ks, c, b) implies exists|ub: int| t <= ub < o.len() && o[ub] == b by {
        let ub = choose|ub: int| 0 <= ub < o.len() && o[ub] == b;
        if ub < t {
            assert(!stalls(p, ks, c, o[ub] as int));
        }
    }
    if blocked {
        let b = o[t] as int;
        assert(is_blocker(p, ks, c, b)) by {
            assert forall|j: int| #![trigger p[ks[j]]] in_poll(p, ks, c, j) && !flag(p[ks[j]].delivered_chains, c) && poll_before(p, ks, j, b)
                implies p[ks[j]].decision is Some by {
                let uj = choose|uj: int| 0 <= uj < o.len() && o[uj] == j;
                lemma_poll_order_index(p, ks, c, o, uj, t);
                assert(!stalls(p, ks, c, o[uj] as int));
            }
        }
    } else {
        assert forall|b: int| !is_blocker(p, ks, c, b) by {
            if is_blocker(p, ks, c, b) {
                let ub = choose|ub: int| t <= ub < o.len() && o[ub] == b;
            }
        }
    }
    assert forall|u: int| 0 <= u < t implies before_blocker(p, ks, c, #[trigger] o[u] as int) by {
        assert forall|b: int| #[trigger] is_blocker(p, ks, c, b) implies poll_before(p, ks, o[u] as int, b) by {
            let ub = choose|ub: int| t <= ub < o.len() && o[ub] == b;
        }
    }
    assert forall|u: int| t <= u < o.len() implies !delivers(p, ks, c, #[trigger] o[u] as int) && !retires(p, ks, c, o[u] as int) by {
        if delivers(p, ks, c, o[u] as int) || retires(p, ks, c, o[u] as int) {
            let b = o[t] as int;
            assert(is_blocker(p, ks, c, b));
            assert(poll_before(p, ks, o[u] as int, b));
            lemma_poll_order_index(p, ks, c, o, u, t);
        }
    }
}

/// Whether every chain the instance touches has a snapshot.
pub fn all_chains_ready(xt: &PendingXt) -> (b: bool)
    ensures
        b == (forall|cc: u64| #[trigger] xt.raw_txs@.dom().contains(cc) ==> xt.chain_states@.dom().contains(cc)),
{
    let ks = xt.raw_txs.keys();
    let mut i: usize = 0;
    while i < ks.len()
        invariant
            i <= ks@.len(),
            forall|k: u64| ks.deep_view().contains(k) <==> xt.raw_txs@.dom().contains(k),
            forall|j: int| 0 <= j < i ==> xt.chain_states@.dom().contains(#[trigger] ks.deep_view()[j]),
            ks@.len() == ks.deep_view().len(),
        decreases ks@.len() - i,
    {
        proof {
            assert(ks.deep_view()[i as int] == ks@[i as int]);
        }
        if !xt.chain_states.contains_key(&ks[i]) {
            proof {
                assert(ks.deep_view().contains(ks@[i as int]));
            }
            return false;
        }
        i = i + 1;
    }
    proof {
        assert forall|cc: u64| #[trigger] xt.raw_txs@.dom().contains(cc) implies xt.chain_states@.dom().contains(cc) by {
            assert(ks.deep_view().contains(cc));
            let j = choose|j: int| 0 <= j < ks.deep_view().len() && ks.deep_view()[j] == cc;
        }
    }
    true
}

/// The state fields besides the pending table and the chain snapshots stay as they were.
pub open spec fn same_bookkeeping(a: &DefaultCoordinator, b: &DefaultCoordinator) -> bool {
    &&& same_setup(a, b)
    &&& a.state.current_period_id == b.state.current_period_id
    &&& a.state.current_superblock_num == b.state.current_superblock_num
    &&& a.state.period_initialized == b.state.period_initialized
    &&& a.state.last_sequence_num == b.state.last_sequence_num
    &&& a.state.last_known_blocks@ == b.state.last_known_blocks@
}

/// Processing starts on this poll of chain `c`.
pub open spec fn poll_starts_processing(
    p: Map<Seq<char>, PendingXtView>,
    ks: Seq<Seq<char>>,
    c: u64,
    local_chain: u64,
    publisher_connected: bool,
) -> bool {
    exists|i: int| is_first_undecided(p, ks, c, i) && starts_processing(p[ks[i]], local_chain, publisher_connected)
}

impl DefaultCoordinator {
    /// Take a builder poll from chain `req.chain_id`: record its snapshot,
    /// then either start processing the first undecided instance, or collect
    /// the committed transactions to deliver, or tell the builder to hold or
    /// go ahead.
    pub fn handle_builder_poll(&mut self, req: &BuilderPollRequest, publisher_connected: bool) -> (step: PollStep)
        ensures
            same_bookkeeping(old(self), final(self)),
            marks_kept(old(self).state.pending@, final(self).state.pending@),
            final(self).state.pending.key_seq() == old(self).state.pending.key_seq(),
            req.flashblock_index == 0 ==> (step matches PollStep::Respond(r) && is_ready_response(&r))
                && final(self).state.pending@ == old(self).state.pending@
                && final(self).state.chain_states@ == old(self).state.chain_states@,
            req.flashblock_index != 0 ==> ({
                let c = req.chain_id.0;
                let local = old(self).chain_id.0;
                let p = polled(old(self).state.pending@, c, snapshot_of(req));
                let ks = old(self).state.pending.key_seq();
                &&& final(self).state.chain_states@ == old(self).state.chain_states@.insert(c, snapshot_of(req))
                &&& poll_starts_processing(p, ks, c, local, publisher_connected) ==> {
                    &&& step matches PollStep::Process { id, response }
                    &&& ks.contains(id@)
                    &&& is_first_undecided(p, ks, c, pos_of(ks, id@))
                    &&& starts_processing(p[id@], local, publisher_connected)
                    &&& is_hold_response(&response, old(self).circ_timeout_ms)
                    &&& final(self).state.pending@ == p.insert(id@, lock_local(p[id@], local))
                }
                &&& !poll_starts_processing(p, ks, c, local, publisher_connected) ==> {
                    &&& final(self).state.pending@ == after_retiring(p, ks, c)
                    &&& has_delivery(p, ks, c) ==> (step matches PollStep::Deliver(ds) && ds@.len() > 0 && is_delivery(p, ks, c, ds@))
                    &&& !has_delivery(p, ks, c) ==> (step matches PollStep::Respond(r) && (if has_blocker(p, ks, c) {
                        is_hold_response(&r, old(self).circ_timeout_ms)
                    } else {
                        is_ready_response(&r)
                    }))
                }
            }),
    {
        if req.flashblock_index == 0 {
            return PollStep::Respond(ready_response());
        }
        let c = req.chain_id.0;
        let local = self.chain_id.0;
        let snap = ChainState {
            chain_id: req.chain_id,
            block_number: req.block_number,
            flashblock_index: req.flashblock_index,
            state_root: req.state_root,
            timestamp: req.timestamp,
            gas_limit: req.gas_limit,
            state_overrides: req.state_overrides.deep_clone(),
        };
        self.state.chain_states.insert(c, snap.deep_clone());
        self.refresh_snapshots(c, &snap);
        let ghost p = self.state.pending@;
        let ghost ks = self.state.pending.key_seq();
        let n = self.state.pending.len();
        let o = self.poll_order(c);

        let mut t: usize = 0;
        while t < o.len() && self.state.pending.value_at(o[t]).decision.is_some()
            invariant
                t <= o@.len(),
                n == self.state.pending@.dom().len(),
                n == ks.len(),
                p == self.state.pending@,
                ks == self.state.pending.key_seq(),
                is_poll_order(p, ks, c, o@),
                forall|u: int| 0 <= u < t ==> p[ks[#[trigger] o@[u] as int]].decision is Some,
            decreases o@.len() - t,
        {
            t = t + 1;
        }
        proof {
            assert forall|i: int| #[trigger] is_first_undecided(p, ks, c, i) implies t < o@.len() && i == o@[t as int] by {
                let ui = choose|ui: int| 0 <= ui < o@.len() && o@[ui] == i;
                assert(ui >= t);
                if t < o@.len() && ui != t {
                    assert(p[ks[o@[t as int] as int]].decision is None);
                    assert(poll_before(p, ks, i, o@[t as int] as int));
                    lemma_poll_order_index(p, ks, c, o@, ui, t as int);
                }
            }
        }
        if t < o.len() {
            let pos = o[t];
            proof {
                assert(is_first_undecided(p, ks, c, pos as int)) by {
                    assert forall|j: int| #![trigger p[ks[j]]] in_poll(p, ks, c, j) && p[ks[j]].decision is None && j != pos
                        implies poll_before(p, ks, pos as int, j) by {
                        let uj = choose|uj: int| 0 <= uj < o@.len() && o@[uj] == j;
                        if uj < t {
                            assert(p[ks[o@[uj] as int]].decision is Some);
                        }
                        assert(uj > t);
                    }
                }
            }
            let start = {
                let xt = self.state.pending.value_at(pos);
                let ready = if publisher_connected {
                    all_chains_ready(xt)
                } else {
                    xt.chain_states.contains_key(&local)
                };
                let locked = match xt.locked_chains.get(&local) {
                    Some(b) => *b,
                    None => false,
                };
                ready && !xt.vote_sent && !locked
            };
            if start {
                let key = self.state.pending.key_at(pos).copy_key();
                match self.state.take_out(&key) {
                    Some(mut xt) => {
                        xt.locked_chains.insert(local, true);
                        self.state.put_back(&key, xt);
                    },
                    None => {},
                }
                proof {
                    lemma_pos_of(ks, pos as int);
                    assert(ks.contains(key@));
                    assert(self.state.pending@ =~= p.insert(key@, lock_local(p[key@], local)));
                }
                return PollStep::Process { id: key, response: hold_response(self.circ_timeout_ms) };
            }
        }
        let (ds, blocked) = self.collect_deliveries(c, &o);
        proof {
            assert(has_delivery(p, ks, c) <==> ds@.len() > 0) by {
                if has_delivery(p, ks, c) {
                    let j = choose|j: int| delivers(p, ks, c, j);
                    assert(ks[j] == ks[j]);
                }
                if ds@.len() > 0 {
                    assert(delivers(p, ks, c, pos_of(ks, ds@[0].id@)));
                }
            }
        }
        if ds.len() > 0 {
            PollStep::Deliver(ds)
        } else if blocked {
            PollStep::Respond(hold_response(self.circ_timeout_ms))
        } else {
            PollStep::Respond(ready_response())
        }
    }

    /// Finish a delivery to chain `c`: mark the delivered instances that are
    /// still pending, and hand out their transactions in order.
    pub fn finish_builder_poll(&mut self, c: ChainId, ds: &Vec<DeliverableXt>) -> (r: BuilderPollResponse)
        ensures
            same_besides_pending(old(self), final(self)),
            marks_kept(old(self).state.pending@, final(self).state.pending@),
            final(self).state.pending.key_seq() == old(self).state.pending.key_seq(),
            final(self).state.pending@.dom() == old(self).state.pending@.dom(),
            forall|k: Seq<char>| #[trigger] final(self).state.pending@.dom().contains(k) ==> final(self).state.pending@[k]
                == if (exists|a: int| 0 <= a < ds@.len() && ds@[a].id@ == k) {
                    mark_delivered(old(self).state.pending@[k], c.0)
                } else {
                    old(self).state.pending@[k]
                },
            !r.hold,
            r.poll_after_ms is None,
            r.max_hold_ms is None,
            r.transactions.deep_view() == payloads(deliverable_txs(ds@)),
    {
        let transactions = build_transaction_payloads(ds);
        let ghost p = self.state.pending@;
        let mut i: usize = 0;
        while i < ds.len()
            invariant
                i <= ds@.len(),
                same_besides_pending(old(self), self),
                p == old(self).state.pending@,
                self.state.pending.key_seq() == old(self).state.pending.key_seq(),
                self.state.pending@.dom() == p.dom(),
                forall|k: Seq<char>| #[trigger] self.state.pending@.dom().contains(k) ==> self.state.pending@[k]
                    == if (exists|a: int| 0 <= a < i && ds@[a].id@ == k) {
                        mark_delivered(p[k], c.0)
                    } else {
                        p[k]
                    },
            decreases ds@.len() - i,
        {
            let ghost before = self.state.pending@;
            let id = &ds[i].id;
            match self.state.take_out(id) {
                Some(mut xt) => {
                    xt.delivered_chains.insert(c.0, true);
                    self.state.put_back(id, xt);
                    proof {
                        assert(xt.deep_view().delivered_chains == before[id@].delivered_chains.insert(c.0, true));
                        assert(mark_delivered(mark_delivered(p[id@], c.0), c.0) =~= mark_delivered(p[id@], c.0)) by {
                            assert(p[id@].delivered_chains.insert(c.0, true).insert(c.0, true) =~= p[id@].delivered_chains.insert(c.0, true));
                        }
                    }
                },
                None => {},
            }
            proof {
                assert forall|k: Seq<char>| #[trigger] self.state.pending@.dom().contains(k) implies self.state.pending@[k]
                    == if (exists|a: int| 0 <= a < i + 1 && ds@[a].id@ == k) {
                        mark_delivered(p[k], c.0)
                    } else {
                        p[k]
                    } by {
                    if k == id@ {
                        assert(ds@[i as int].id@ == k);
                        if exists|a: int| 0 <= a < i && ds@[a].id@ == k {
                        } else {
                            assert(self.state.pending@[k] =~= mark_delivered(p[k], c.0));
                        }
                    } else {
                        if exists|a: int| 0 <= a < i + 1 && ds@[a].id@ == k {
                            let a = choose|a: int| 0 <= a < i + 1 && ds@[a].id@ == k;
                            assert(a < i);
                        }
                    }
                }
            }
            i = i + 1;
        }
        BuilderPollResponse { hold: false, transactions, poll_after_ms: None, max_hold_ms: None }
    }
}

impl DefaultCoordinator {
    /// Complete a delivery once its put-inbox transactions were built, or
    /// building them failed (`built` is false): then the builder is told to
    /// hold and nothing is marked delivered.
    pub fn complete_delivery(&mut self, c: ChainId, ds: &Vec<DeliverableXt>, built: bool) -> (r: BuilderPollResponse)
        ensures
            same_besides_pending(old(self), final(self)),
            marks_kept(old(self).state.pending@, final(self).state.pending@),
            final(self).state.pending.key_seq() == old(self).state.pending.key_seq(),
            !built ==> final(self).state.pending@ == old(self).state.pending@ && is_hold_response(&r, old(self).circ_timeout_ms),
            built ==> {
                &&& final(self).state.pending@.dom() == old(self).state.pending@.dom()
                &&& forall|k: Seq<char>| #[trigger] final(self).state.pending@.dom().contains(k) ==> final(self).state.pending@[k]
                    == if (exists|a: int| 0 <= a < ds@.len() && ds@[a].id@ == k) {
                        mark_delivered(old(self).state.pending@[k], c.0)
                    } else {
                        old(self).state.pending@[k]
                    }
                &&& !r.hold
                &&& r.poll_after_ms is None
                &&& r.max_hold_ms is None
                &&& r.transactions.deep_view() == payloads(deliverable_txs(ds@))
            },
    {
        if !built {
            return hold_response(self.circ_timeout_ms);
        }
        self.finish_builder_poll(c, ds)
    }
}

} // verus!
