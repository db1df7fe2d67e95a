//! Properties that hold across calls: what voting, cleanup, delivery,
//! mailbox bookkeeping, override merging and configuration layering keep.

use vstd::prelude::*;

use crate::builder_poll::{
    after_retiring, delivers, flag, is_blocker, lock_local, mark_delivered, poll_before, polled, refresh, retires,
    up_for_delivery,
};
use crate::primitives::ChainStateView;
use crate::coordinator::{
    marks_kept, after_local_vote, after_peer_vote, apply_standalone_decision, kept_by_cleanup, standalone_decision,
    votes_all_yes, votes_collected,
};
use crate::config::SidecarConfig;
use crate::loader::{config_built, empty_layer, env_key_name, env_value, layered_str, name_matches, EnvKey};
use crate::overrides::{
    hex_slots, hex_slots_of, merge_account, merge_fields, merge_overrides, slots_object, state_diff_key, state_key,
    AccountOverrideView, FieldValueView, SlotValueView,
};
use crate::pending_xt::PendingXtView;
use crate::builder_poll::{deps_for, is_delivery, DeliverableXt};
use crate::evm::{keccak256_digest, word_bytes};
use crate::loader::{config_env_bool, config_env_u32, config_env_u64, ConfigLayer};
use crate::mailbox_overrides::mailbox_key_of;
use crate::pipeline::session_u64;
use vstd::utf8::encode_utf8;
use crate::pipeline::{
    add_deps, add_messages, after_simulation, dispatch_all, first_match, fulfill_all, fulfill_one, fulfilled_by, matches_dependency, same_dep_key,
    to_mailbox_message,
};
use crate::primitives::{CrossRollupDependencyView, CrossRollupMessageView, MailboxMessageView};

verus! {

// ---------------------------------------------------------------------------
// Voting and decisions
// ---------------------------------------------------------------------------

/// The first local vote wins: once a local vote is recorded, a second local
/// vote leaves the instance exactly as it was.
pub proof fn law_first_local_vote_wins(
    x: PendingXtView,
    first: bool,
    second: bool,
    local_chain: u64,
    standalone1: bool,
    standalone2: bool,
    t1: u64,
    t2: u64,
)
    requires
        x.local_vote is None,
    ensures
        after_local_vote(x, first, local_chain, standalone1, t1).local_vote == Some(first),
        after_local_vote(after_local_vote(x, first, local_chain, standalone1, t1), second, local_chain, standalone2, t2)
            == after_local_vote(x, first, local_chain, standalone1, t1),
{
}

/// A decision, once made, is final: neither a peer vote nor a local vote
/// changes it or the time it was made.
pub proof fn law_decision_is_final(
    x: PendingXtView,
    chain: u64,
    vote: bool,
    local_chain: u64,
    standalone: bool,
    now: u64,
)
    requires
        x.decision is Some,
    ensures
        after_peer_vote(x, chain, vote, local_chain, now).decision == x.decision,
        after_peer_vote(x, chain, vote, local_chain, now).decided_at == x.decided_at,
        after_local_vote(x, vote, local_chain, standalone, now).decision == x.decision,
        after_local_vote(x, vote, local_chain, standalone, now).decided_at == x.decided_at,
{
}

/// Without a publisher an instance commits only when as many votes are in as
/// chains take part and every one of them is "yes".
pub proof fn law_commit_needs_every_yes(x: PendingXtView, local_chain: u64, now: u64)
    requires
        x.decision is None,
        apply_standalone_decision(x, local_chain, now).decision == Some(true),
    ensures
        votes_collected(x, local_chain) >= x.raw_txs.dom().len(),
        x.local_vote != Some(false),
        forall|c: u64| #[trigger] x.peer_votes.dom().contains(c) && c != local_chain ==> x.peer_votes[c],
{
}

/// One "no" aborts: once enough votes are in, an undecided instance with a
/// "no" among its counted votes is decided as aborted, at that moment.
pub proof fn law_any_no_aborts(x: PendingXtView, local_chain: u64, now: u64, no_chain: u64)
    requires
        x.decision is None,
        votes_collected(x, local_chain) >= x.raw_txs.dom().len(),
        x.local_vote == Some(false) || (no_chain != local_chain && x.peer_votes.dom().contains(no_chain)
            && !x.peer_votes[no_chain]),
    ensures
        apply_standalone_decision(x, local_chain, now).decision == Some(false),
        apply_standalone_decision(x, local_chain, now).decided_at == Some(now),
{
    assert(!votes_all_yes(x, local_chain));
}

/// A peer's vote is recorded under its chain; the instance is decided by it
/// exactly when the standalone rule then reaches a decision.
pub proof fn law_peer_vote_recorded(x: PendingXtView, chain: u64, vote: bool, local_chain: u64, now: u64)
    ensures
        after_peer_vote(x, chain, vote, local_chain, now).peer_votes == x.peer_votes.insert(chain, vote),
        after_peer_vote(x, chain, vote, local_chain, now).local_vote == x.local_vote,
        after_peer_vote(x, chain, vote, local_chain, now).decision == match standalone_decision(
            PendingXtView { peer_votes: x.peer_votes.insert(chain, vote), ..x },
            local_chain,
        ) {
            Some(d) => Some(d),
            None => x.decision,
        },
{
}

// ---------------------------------------------------------------------------
// Cleanup
// ---------------------------------------------------------------------------

/// Cleanup keeps an instance exactly when it is undecided or was decided no
/// more than `max_age_ms` ago, and what it keeps it keeps unchanged.
pub proof fn law_cleanup_keeps_undecided(
    pending: Map<Seq<char>, PendingXtView>,
    now: u64,
    max_age_ms: u64,
    k: Seq<char>,
)
    requires
        pending.dom().contains(k),
    ensures
        ({
            let kept = pending.restrict(
                pending.dom().filter(|key: Seq<char>| kept_by_cleanup(pending[key], now, max_age_ms)),
            );
            &&& pending[k].decided_at is None ==> kept.dom().contains(k)
            &&& kept.dom().contains(k) <==> (match pending[k].decided_at {
                Some(t) => (if now >= t { now - t } else { 0 }) <= max_age_ms,
                None => true,
            })
            &&& kept.dom().contains(k) ==> kept[k] == pending[k]
        }),
{
}

// ---------------------------------------------------------------------------
// Builder delivery
// ---------------------------------------------------------------------------

/// Only committed instances hand transactions to a builder, and none is
/// handed out past an undecided instance that comes earlier in poll order.
pub proof fn law_delivery_respects_order(
    p: Map<Seq<char>, PendingXtView>,
    ks: Seq<Seq<char>>,
    c: u64,
    j: int,
    b: int,
)
    requires
        delivers(p, ks, c, j),
        is_blocker(p, ks, c, b),
    ensures
        p[ks[j]].decision == Some(true),
        poll_before(p, ks, j, b),
{
}

/// An instance delivered (or settled) on a chain is not up for delivery on
/// that chain again.
pub proof fn law_delivered_once(p: Map<Seq<char>, PendingXtView>, ks: Seq<Seq<char>>, c: u64, j: int)
    requires
        0 <= j < ks.len(),
        p.dom().contains(ks[j]),
    ensures
        ({
            let q = p.insert(ks[j], mark_delivered(p[ks[j]], c));
            &&& !up_for_delivery(q, ks, c, j)
            &&& !delivers(q, ks, c, j)
            &&& !retires(q, ks, c, j)
        }),
{
    let q = p.insert(ks[j], mark_delivered(p[ks[j]], c));
    assert(flag(q[ks[j]].delivered_chains, c));
}

/// Once an instance is marked delivered on chain `c`, no later poll of `c`
/// delivers it or settles it again: whatever snapshot the poll brings, the
/// refreshed table does not offer it.
pub proof fn law_delivered_at_most_once(
    p: Map<Seq<char>, PendingXtView>,
    ks: Seq<Seq<char>>,
    c: u64,
    j: int,
    snap: ChainStateView,
)
    requires
        0 <= j < ks.len(),
        p.dom().contains(ks[j]),
        flag(p[ks[j]].delivered_chains, c),
    ensures
        !delivers(polled(p, c, snap), ks, c, j),
        !retires(polled(p, c, snap), ks, c, j),
        !delivers(p, ks, c, j),
        !retires(p, ks, c, j),
{
    assert(polled(p, c, snap)[ks[j]] == refresh(p[ks[j]], c, snap));
}

/// Delivered marks kept by one call and then by another are kept over both,
/// for the instances pending throughout.
pub proof fn law_marks_kept_over_calls(
    a: Map<Seq<char>, PendingXtView>,
    b: Map<Seq<char>, PendingXtView>,
    c: Map<Seq<char>, PendingXtView>,
)
    requires
        marks_kept(a, b),
        marks_kept(b, c),
        forall|k: Seq<char>| a.dom().contains(k) && c.dom().contains(k) ==> #[trigger] b.dom().contains(k),
    ensures
        marks_kept(a, c),
{
    assert forall|k: Seq<char>, ch: u64|
        a.dom().contains(k) && c.dom().contains(k) && flag(a[k].delivered_chains, ch) implies flag(
            c[k].delivered_chains,
            ch,
        ) by {
        assert(b.dom().contains(k));
        assert(flag(b[k].delivered_chains, ch));
    }
}

/// A committed instance is delivered to a chain at most once: once it is
/// marked delivered on `c`, every call of the coordinator keeps the mark
/// (each states `marks_kept`), and from any table that keeps it a poll of `c`
/// neither hands the instance out nor settles it again.
pub proof fn law_delivered_once_across_calls(
    p0: Map<Seq<char>, PendingXtView>,
    p1: Map<Seq<char>, PendingXtView>,
    ks: Seq<Seq<char>>,
    c: u64,
    j: int,
    snap: ChainStateView,
)
    requires
        0 <= j < ks.len(),
        p0.dom().contains(ks[j]),
        p1.dom().contains(ks[j]),
        flag(p0[ks[j]].delivered_chains, c),
        marks_kept(p0, p1),
    ensures
        !delivers(polled(p1, c, snap), ks, c, j),
        !retires(polled(p1, c, snap), ks, c, j),
{
    assert(flag(p1[ks[j]].delivered_chains, c));
    law_delivered_at_most_once(p1, ks, c, j, snap);
}

pub(crate) proof fn lemma_fulfill_keeps_delivered(x: PendingXtView, ds: Seq<CrossRollupDependencyView>)
    ensures
        fulfill_all(x, ds).0.delivered_chains == x.delivered_chains,
    decreases ds.len(),
{
    if ds.len() > 0 {
        lemma_fulfill_keeps_delivered(x, ds.drop_last());
    }
}

/// A delivered mark stays: no step of the coordinator takes it back, be it
/// a poll's refresh or settling, locking, a vote, a simulation record,
/// fulfilling dependencies, sending messages, or an incoming message.
pub proof fn law_delivered_mark_stays(
    x: PendingXtView,
    c: u64,
    other_chain: u64,
    snap: ChainStateView,
    vote: bool,
    local_chain: u64,
    standalone: bool,
    now: u64,
    overrides: Map<Seq<char>, AccountOverrideView>,
    deps: Seq<CrossRollupDependencyView>,
    msgs: Seq<CrossRollupMessageView>,
    incoming: MailboxMessageView,
)
    requires
        flag(x.delivered_chains, c),
    ensures
        flag(refresh(x, other_chain, snap).delivered_chains, c),
        flag(lock_local(x, local_chain).delivered_chains, c),
        flag(mark_delivered(x, other_chain).delivered_chains, c),
        flag(after_peer_vote(x, other_chain, vote, local_chain, now).delivered_chains, c),
        flag(after_local_vote(x, vote, local_chain, standalone, now).delivered_chains, c),
        flag(after_simulation(x, local_chain, overrides, deps, msgs).delivered_chains, c),
        flag(fulfill_all(x, deps).0.delivered_chains, c),
        flag(dispatch_all(x, msgs).0.delivered_chains, c),
        flag(PendingXtView { pending_mailbox: x.pending_mailbox.push(incoming), ..x }.delivered_chains, c),
{
    lemma_fulfill_keeps_delivered(x, deps);
    lemma_dispatch(x, msgs);
}

/// Settling instances after a poll keeps every delivered mark of the table.
pub proof fn law_settling_keeps_marks(p: Map<Seq<char>, PendingXtView>, ks: Seq<Seq<char>>, c: u64, c2: u64, k: Seq<char>)
    requires
        p.dom().contains(k),
        flag(p[k].delivered_chains, c2),
    ensures
        after_retiring(p, ks, c).dom().contains(k),
        flag(after_retiring(p, ks, c)[k].delivered_chains, c2),
{
}

// ---------------------------------------------------------------------------
// Mailbox bookkeeping
// ---------------------------------------------------------------------------

/// No two dependencies in the list share a key.
pub open spec fn distinct_dep_keys(ds: Seq<CrossRollupDependencyView>) -> bool {
    forall|i: int, j: int| 0 <= i < j < ds.len() ==> !same_dep_key(#[trigger] ds[i], #[trigger] ds[j])
}

proof fn lemma_first_match_range(b: Seq<MailboxMessageView>, d: CrossRollupDependencyView)
    ensures
        -1 <= first_match(b, d) < b.len(),
    decreases b.len(),
{
    if b.len() > 0 {
        lemma_first_match_range(b.drop_last(), d);
    }
}

proof fn lemma_fulfill_one(x: PendingXtView, d: CrossRollupDependencyView)
    requires
        distinct_dep_keys(x.fulfilled_deps),
    ensures
        ({
            let (y, n) = fulfill_one(x, d);
            &&& distinct_dep_keys(y.fulfilled_deps)
            &&& y.fulfilled_deps.len() == x.fulfilled_deps.len() + n
            &&& y.pending_mailbox.len() + n == x.pending_mailbox.len()
            &&& y.fulfilled_deps.subrange(0, x.fulfilled_deps.len() as int) == x.fulfilled_deps
            &&& (exists|j: int| 0 <= j < y.fulfilled_deps.len() && same_dep_key(#[trigger] y.fulfilled_deps[j], d))
                || n == 0
        }),
{
    lemma_first_match_range(x.pending_mailbox, d);
    let (y, n) = fulfill_one(x, d);
    assert(y.fulfilled_deps.subrange(0, x.fulfilled_deps.len() as int) =~= x.fulfilled_deps);
    if n == 1 {
        let i = first_match(x.pending_mailbox, d);
        let f = fulfilled_by(d, x.pending_mailbox[i]);
        assert(y.fulfilled_deps == x.fulfilled_deps.push(f));
        assert(same_dep_key(y.fulfilled_deps[x.fulfilled_deps.len() as int], d));
        assert forall|a: int, b: int| 0 <= a < b < y.fulfilled_deps.len() implies !same_dep_key(
            #[trigger] y.fulfilled_deps[a],
            #[trigger] y.fulfilled_deps[b],
        ) by {
            if b == x.fulfilled_deps.len() {
                assert(y.fulfilled_deps[a] == x.fulfilled_deps[a]);
                if same_dep_key(y.fulfilled_deps[a], y.fulfilled_deps[b]) {
                    assert(same_dep_key(x.fulfilled_deps[a], d));
                }
            }
        }
    }
}

/// Fulfilling dependencies from the mailbox never records two dependencies
/// with the same key, and every dependency it fulfils takes one message out
/// of the mailbox.
pub proof fn law_fulfill_keeps_keys_distinct(x: PendingXtView, ds: Seq<CrossRollupDependencyView>)
    requires
        distinct_dep_keys(x.fulfilled_deps),
    ensures
        ({
            let (y, n) = fulfill_all(x, ds);
            &&& distinct_dep_keys(y.fulfilled_deps)
            &&& y.fulfilled_deps.len() == x.fulfilled_deps.len() + n
            &&& y.pending_mailbox.len() + n == x.pending_mailbox.len()
            &&& y.fulfilled_deps.subrange(0, x.fulfilled_deps.len() as int) == x.fulfilled_deps
        }),
    decreases ds.len(),
{
    if ds.len() > 0 {
        law_fulfill_keeps_keys_distinct(x, ds.drop_last());
        let (x1, n1) = fulfill_all(x, ds.drop_last());
        lemma_fulfill_one(x1, ds.last());
        let (y, n2) = fulfill_one(x1, ds.last());
        assert(y.fulfilled_deps.subrange(0, x.fulfilled_deps.len() as int) =~= y.fulfilled_deps.subrange(
            0,
            x1.fulfilled_deps.len() as int,
        ).subrange(0, x.fulfilled_deps.len() as int));
    }
}

/// Dependency `d` needs nothing more from the mailbox: one with its key is
/// fulfilled, or no message there answers it.
pub open spec fn settled(z: PendingXtView, d: CrossRollupDependencyView) -> bool {
    ||| exists|j: int| 0 <= j < z.fulfilled_deps.len() && same_dep_key(#[trigger] z.fulfilled_deps[j], d)
    ||| first_match(z.pending_mailbox, d) < 0
}

proof fn lemma_first_match_none(b: Seq<MailboxMessageView>, d: CrossRollupDependencyView)
    ensures
        first_match(b, d) < 0 <==> forall|j: int| 0 <= j < b.len() ==> !matches_dependency(#[trigger] b[j], d),
    decreases b.len(),
{
    if b.len() > 0 {
        lemma_first_match_none(b.drop_last(), d);
        lemma_first_match_range(b.drop_last(), d);
        if first_match(b, d) < 0 {
            assert forall|j: int| 0 <= j < b.len() implies !matches_dependency(#[trigger] b[j], d) by {
                if j < b.len() - 1 {
                    assert(b.drop_last()[j] == b[j]);
                }
            }
        } else {
            if first_match(b.drop_last(), d) >= 0 {
                let j = first_match(b.drop_last(), d);
                assert(!(forall|k: int| 0 <= k < b.drop_last().len() ==> !matches_dependency(#[trigger] b.drop_last()[k], d)));
                let k = choose|k: int| 0 <= k < b.drop_last().len() && matches_dependency(#[trigger] b.drop_last()[k], d);
                assert(b[k] == b.drop_last()[k]);
            } else {
                assert(matches_dependency(b[b.len() - 1], d));
            }
        }
    }
}

proof fn lemma_settled_kept(z: PendingXtView, d: CrossRollupDependencyView, d2: CrossRollupDependencyView)
    requires
        settled(z, d),
    ensures
        settled(fulfill_one(z, d2).0, d),
{
    let z2 = fulfill_one(z, d2).0;
    lemma_first_match_range(z.pending_mailbox, d2);
    if fulfill_one(z, d2).1 == 1 {
        let i = first_match(z.pending_mailbox, d2);
        if exists|j: int| 0 <= j < z.fulfilled_deps.len() && same_dep_key(#[trigger] z.fulfilled_deps[j], d) {
            let j = choose|j: int| 0 <= j < z.fulfilled_deps.len() && same_dep_key(#[trigger] z.fulfilled_deps[j], d);
            assert(z2.fulfilled_deps[j] == z.fulfilled_deps[j]);
        } else {
            lemma_first_match_none(z.pending_mailbox, d);
            lemma_first_match_none(z2.pending_mailbox, d);
            assert forall|k: int| 0 <= k < z2.pending_mailbox.len() implies !matches_dependency(
                #[trigger] z2.pending_mailbox[k],
                d,
            ) by {
                if k < i {
                    assert(z2.pending_mailbox[k] == z.pending_mailbox[k]);
                } else {
                    assert(z2.pending_mailbox[k] == z.pending_mailbox[k + 1]);
                }
            }
        }
    }
}

proof fn lemma_fulfill_one_settles(z: PendingXtView, d: CrossRollupDependencyView)
    ensures
        settled(fulfill_one(z, d).0, d),
{
    let z2 = fulfill_one(z, d).0;
    lemma_first_match_range(z.pending_mailbox, d);
    if fulfill_one(z, d).1 == 1 {
        let i = first_match(z.pending_mailbox, d);
        assert(same_dep_key(z2.fulfilled_deps[z.fulfilled_deps.len() as int], d));
    }
}

proof fn lemma_fulfill_all_settles(x: PendingXtView, ds: Seq<CrossRollupDependencyView>)
    ensures
        forall|k: int| 0 <= k < ds.len() ==> settled(fulfill_all(x, ds).0, #[trigger] ds[k]),
    decreases ds.len(),
{
    if ds.len() > 0 {
        lemma_fulfill_all_settles(x, ds.drop_last());
        let x1 = fulfill_all(x, ds.drop_last()).0;
        assert forall|k: int| 0 <= k < ds.len() implies settled(fulfill_all(x, ds).0, #[trigger] ds[k]) by {
            if k < ds.len() - 1 {
                assert(ds.drop_last()[k] == ds[k]);
                lemma_settled_kept(x1, ds[k], ds.last());
            } else {
                lemma_fulfill_one_settles(x1, ds.last());
            }
        }
    }
}

proof fn lemma_settled_unchanged(y: PendingXtView, ds: Seq<CrossRollupDependencyView>)
    requires
        forall|k: int| 0 <= k < ds.len() ==> settled(y, #[trigger] ds[k]),
    ensures
        fulfill_all(y, ds) == (y, 0nat),
    decreases ds.len(),
{
    if ds.len() > 0 {
        assert forall|k: int| 0 <= k < ds.drop_last().len() implies settled(y, #[trigger] ds.drop_last()[k]) by {
            assert(ds.drop_last()[k] == ds[k]);
        }
        lemma_settled_unchanged(y, ds.drop_last());
        assert(settled(y, ds[ds.len() - 1]));
    }
}

/// Fulfilling the same dependencies a second time fulfils nothing and
/// changes nothing.
pub proof fn law_fulfill_again_changes_nothing(x: PendingXtView, ds: Seq<CrossRollupDependencyView>)
    ensures
        fulfill_all(fulfill_all(x, ds).0, ds) == (fulfill_all(x, ds).0, 0nat),
{
    lemma_fulfill_all_settles(x, ds);
    lemma_settled_unchanged(fulfill_all(x, ds).0, ds);
}

/// Recording the dependencies a simulation found keeps one per key: the
/// list keeps what it had, stays free of two with the same key, and holds a
/// dependency with the key of each one found.
pub proof fn law_recorded_dependencies_distinct(have: Seq<CrossRollupDependencyView>, ds: Seq<CrossRollupDependencyView>)
    requires
        distinct_dep_keys(have),
    ensures
        distinct_dep_keys(add_deps(have, ds)),
        add_deps(have, ds).len() >= have.len(),
        add_deps(have, ds).subrange(0, have.len() as int) == have,
        forall|k: int|
            0 <= k < ds.len() ==> exists|j: int|
                0 <= j < add_deps(have, ds).len() && same_dep_key(#[trigger] add_deps(have, ds)[j], #[trigger] ds[k]),
    decreases ds.len(),
{
    if ds.len() == 0 {
        assert(have.subrange(0, have.len() as int) =~= have);
    } else {
        law_recorded_dependencies_distinct(have, ds.drop_last());
        let h = add_deps(have, ds.drop_last());
        let r = add_deps(have, ds);
        let d = ds.last();
        if !(exists|j: int| 0 <= j < h.len() && same_dep_key(#[trigger] h[j], d)) {
            assert(r == h.push(d));
            assert(r.subrange(0, have.len() as int) =~= h.subrange(0, have.len() as int));
            assert forall|a: int, b: int| 0 <= a < b < r.len() implies !same_dep_key(#[trigger] r[a], #[trigger] r[b]) by {
                if b == h.len() {
                    assert(r[a] == h[a]);
                }
            }
        }
        assert forall|k: int| 0 <= k < ds.len() implies exists|j: int|
            0 <= j < r.len() && same_dep_key(#[trigger] r[j], #[trigger] ds[k]) by {
            if k < ds.len() - 1 {
                assert(ds.drop_last()[k] == ds[k]);
                let j = choose|j: int| 0 <= j < h.len() && same_dep_key(#[trigger] h[j], ds.drop_last()[k]);
                assert(r[j] == h[j]);
            } else if exists|j: int| 0 <= j < h.len() && same_dep_key(#[trigger] h[j], d) {
                let j = choose|j: int| 0 <= j < h.len() && same_dep_key(#[trigger] h[j], d);
                assert(r[j] == h[j]);
            } else {
                assert(same_dep_key(r[h.len() as int], ds[k]));
            }
        }
    }
}

/// Recording the outbound messages a simulation found keeps each once: the
/// list keeps what it had, gains no duplicate, and holds every message found.
pub proof fn law_recorded_messages_unique(have: Seq<CrossRollupMessageView>, ms: Seq<CrossRollupMessageView>)
    requires
        have.no_duplicates(),
    ensures
        add_messages(have, ms).no_duplicates(),
        add_messages(have, ms).len() >= have.len(),
        add_messages(have, ms).subrange(0, have.len() as int) == have,
        forall|k: int| 0 <= k < ms.len() ==> add_messages(have, ms).contains(#[trigger] ms[k]),
    decreases ms.len(),
{
    if ms.len() == 0 {
        assert(have.subrange(0, have.len() as int) =~= have);
    } else {
        law_recorded_messages_unique(have, ms.drop_last());
        let h = add_messages(have, ms.drop_last());
        let r = add_messages(have, ms);
        if !h.contains(ms.last()) {
            assert(r == h.push(ms.last()));
            assert(r.subrange(0, have.len() as int) =~= h.subrange(0, have.len() as int));
            assert(r[h.len() as int] == ms.last());
        }
        assert forall|k: int| 0 <= k < ms.len() implies r.contains(#[trigger] ms[k]) by {
            if k < ms.len() - 1 {
                assert(ms.drop_last()[k] == ms[k]);
                assert(h.contains(ms.drop_last()[k]));
                let j = choose|j: int| 0 <= j < h.len() && h[j] == ms[k];
                assert(r[j] == h[j]);
            } else if !h.contains(ms.last()) {
                assert(r[h.len() as int] == ms[k]);
            }
        }
    }
}

pub(crate) proof fn lemma_dispatch(x: PendingXtView, ms: Seq<CrossRollupMessageView>)
    ensures
        ({
            let (y, out) = dispatch_all(x, ms);
            &&& y == PendingXtView { sent_mailbox: x.sent_mailbox + out, ..x }
            &&& forall|i: int| 0 <= i < out.len() ==> !x.sent_mailbox.contains(#[trigger] out[i])
            &&& x.sent_mailbox.no_duplicates() ==> y.sent_mailbox.no_duplicates()
            &&& forall|i: int| 0 <= i < ms.len() ==> y.sent_mailbox.contains(to_mailbox_message(x.instance_id, #[trigger] ms[i]))
        }),
    decreases ms.len(),
{
    if ms.len() > 0 {
        lemma_dispatch(x, ms.drop_last());
        let (x1, out1) = dispatch_all(x, ms.drop_last());
        let mm = to_mailbox_message(x1.instance_id, ms.last());
        let (y, out) = dispatch_all(x, ms);
        if x1.sent_mailbox.contains(mm) {
            assert forall|i: int| 0 <= i < ms.len() implies y.sent_mailbox.contains(to_mailbox_message(x.instance_id, #[trigger] ms[i])) by {
                if i < ms.len() - 1 {
                    assert(ms.drop_last()[i] == ms[i]);
                }
            }
        } else {
            assert(x1.sent_mailbox.push(mm) =~= x.sent_mailbox + out1.push(mm));
            assert(out == out1.push(mm));
            assert forall|i: int| 0 <= i < out.len() implies !x.sent_mailbox.contains(#[trigger] out[i]) by {
                if i == out1.len() {
                    if x.sent_mailbox.contains(mm) {
                        let j = choose|j: int| 0 <= j < x.sent_mailbox.len() && x.sent_mailbox[j] == mm;
                        assert(x1.sent_mailbox[j] == mm);
                    }
                } else {
                    assert(out[i] == out1[i]);
                }
            }
            assert forall|i: int| 0 <= i < ms.len() implies y.sent_mailbox.contains(to_mailbox_message(x.instance_id, #[trigger] ms[i])) by {
                if i < ms.len() - 1 {
                    assert(ms.drop_last()[i] == ms[i]);
                    let m = to_mailbox_message(x.instance_id, ms[i]);
                    let j = choose|j: int| 0 <= j < x1.sent_mailbox.len() && x1.sent_mailbox[j] == m;
                    assert(y.sent_mailbox[j] == m);
                } else {
                    assert(y.sent_mailbox[x1.sent_mailbox.len() as int] == mm);
                }
            }
        }
    } else {
        assert(x.sent_mailbox + Seq::<MailboxMessageView>::empty() =~= x.sent_mailbox);
    }
}

proof fn lemma_dispatch_sent_already(x: PendingXtView, ms: Seq<CrossRollupMessageView>)
    requires
        forall|i: int| 0 <= i < ms.len() ==> x.sent_mailbox.contains(to_mailbox_message(x.instance_id, #[trigger] ms[i])),
    ensures
        dispatch_all(x, ms) == (x, Seq::<MailboxMessageView>::empty()),
    decreases ms.len(),
{
    if ms.len() > 0 {
        assert forall|i: int| 0 <= i < ms.drop_last().len() implies x.sent_mailbox.contains(
            to_mailbox_message(x.instance_id, #[trigger] ms.drop_last()[i]),
        ) by {
            assert(ms.drop_last()[i] == ms[i]);
        }
        lemma_dispatch_sent_already(x, ms.drop_last());
        assert(x.sent_mailbox.contains(to_mailbox_message(x.instance_id, ms[ms.len() - 1])));
    }
}

/// Outbound messages are never sent twice: what a dispatch sends was not
/// sent before, the record of sent messages grows by exactly what it sends
/// and keeps no duplicate, and dispatching the same messages again sends
/// nothing.
pub proof fn law_dispatch_never_resends(x: PendingXtView, ms: Seq<CrossRollupMessageView>)
    requires
        x.sent_mailbox.no_duplicates(),
    ensures
        ({
            let (y, out) = dispatch_all(x, ms);
            &&& y.sent_mailbox == x.sent_mailbox + out
            &&& y.sent_mailbox.no_duplicates()
            &&& forall|i: int| 0 <= i < out.len() ==> !x.sent_mailbox.contains(#[trigger] out[i])
            &&& dispatch_all(y, ms).1.len() == 0
            &&& dispatch_all(y, ms).0 == y
        }),
{
    lemma_dispatch(x, ms);
    let (y, out) = dispatch_all(x, ms);
    lemma_dispatch_sent_already(y, ms);
}

// ---------------------------------------------------------------------------
// State-override merging
// ---------------------------------------------------------------------------

/// Merging two override documents keeps every account of both; an account
/// that only the second has, or that is not merged field by field, comes
/// from the second; an account only the first has stays as it was.
pub proof fn law_merge_other_takes_precedence(
    base: Map<Seq<char>, AccountOverrideView>,
    other: Map<Seq<char>, AccountOverrideView>,
    k: Seq<char>,
)
    ensures
        merge_overrides(base, other).dom() == base.dom().union(other.dom()),
        other.dom().contains(k) && !(base.dom().contains(k) && base[k] is Fields && other[k] is Fields)
            ==> merge_overrides(base, other)[k] == other[k],
        base.dom().contains(k) && !other.dom().contains(k) ==> merge_overrides(base, other)[k] == base[k],
{
    assert(merge_overrides(base, other).dom() =~= base.dom().union(other.dom()));
}

/// Merging with an empty document, on either side, gives the other document.
pub proof fn law_merge_with_empty(m: Map<Seq<char>, AccountOverrideView>)
    ensures
        merge_overrides(m, Map::empty()) == m,
        merge_overrides(Map::empty(), m) == m,
{
    assert(merge_overrides(m, Map::empty()) =~= m);
    assert(merge_overrides(Map::empty(), m) =~= m);
}

/// The fields of a newer account override that merge the same way twice:
/// not both `state` and `stateDiff`, and a `stateDiff` that is an object of
/// strings.
pub open spec fn mergeable_fields(f: Map<Seq<char>, FieldValueView>) -> bool {
    &&& !(f.dom().contains(state_key()) && f.dom().contains(state_diff_key()))
    &&& f.dom().contains(state_diff_key()) ==> (f[state_diff_key()] matches FieldValueView::Object(m) && forall|s: Seq<char>|
        #[trigger] m.dom().contains(s) ==> m[s] is Hex)
}

/// Every account override in the document that is an object has mergeable fields.
pub open spec fn mergeable_document(o: Map<Seq<char>, AccountOverrideView>) -> bool {
    forall|k: Seq<char>| #[trigger] o.dom().contains(k) ==> (o[k] matches AccountOverrideView::Fields(f) ==> mergeable_fields(f))
}

proof fn lemma_hex_slots_of_object(m: Map<Seq<char>, Seq<char>>)
    ensures
        hex_slots(slots_object(m)) == m,
{
    assert(hex_slots(slots_object(m)) =~= m);
}

proof fn lemma_object_of_hex_slots(m: Map<Seq<char>, SlotValueView>)
    requires
        forall|s: Seq<char>| #[trigger] m.dom().contains(s) ==> m[s] is Hex,
    ensures
        slots_object(hex_slots(FieldValueView::Object(m))) == FieldValueView::Object(m),
{
    let h = hex_slots(FieldValueView::Object(m));
    assert(h.map_values(|t: Seq<char>| SlotValueView::Hex(t)) =~= m);
}

proof fn lemma_union_again<K, V>(a: Map<K, V>, b: Map<K, V>)
    ensures
        a.union_prefer_right(b).union_prefer_right(b) == a.union_prefer_right(b),
{
    assert(a.union_prefer_right(b).union_prefer_right(b) =~= a.union_prefer_right(b));
}

proof fn lemma_merge_fields_twice(e: Map<Seq<char>, FieldValueView>, n: Map<Seq<char>, FieldValueView>)
    requires
        mergeable_fields(n),
    ensures
        merge_fields(merge_fields(e, n), n) == merge_fields(e, n),
{
    let sk = state_key();
    let dk = state_diff_key();
    assert(sk != dk) by {
        reveal_strlit("state");
        reveal_strlit("stateDiff");
        assert(sk.len() != dk.len());
    }
    let rest = n.remove(sk).remove(dk);
    let r = merge_fields(e, n);
    assert(!rest.dom().contains(sk) && !rest.dom().contains(dk));
    if n.dom().contains(sk) {
        let e1 = e.insert(sk, n[sk]).remove(dk);
        assert(r == e1.union_prefer_right(rest));
        assert(r.insert(sk, n[sk]).remove(dk) =~= r);
        lemma_union_again(e1, rest);
    } else if n.dom().contains(dk) {
        let ov = hex_slots(n[dk]);
        if e.dom().contains(sk) {
            let e2 = e.insert(sk, slots_object(hex_slots(e[sk]).union_prefer_right(ov))).remove(dk);
            assert(r == e2.union_prefer_right(rest));
            assert(r[sk] == slots_object(hex_slots(e[sk]).union_prefer_right(ov)));
            lemma_hex_slots_of_object(hex_slots(e[sk]).union_prefer_right(ov));
            lemma_union_again(hex_slots(e[sk]), ov);
            assert(r.insert(sk, slots_object(hex_slots(r[sk]).union_prefer_right(ov))).remove(dk) =~= r);
            lemma_union_again(e2, rest);
        } else {
            let e2 = e.insert(dk, slots_object(hex_slots_of(e, dk).union_prefer_right(ov)));
            assert(r == e2.union_prefer_right(rest));
            assert(!r.dom().contains(sk));
            assert(r[dk] == slots_object(hex_slots_of(e, dk).union_prefer_right(ov)));
            lemma_hex_slots_of_object(hex_slots_of(e, dk).union_prefer_right(ov));
            lemma_union_again(hex_slots_of(e, dk), ov);
            assert(hex_slots_of(r, dk) == hex_slots_of(e, dk).union_prefer_right(ov));
            assert(r.insert(dk, slots_object(hex_slots_of(r, dk).union_prefer_right(ov))) =~= r);
            lemma_union_again(e2, rest);
        }
    } else {
        assert(r == e.union_prefer_right(rest));
        lemma_union_again(e, rest);
    }
}

proof fn lemma_merge_fields_self(n: Map<Seq<char>, FieldValueView>)
    requires
        mergeable_fields(n),
    ensures
        merge_fields(n, n) == n,
{
    let sk = state_key();
    let dk = state_diff_key();
    let rest = n.remove(sk).remove(dk);
    if n.dom().contains(sk) {
        assert(!n.dom().contains(dk));
        assert(n.insert(sk, n[sk]).remove(dk) =~= n);
        assert(n.union_prefer_right(rest) =~= n);
    } else if n.dom().contains(dk) {
        let m = n[dk]->Object_0;
        lemma_object_of_hex_slots(m);
        let ov = hex_slots(n[dk]);
        assert(hex_slots_of(n, dk) == ov);
        lemma_union_again(Map::<Seq<char>, Seq<char>>::empty(), ov);
        assert(ov.union_prefer_right(ov) =~= ov);
        assert(n.insert(dk, slots_object(ov.union_prefer_right(ov))) =~= n);
        assert(n.union_prefer_right(rest) =~= n);
    } else {
        assert(n.union_prefer_right(rest) =~= n);
    }
}

/// Merging the same override document a second time changes nothing, when
/// each of its account objects holds at most one of `state` and `stateDiff`
/// and any `stateDiff` is an object of strings.
pub proof fn law_merge_twice_changes_nothing(
    base: Map<Seq<char>, AccountOverrideView>,
    other: Map<Seq<char>, AccountOverrideView>,
)
    requires
        mergeable_document(other),
    ensures
        merge_overrides(merge_overrides(base, other), other) == merge_overrides(base, other),
{
    let once = merge_overrides(base, other);
    let twice = merge_overrides(once, other);
    assert forall|k: Seq<char>| #[trigger] twice.dom().contains(k) implies twice[k] == once[k] by {
        if other.dom().contains(k) {
            assert(once.dom().contains(k));
            match other[k] {
                AccountOverrideView::Fields(n) => {
                    if base.dom().contains(k) {
                        match base[k] {
                            AccountOverrideView::Fields(e) => {
                                lemma_merge_fields_twice(e, n);
                            },
                            _ => {
                                lemma_merge_fields_self(n);
                            },
                        }
                    } else {
                        lemma_merge_fields_self(n);
                    }
                },
                _ => {},
            }
        }
    }
    assert(twice =~= once);
}

// ---------------------------------------------------------------------------
// Configuration layering
// ---------------------------------------------------------------------------

/// The last environment variable that names a field sets it, over the file
/// and the default, as the `config` crate reads its value.
pub proof fn law_env_last_wins(
    env: Seq<(Seq<char>, Seq<char>)>,
    name: Seq<char>,
    value: Seq<char>,
    k: EnvKey,
    file: Option<Seq<char>>,
    default: Seq<char>,
)
    requires
        name_matches(name, env_key_name(k)),
    ensures
        env_value(env.push((name, value)), k) == Some(value),
        layered_str(env.push((name, value)), k, file, default) == crate::loader::config_env_string(value),
{
    assert(env.push((name, value)).last() == (name, value));
}

/// Without a file and without environment variables the configuration is
/// the default one.
pub proof fn law_defaults_without_sources(cfg: SidecarConfig)
    requires
        config_built(cfg, empty_layer(), Seq::empty()),
    ensures
        cfg.is_default(),
{
    assert(cfg.server.listen_addr@ == crate::config::spec_default_listen_addr());
}

// ---------------------------------------------------------------------------
// What the mailbox and delivery operations compute
// ---------------------------------------------------------------------------

/// The key under which the mailbox contract files a dependency's message is
/// the Keccak-256 hash of, in this order: the source chain (a 32-byte word),
/// the destination chain (a word), the 20-byte sender, the 20-byte receiver,
/// the 32-byte session word, and the label. Without a session there is no key.
pub proof fn law_mailbox_key_layout(chain_id: u64, d: CrossRollupDependencyView)
    requires
        d.sender.len() == 20,
        d.receiver.len() == 20,
        d.session_id matches Some(s) ==> s.len() == 32,
    ensures
        d.session_id is None ==> mailbox_key_of(chain_id, d) is None,
        d.session_id matches Some(s) ==> exists|pre: Seq<u8>| {
            &&& mailbox_key_of(chain_id, d) == Some(keccak256_digest(pre))
            &&& pre.len() == 136 + d.label.len()
            &&& pre.subrange(0, 32) == word_bytes(d.source_chain_id.0 as nat)
            &&& pre.subrange(32, 64) == word_bytes(chain_id as nat)
            &&& pre.subrange(64, 84) == d.sender
            &&& pre.subrange(84, 104) == d.receiver
            &&& pre.subrange(104, 136) == s
            &&& pre.subrange(136, pre.len() as int) == d.label
        },
{
    if let Some(s) = d.session_id {
        let pre = word_bytes(d.source_chain_id.0 as nat) + word_bytes(chain_id as nat) + d.sender + d.receiver + s + d.label;
        assert(pre.subrange(0, 32) =~= word_bytes(d.source_chain_id.0 as nat));
        assert(pre.subrange(32, 64) =~= word_bytes(chain_id as nat));
        assert(pre.subrange(64, 84) =~= d.sender);
        assert(pre.subrange(84, 104) =~= d.receiver);
        assert(pre.subrange(104, 136) =~= s);
        assert(pre.subrange(136, pre.len() as int) =~= d.label);
        assert(mailbox_key_of(chain_id, d) == Some(keccak256_digest(pre)));
    }
}

/// The mailbox message `m` carries what dependency `d` waits for: it travels
/// from `d`'s source chain to its destination chain, from its sender to its
/// receiver, under its label (as UTF-8 bytes) and in its session (read as a
/// `u64`).
pub open spec fn carries(m: MailboxMessageView, d: CrossRollupDependencyView) -> bool {
    &&& m.source_chain == d.source_chain_id.0
    &&& m.destination_chain == d.dest_chain_id.0
    &&& m.source == d.sender
    &&& m.receiver == d.receiver
    &&& encode_utf8(m.label) == d.label
    &&& m.session_id == session_u64(d.session_id)
}

/// A dependency is fulfilled only by a message that carries exactly what it
/// waits for, and then with that message's first data item; the message
/// leaves the mailbox. When no dependency with its key is fulfilled yet and
/// a message carries what it waits for, it is fulfilled.
pub proof fn law_fulfilled_only_by_carrying_message(x: PendingXtView, d: CrossRollupDependencyView)
    ensures
        ({
            let (y, n) = fulfill_one(x, d);
            &&& n == 1 ==> exists|i: int|
                0 <= i < x.pending_mailbox.len() && carries(#[trigger] x.pending_mailbox[i], d)
                    && y.pending_mailbox == x.pending_mailbox.remove(i)
                    && y.fulfilled_deps == x.fulfilled_deps.push(CrossRollupDependencyView {
                        data: if x.pending_mailbox[i].data.len() > 0 { Some(x.pending_mailbox[i].data[0]) } else { None },
                        ..d
                    })
            &&& n == 0 && !(exists|j: int| 0 <= j < x.fulfilled_deps.len() && same_dep_key(#[trigger] x.fulfilled_deps[j], d))
                ==> forall|i: int| 0 <= i < x.pending_mailbox.len() ==> !carries(#[trigger] x.pending_mailbox[i], d)
        }),
{
    lemma_first_match_range(x.pending_mailbox, d);
    lemma_first_match_none(x.pending_mailbox, d);
    let (y, n) = fulfill_one(x, d);
    if n == 1 {
        let i = first_match(x.pending_mailbox, d);
        lemma_first_match_found(x.pending_mailbox, d);
        assert(carries(x.pending_mailbox[i], d));
    } else if !(exists|j: int| 0 <= j < x.fulfilled_deps.len() && same_dep_key(#[trigger] x.fulfilled_deps[j], d)) {
        assert forall|i: int| 0 <= i < x.pending_mailbox.len() implies !carries(#[trigger] x.pending_mailbox[i], d) by {
            assert(!matches_dependency(x.pending_mailbox[i], d));
        }
    }
}

proof fn lemma_first_match_found(b: Seq<MailboxMessageView>, d: CrossRollupDependencyView)
    ensures
        first_match(b, d) >= 0 ==> matches_dependency(b[first_match(b, d)], d),
    decreases b.len(),
{
    if b.len() > 0 {
        lemma_first_match_found(b.drop_last(), d);
        lemma_first_match_range(b.drop_last(), d);
        if first_match(b.drop_last(), d) >= 0 {
            assert(b.drop_last()[first_match(b.drop_last(), d)] == b[first_match(b.drop_last(), d)]);
        }
    }
}

/// The mailbox message an outbound message is sent as: the instance's id,
/// the message's source and destination chains, its sender as source and its
/// receiver as receiver, its label, its data as the one data item, and its
/// session read as a `u64`.
pub open spec fn sent_as(id: Seq<u8>, m: CrossRollupMessageView, mm: MailboxMessageView) -> bool {
    &&& mm.instance_id == id
    &&& mm.source_chain == m.source_chain_id.0
    &&& mm.destination_chain == m.dest_chain_id.0
    &&& mm.source == m.sender
    &&& mm.receiver == m.receiver
    &&& mm.label == m.label
    &&& mm.data == seq![m.data]
    &&& mm.session_id == session_u64(m.session_id)
}

/// Every mailbox message a dispatch sends is one of the outbound messages,
/// sent with its sender as source and its receiver as receiver, and every
/// outbound message is sent or was sent before.
pub proof fn law_dispatch_sends_each_message_as_is(x: PendingXtView, ms: Seq<CrossRollupMessageView>)
    ensures
        ({
            let (y, out) = dispatch_all(x, ms);
            &&& forall|i: int| #![trigger out[i]] 0 <= i < out.len() ==> exists|j: int| #![trigger ms[j]] 0 <= j < ms.len() && sent_as(x.instance_id, ms[j], out[i])
            &&& forall|j: int| #![trigger ms[j]] 0 <= j < ms.len() ==> exists|i: int| #![trigger y.sent_mailbox[i]]
                0 <= i < y.sent_mailbox.len() && sent_as(x.instance_id, ms[j], y.sent_mailbox[i])
        }),
    decreases ms.len(),
{
    lemma_dispatch(x, ms);
    let (y, out) = dispatch_all(x, ms);
    if ms.len() > 0 {
        law_dispatch_sends_each_message_as_is(x, ms.drop_last());
        lemma_dispatch(x, ms.drop_last());
        let (x1, out1) = dispatch_all(x, ms.drop_last());
        let mm = to_mailbox_message(x1.instance_id, ms.last());
        assert(sent_as(x.instance_id, ms[ms.len() - 1], mm));
        assert forall|i: int| #![trigger out[i]] 0 <= i < out.len() implies exists|j: int| #![trigger ms[j]] 0 <= j < ms.len() && sent_as(x.instance_id, ms[j], out[i]) by {
            if i < out1.len() {
                assert(out[i] == out1[i]);
                let j = choose|j: int| #![trigger ms.drop_last()[j]] 0 <= j < ms.drop_last().len() && sent_as(x.instance_id, ms.drop_last()[j], out1[i]);
                assert(ms.drop_last()[j] == ms[j]);
                assert(sent_as(x.instance_id, ms[j], out[i]));
            } else {
                assert(out[i] == mm);
                assert(sent_as(x.instance_id, ms[ms.len() - 1], out[i]));
                assert(ms[ms.len() - 1] == ms.last());
            }
        }
        assert forall|j: int| #![trigger ms[j]] 0 <= j < ms.len() implies exists|i: int| #![trigger y.sent_mailbox[i]]
            0 <= i < y.sent_mailbox.len() && sent_as(x.instance_id, ms[j], y.sent_mailbox[i]) by {
            if j < ms.len() - 1 {
                assert(ms.drop_last()[j] == ms[j]);
                assert(ms.drop_last()[j] == ms[j]);
                let i = choose|i: int| #![trigger x1.sent_mailbox[i]] 0 <= i < x1.sent_mailbox.len() && sent_as(x.instance_id, ms.drop_last()[j], x1.sent_mailbox[i]);
                assert(y.sent_mailbox[i] == x1.sent_mailbox[i]);
                assert(sent_as(x.instance_id, ms[j], y.sent_mailbox[i]));
            } else {
                assert(y.sent_mailbox.contains(mm));
                let i = choose|i: int| 0 <= i < y.sent_mailbox.len() && y.sent_mailbox[i] == mm;
                assert(sent_as(x.instance_id, ms[j], y.sent_mailbox[i]));
            }
        }
    }
}

/// The dependencies handed out with an instance's transactions for chain `c`
/// are exactly its fulfilled dependencies whose destination is `c`, in their order.
pub proof fn law_delivered_deps_are_those_for_the_chain(deps: Seq<CrossRollupDependencyView>, c: u64)
    ensures
        forall|d: CrossRollupDependencyView| #[trigger] deps_for(deps, c).contains(d) <==> (deps.contains(d)
            && d.dest_chain_id.0 == c),
        forall|i: int| 0 <= i < deps_for(deps, c).len() ==> (#[trigger] deps_for(deps, c)[i]).dest_chain_id.0 == c,
        deps_for(deps, c).len() <= deps.len(),
{
    let pred = |d: CrossRollupDependencyView| d.dest_chain_id.0 == c;
    assert(deps_for(deps, c) == deps.filter(pred));
    #[allow(deprecated)]
    deps.filter_lemma(pred);
    assert forall|d: CrossRollupDependencyView| #[trigger] deps_for(deps, c).contains(d) <==> (deps.contains(d)
        && d.dest_chain_id.0 == c) by {
        if deps_for(deps, c).contains(d) {
            deps.lemma_filter_contains_rev(pred, d);
            let i = choose|i: int| 0 <= i < deps.filter(pred).len() && deps.filter(pred)[i] == d;
            assert(pred(deps.filter(pred)[i]));
        }
        if deps.contains(d) && d.dest_chain_id.0 == c {
            let i = choose|i: int| 0 <= i < deps.len() && deps[i] == d;
            assert(deps.filter(pred).contains(deps[i]));
        }
    }
}

/// Each entry of a delivery to chain `c` carries exactly the fulfilled
/// dependencies of its instance whose destination is `c`.
pub proof fn law_delivery_carries_dependencies_for_the_chain(
    p: Map<Seq<char>, PendingXtView>,
    ks: Seq<Seq<char>>,
    c: u64,
    ds: Seq<DeliverableXt>,
    a: int,
)
    requires
        is_delivery(p, ks, c, ds),
        0 <= a < ds.len(),
    ensures
        forall|d: CrossRollupDependencyView| #[trigger] ds[a].deps.deep_view().contains(d) <==> (
        p[ds[a].id@].fulfilled_deps.contains(d) && d.dest_chain_id.0 == c),
{
    let k = ds[a].id@;
    assert(ds[a].deps.deep_view() == deps_for(p[k].fulfilled_deps, c));
    law_delivered_deps_are_those_for_the_chain(p[k].fulfilled_deps, c);
}

/// A numeric or boolean field whose last environment variable the `config`
/// crate reads as a value takes that value, whatever the file sets; without
/// such a variable it takes the file's value when the file sets one.
pub proof fn law_env_sets_numbers_and_flags(
    cfg: SidecarConfig,
    f: ConfigLayer,
    env: Seq<(Seq<char>, Seq<char>)>,
    v: Seq<char>,
)
    requires
        config_built(cfg, f, env),
    ensures
        env_value(env, EnvKey::ServerReadTimeout) == Some(v) && config_env_u64(v) is Some ==> cfg.server.read_timeout_secs
            == config_env_u64(v).unwrap(),
        env_value(env, EnvKey::ServerWriteTimeout) == Some(v) && config_env_u64(v) is Some ==> cfg.server.write_timeout_secs
            == config_env_u64(v).unwrap(),
        env_value(env, EnvKey::PublisherReconnectDelay) == Some(v) && config_env_u64(v) is Some
            ==> cfg.publisher.reconnect_delay_secs == config_env_u64(v).unwrap(),
        env_value(env, EnvKey::PublisherMaxRetries) == Some(v) && config_env_u32(v) is Some ==> cfg.publisher.max_retries
            == config_env_u32(v).unwrap(),
        env_value(env, EnvKey::PublisherEnabled) == Some(v) && config_env_bool(v) is Some ==> cfg.publisher.enabled
            == config_env_bool(v).unwrap(),
        env_value(env, EnvKey::ServerReadTimeout) is None && f.server.read_timeout_secs is Some
            ==> cfg.server.read_timeout_secs == f.server.read_timeout_secs.unwrap(),
        env_value(env, EnvKey::ServerWriteTimeout) is None && f.server.write_timeout_secs is Some
            ==> cfg.server.write_timeout_secs == f.server.write_timeout_secs.unwrap(),
        env_value(env, EnvKey::PublisherReconnectDelay) is None && f.publisher.reconnect_delay_secs is Some
            ==> cfg.publisher.reconnect_delay_secs == f.publisher.reconnect_delay_secs.unwrap(),
        env_value(env, EnvKey::PublisherMaxRetries) is None && f.publisher.max_retries is Some
            ==> cfg.publisher.max_retries == f.publisher.max_retries.unwrap(),
        env_value(env, EnvKey::PublisherEnabled) is None && f.publisher.enabled is Some ==> cfg.publisher.enabled
            == f.publisher.enabled.unwrap(),
{
}

} // verus!
