//! The simulation pipeline of an instance: what to simulate, how simulation
//! results are recorded, how mailbox messages fulfil dependencies, and which
//! outbound mailbox messages still have to be sent.

use vstd::prelude::*;
use vstd::utf8::encode_utf8;

use crate::assoc::{DeepClone, MapKey};
use crate::coordinator::{marks_kept, same_besides_pending, DefaultCoordinator};
use crate::overrides::{AccountOverrideView, StateOverrides};
use crate::pending_xt::{PendingXt, PendingXtView};
use crate::primitives::{
    bytes_eq, ChainId, CrossRollupDependency, CrossRollupDependencyView, CrossRollupMessage,
    CrossRollupMessageView, MailboxMessage, MailboxMessageView, SimulationResult, Word,
};

verus! {

/// Maximum number of simulation attempts per transaction.
pub const MAX_RESIMULATIONS: usize = 3;

/// Interval between checks of the mailbox while waiting for dependencies, in milliseconds.
pub const MAILBOX_POLL_INTERVAL_MS: u64 = 50;

/// Big-endian value of a byte string.
pub open spec fn be_value(s: Seq<u8>) -> nat
    decreases s.len(),
{
    if s.len() == 0 {
        0
    } else {
        be_value(s.drop_last()) * 256 + (s.last() as nat)
    }
}

/// A 256-bit word as a `u64`, when it fits.
pub open spec fn word_u64(w: Seq<u8>) -> Option<u64> {
    if be_value(w) <= u64::MAX {
        Some(be_value(w) as u64)
    } else {
        None
    }
}

/// The session id a mailbox message carries for an optional 256-bit session:
/// the value when it fits in 64 bits, else 0.
pub open spec fn session_u64(s: Option<Seq<u8>>) -> u64 {
    match s {
        Some(w) => match word_u64(w) {
            Some(v) => v,
            None => 0,
        },
        None => 0,
    }
}

/// `256` to the power `n`.
pub open spec fn pow256(n: nat) -> nat
    decreases n,
{
    if n == 0 {
        1
    } else {
        256 * pow256((n - 1) as nat)
    }
}

proof fn lemma_pow256_8()
    ensures
        pow256(8) == 0x1_0000_0000_0000_0000,
{
    reveal_with_fuel(pow256, 9);
}

proof fn lemma_pow256_pos(n: nat)
    ensures
        pow256(n) >= 1,
    decreases n,
{
    if n > 0 {
        lemma_pow256_pos((n - 1) as nat);
    }
}

proof fn lemma_pow256_mono(a: nat, b: nat)
    requires
        a <= b,
    ensures
        1 <= pow256(a) <= pow256(b),
    decreases b - a,
{
    lemma_pow256_pos(a);
    if a < b {
        lemma_pow256_mono(a, (b - 1) as nat);
    }
}

proof fn lemma_be_value_bound(s: Seq<u8>)
    ensures
        be_value(s) < pow256(s.len()),
    decreases s.len(),
{
    if s.len() > 0 {
        lemma_be_value_bound(s.drop_last());
        let a = be_value(s.drop_last());
        let b = pow256((s.len() - 1) as nat);
        assert(a * 256 + s.last() < b * 256) by (nonlinear_arith)
            requires
                a < b,
                s.last() < 256,
        ;
    }
}

proof fn lemma_be_value_zero_prefix(s: Seq<u8>, k: int)
    requires
        0 <= k <= s.len(),
        forall|i: int| 0 <= i < k ==> s[i] == 0,
    ensures
        be_value(s) == be_value(s.subrange(k, s.len() as int)),
    decreases s.len(),
{
    if s.len() > k {
        lemma_be_value_zero_prefix(s.drop_last(), k);
        assert(s.drop_last().subrange(k, s.len() - 1) =~= s.subrange(k, s.len() as int).drop_last());
    } else {
        assert(s.subrange(k, s.len() as int) =~= Seq::<u8>::empty());
        lemma_all_zero(s);
    }
}

proof fn lemma_all_zero(s: Seq<u8>)
    requires
        forall|i: int| 0 <= i < s.len() ==> s[i] == 0,
    ensures
        be_value(s) == 0,
    decreases s.len(),
{
    if s.len() > 0 {
        lemma_all_zero(s.drop_last());
    }
}

proof fn lemma_be_value_tail_large(s: Seq<u8>, i: int)
    requires
        0 <= i < s.len(),
        s[i] != 0,
    ensures
        be_value(s) >= pow256((s.len() - 1 - i) as nat),
    decreases s.len(),
{
    if i < s.len() - 1 {
        lemma_be_value_tail_large(s.drop_last(), i);
    }
}

/// `u64::try_from` of a 256-bit big-endian word.
pub fn word_to_u64(w: &Word) -> (r: Option<u64>)
    ensures
        r == word_u64(w@),
{
    let mut i: usize = 0;
    while i < 24
        invariant
            i <= 24,
            w@.len() == 32,
            forall|j: int| 0 <= j < i ==> w@[j] == 0,
        decreases 24 - i,
    {
        if w[i] != 0 {
            proof {
                lemma_be_value_tail_large(w@, i as int);
                lemma_pow256_mono(8, (31 - i) as nat);
                lemma_pow256_8();
            }
            return None;
        }
        i = i + 1;
    }
    let mut v: u64 = 0;
    let mut j: usize = 24;
    while j < 32
        invariant
            24 <= j <= 32,
            w@.len() == 32,
            forall|k: int| 0 <= k < 24 ==> w@[k] == 0,
            v == be_value(w@.subrange(24, j as int)),
            be_value(w@.subrange(24, j as int)) < pow256((j - 24) as nat),
        decreases 32 - j,
    {
        proof {
            assert(w@.subrange(24, j as int + 1).drop_last() =~= w@.subrange(24, j as int));
            lemma_be_value_bound(w@.subrange(24, j as int + 1));
            lemma_pow256_mono((j - 23) as nat, 8);
            lemma_pow256_8();
        }
        v = v * 256 + w[j] as u64;
        j = j + 1;
    }
    proof {
        lemma_be_value_zero_prefix(w@, 24);
        assert(w@.subrange(24, 32) =~= w@.subrange(24, w@.len() as int));
    }
    Some(v)
}

/// The session id carried by a mailbox message for an optional 256-bit session.
pub fn session_id_u64(s: &Option<Word>) -> (r: u64)
    ensures
        r == session_u64(s.deep_view()),
{
    proof {
        if s.is_some() {
            assert(s.unwrap().deep_view() =~= s.unwrap()@);
        }
    }
    match s {
        Some(w) => match word_to_u64(w) {
            Some(v) => v,
            None => 0,
        },
        None => 0,
    }
}

/// Whether two addresses are equal.
pub fn address_eq(a: &[u8; 20], b: &[u8; 20]) -> (r: bool)
    ensures
        r == (a.deep_view() == b.deep_view()),
{
    assert(a.deep_view() =~= a@);
    assert(b.deep_view() =~= b@);
    let mut i: usize = 0;
    while i < 20
        invariant
            i <= 20,
            a@.len() == 20,
            b@.len() == 20,
            a.deep_view() == a@,
            b.deep_view() == b@,
            forall|j: int| 0 <= j < i ==> a@[j] == b@[j],
        decreases 20 - i,
    {
        if a[i] != b[i] {
            return false;
        }
        i = i + 1;
    }
    assert(a@ =~= b@);
    true
}

/// Whether two optional 256-bit words are equal.
pub fn opt_word_eq(a: &Option<Word>, b: &Option<Word>) -> (r: bool)
    ensures
        r == (a.deep_view() == b.deep_view()),
{
    match (a, b) {
        (Some(x), Some(y)) => {
            assert(x.deep_view() =~= x@);
            assert(y.deep_view() =~= y@);
            let mut i: usize = 0;
            while i < 32
                invariant
                    i <= 32,
                    x@.len() == 32,
                    y@.len() == 32,
                    x.deep_view() == x@,
                    y.deep_view() == y@,
                    *a == Some(*x),
                    *b == Some(*y),
                    forall|j: int| 0 <= j < i ==> x@[j] == y@[j],
                decreases 32 - i,
            {
                if x[i] != y[i] {
                    proof {
                        assert(x@[i as int] != y@[i as int]);
                        assert(x.deep_view() != y.deep_view());
                        assert(a.deep_view() == Some(x.deep_view()));
                        assert(b.deep_view() == Some(y.deep_view()));
                    }
                    return false;
                }
                i = i + 1;
            }
            assert(x@ =~= y@);
            true
        },
        (None, None) => true,
        _ => false,
    }
}

/// Two dependencies name the same mailbox slot: they agree on everything but the data.
pub open spec fn same_dep_key(a: CrossRollupDependencyView, b: CrossRollupDependencyView) -> bool {
    &&& a.source_chain_id == b.source_chain_id
    &&& a.dest_chain_id == b.dest_chain_id
    &&& a.sender == b.sender
    &&& a.receiver == b.receiver
    &&& a.label == b.label
    &&& a.session_id == b.session_id
}

pub fn dep_key_eq(a: &CrossRollupDependency, b: &CrossRollupDependency) -> (r: bool)
    ensures
        r == same_dep_key(a.deep_view(), b.deep_view()),
{
    proof {
        assert(a.label.deep_view() =~= a.label@);
        assert(b.label.deep_view() =~= b.label@);
    }
    a.source_chain_id == b.source_chain_id && a.dest_chain_id == b.dest_chain_id && address_eq(&a.sender, &b.sender)
        && address_eq(&a.receiver, &b.receiver) && bytes_eq(a.label.as_slice(), b.label.as_slice())
        && opt_word_eq(&a.session_id, &b.session_id)
}

pub fn cross_message_eq(a: &CrossRollupMessage, b: &CrossRollupMessage) -> (r: bool)
    ensures
        r == (a.deep_view() == b.deep_view()),
{
    proof {
        assert(a.data.deep_view() =~= a.data@);
        assert(b.data.deep_view() =~= b.data@);
    }
    a.source_chain_id == b.source_chain_id && a.dest_chain_id == b.dest_chain_id && address_eq(&a.sender, &b.sender)
        && address_eq(&a.receiver, &b.receiver) && a.label == b.label && bytes_eq(a.data.as_slice(), b.data.as_slice())
        && opt_word_eq(&a.session_id, &b.session_id)
}

/// Whether two mailbox messages are the same message.
pub fn same_mailbox_message(a: &MailboxMessage, b: &MailboxMessage) -> (r: bool)
    ensures
        r == (a.deep_view() == b.deep_view()),
{
    proof {
        assert(a.instance_id.deep_view() =~= a.instance_id@);
        assert(b.instance_id.deep_view() =~= b.instance_id@);
        assert(a.source.deep_view() =~= a.source@);
        assert(b.source.deep_view() =~= b.source@);
        assert(a.receiver.deep_view() =~= a.receiver@);
        assert(b.receiver.deep_view() =~= b.receiver@);
    }
    bytes_eq(a.instance_id.as_slice(), b.instance_id.as_slice()) && a.source_chain == b.source_chain
        && a.destination_chain == b.destination_chain && bytes_eq(a.source.as_slice(), b.source.as_slice())
        && bytes_eq(a.receiver.as_slice(), b.receiver.as_slice()) && a.label == b.label
        && crate::primitives::byte_lists_eq(&a.data, &b.data) && a.session_id == b.session_id
}

/// A mailbox message answers a dependency when it travels between the same
/// chains, from the same sender to the same receiver, under the same label
/// and session.
pub open spec fn matches_dependency(m: MailboxMessageView, d: CrossRollupDependencyView) -> bool {
    &&& m.source_chain == d.source_chain_id.0
    &&& m.destination_chain == d.dest_chain_id.0
    &&& m.source == d.sender
    &&& m.receiver == d.receiver
    &&& encode_utf8(m.label) == d.label
    &&& m.session_id == session_u64(d.session_id)
}

pub fn message_matches_dependency(m: &MailboxMessage, d: &CrossRollupDependency) -> (r: bool)
    ensures
        r == matches_dependency(m.deep_view(), d.deep_view()),
{
    proof {
        assert(m.source.deep_view() =~= m.source@);
        assert(m.receiver.deep_view() =~= m.receiver@);
        assert(d.sender.deep_view() =~= d.sender@);
        assert(d.receiver.deep_view() =~= d.receiver@);
        assert(d.label.deep_view() =~= d.label@);
    }
    m.source_chain == d.source_chain_id.0 && m.destination_chain == d.dest_chain_id.0
        && bytes_eq(m.source.as_slice(), &d.sender) && bytes_eq(m.receiver.as_slice(), &d.receiver)
        && bytes_eq(m.label.as_str().as_bytes(), d.label.as_slice()) && m.session_id == session_id_u64(&d.session_id)
}

/// Index of the first message in `b` that answers `d`, or -1.
pub open spec fn first_match(b: Seq<MailboxMessageView>, d: CrossRollupDependencyView) -> int
    decreases b.len(),
{
    if b.len() == 0 {
        -1
    } else if first_match(b.drop_last(), d) >= 0 {
        first_match(b.drop_last(), d)
    } else if matches_dependency(b.last(), d) {
        b.len() - 1
    } else {
        -1
    }
}

proof fn lemma_first_match(b: Seq<MailboxMessageView>, d: CrossRollupDependencyView, i: int)
    requires
        0 <= i <= b.len(),
        forall|j: int| 0 <= j < i ==> !matches_dependency(b[j], d),
    ensures
        i < b.len() && matches_dependency(b[i], d) ==> first_match(b, d) == i,
        i == b.len() ==> first_match(b, d) == -1,
    decreases b.len(),
{
    if b.len() > 0 {
        if i < b.len() {
            if i < b.len() - 1 {
                lemma_first_match(b.drop_last(), d, i);
            } else {
                lemma_first_match(b.drop_last(), d, i);
            }
        } else {
            lemma_first_match(b.drop_last(), d, i - 1);
        }
    }
}

/// The dependency with the data of the message that answered it.
pub open spec fn fulfilled_by(d: CrossRollupDependencyView, m: MailboxMessageView) -> CrossRollupDependencyView {
    CrossRollupDependencyView { data: if m.data.len() > 0 { Some(m.data[0]) } else { None }, ..d }
}

/// One dependency against the mailbox: unless a dependency with the same key
/// is already fulfilled, the first message that answers it leaves the mailbox
/// and the dependency, with that message's data, joins the fulfilled ones.
pub open spec fn fulfill_one(x: PendingXtView, d: CrossRollupDependencyView) -> (PendingXtView, nat) {
    if exists|j: int| 0 <= j < x.fulfilled_deps.len() && same_dep_key(#[trigger] x.fulfilled_deps[j], d) {
        (x, 0)
    } else {
        let i = first_match(x.pending_mailbox, d);
        if i < 0 {
            (x, 0)
        } else {
            (
                PendingXtView {
                    pending_mailbox: x.pending_mailbox.remove(i),
                    fulfilled_deps: x.fulfilled_deps.push(fulfilled_by(d, x.pending_mailbox[i])),
                    ..x
                },
                1,
            )
        }
    }
}

/// All dependencies against the mailbox, in order, and how many were fulfilled.
pub open spec fn fulfill_all(x: PendingXtView, ds: Seq<CrossRollupDependencyView>) -> (PendingXtView, nat)
    decreases ds.len(),
{
    if ds.len() == 0 {
        (x, 0)
    } else {
        let (x1, n1) = fulfill_all(x, ds.drop_last());
        let (x2, n2) = fulfill_one(x1, ds.last());
        (x2, n1 + n2)
    }
}

/// The mailbox message an outbound cross-chain message becomes.
pub open spec fn to_mailbox_message(instance_id: Seq<u8>, m: CrossRollupMessageView) -> MailboxMessageView {
    MailboxMessageView {
        instance_id,
        source_chain: m.source_chain_id.0,
        destination_chain: m.dest_chain_id.0,
        source: m.sender,
        receiver: m.receiver,
        label: m.label,
        data: seq![m.data],
        session_id: session_u64(m.session_id),
    }
}

/// Outbound messages against the record of sent mailbox messages, in order:
/// each not sent before is recorded and listed for sending.
pub open spec fn dispatch_all(x: PendingXtView, ms: Seq<CrossRollupMessageView>) -> (PendingXtView, Seq<MailboxMessageView>)
    decreases ms.len(),
{
    if ms.len() == 0 {
        (x, Seq::empty())
    } else {
        let (x1, out1) = dispatch_all(x, ms.drop_last());
        let mm = to_mailbox_message(x1.instance_id, ms.last());
        if x1.sent_mailbox.contains(mm) {
            (x1, out1)
        } else {
            (PendingXtView { sent_mailbox: x1.sent_mailbox.push(mm), ..x1 }, out1.push(mm))
        }
    }
}

/// Dependencies added to a list unless one with the same key is there.
pub open spec fn add_deps(have: Seq<CrossRollupDependencyView>, ds: Seq<CrossRollupDependencyView>) -> Seq<CrossRollupDependencyView>
    decreases ds.len(),
{
    if ds.len() == 0 {
        have
    } else {
        let h = add_deps(have, ds.drop_last());
        if exists|j: int| 0 <= j < h.len() && same_dep_key(#[trigger] h[j], ds.last()) {
            h
        } else {
            h.push(ds.last())
        }
    }
}

/// Messages added to a list unless already there.
pub open spec fn add_messages(have: Seq<CrossRollupMessageView>, ms: Seq<CrossRollupMessageView>) -> Seq<CrossRollupMessageView>
    decreases ms.len(),
{
    if ms.len() == 0 {
        have
    } else {
        let h = add_messages(have, ms.drop_last());
        if h.contains(ms.last()) {
            h
        } else {
            h.push(ms.last())
        }
    }
}

/// The instance after a simulation result was recorded for the local chain.
pub open spec fn after_simulation(
    x: PendingXtView,
    local_chain: u64,
    overrides: Map<Seq<char>, AccountOverrideView>,
    deps: Seq<CrossRollupDependencyView>,
    msgs: Seq<CrossRollupMessageView>,
) -> PendingXtView {
    PendingXtView {
        state_overrides: x.state_overrides.insert(local_chain, overrides),
        dependencies: add_deps(x.dependencies, deps),
        outbound_messages: add_messages(x.outbound_messages, msgs),
        ..x
    }
}

/// How processing of an instance begins.
#[derive(Debug)]
pub enum ProcessStart {
    /// The instance is not pending: stop.
    NotPending,
    /// No local transactions: vote "no".
    VoteNoLocalTransactions,
    /// No simulator: vote "yes" without simulating.
    VoteYesUnsimulated,
    /// Simulate these transactions, starting from these state overrides.
    Simulate { txs: Vec<Vec<u8>>, overrides: StateOverrides },
}

/// What a simulation result calls for.
#[derive(Debug)]
pub enum SimulationVerdict {
    /// The transaction failed for its own reasons: vote "no".
    Reject,
    /// The transaction succeeded: send its outbound messages and go on.
    Accept,
    /// The transaction waits for mailbox messages: wait, then simulate again.
    AwaitDependencies,
}

/// The verdict on a simulation result.
pub fn judge_simulation(result: &SimulationResult) -> (v: SimulationVerdict)
    ensures
        v is Accept <==> result.success,
        v is Reject <==> !result.success && result.dependencies@.len() == 0,
        v is AwaitDependencies <==> !result.success && result.dependencies@.len() > 0,
{
    if !result.success && result.dependencies.len() == 0 {
        SimulationVerdict::Reject
    } else if result.success {
        SimulationVerdict::Accept
    } else {
        SimulationVerdict::AwaitDependencies
    }
}

/// The bytes of an address as a vector.
pub fn address_bytes(a: &[u8; 20]) -> (v: Vec<u8>)
    ensures
        v.deep_view() == a.deep_view(),
{
    let mut v: Vec<u8> = Vec::new();
    let mut i: usize = 0;
    while i < 20
        invariant
            i <= 20,
            a@.len() == 20,
            v@ == a@.subrange(0, i as int),
        decreases 20 - i,
    {
        v.push(a[i]);
        proof {
            assert(v@ =~= a@.subrange(0, i as int + 1));
        }
        i = i + 1;
    }
    assert(v.deep_view() =~= a.deep_view());
    v
}

fn fulfill_into(xt: &mut PendingXt, deps: &Vec<CrossRollupDependency>) -> (n: usize)
    ensures
        (final(xt).deep_view(), n as nat) == fulfill_all(old(xt).deep_view(), deps.deep_view()),
{
    let ghost x0 = xt.deep_view();
    let mut added: usize = 0;
    let mut i: usize = 0;
    while i < deps.len()
        invariant
            i <= deps@.len(),
            added <= i,
            (xt.deep_view(), added as nat) == fulfill_all(x0, deps.deep_view().subrange(0, i as int)),
        decreases deps@.len() - i,
    {
        let d = &deps[i];
        let ghost xb = xt.deep_view();
        proof {
            let s1 = deps.deep_view().subrange(0, i as int + 1);
            assert(s1.drop_last() =~= deps.deep_view().subrange(0, i as int));
            assert(s1.last() == d.deep_view());
        }
        let mut already = false;
        let mut j: usize = 0;
        while j < xt.fulfilled_deps.len()
            invariant
                j <= xt.fulfilled_deps@.len(),
                xb == xt.deep_view(),
                !already ==> forall|q: int| 0 <= q < j ==> !same_dep_key(xb.fulfilled_deps[q], d.deep_view()),
                already ==> exists|q: int| 0 <= q < xb.fulfilled_deps.len() && same_dep_key(#[trigger] xb.fulfilled_deps[q], d.deep_view()),
            decreases xt.fulfilled_deps@.len() - j,
        {
            if !already && dep_key_eq(&xt.fulfilled_deps[j], d) {
                already = true;
                proof {
                    assert(xb.fulfilled_deps[j as int] == xt.fulfilled_deps[j as int].deep_view());
                }
            }
            j = j + 1;
        }
        if !already {
            let mut k: usize = 0;
            let mut hit = false;
            while k < xt.pending_mailbox.len()
                invariant_except_break
                    !hit,
                invariant
                    k <= xt.pending_mailbox@.len(),
                    xb == xt.deep_view(),
                    forall|q: int| 0 <= q < k ==> !matches_dependency(xb.pending_mailbox[q], d.deep_view()),
                ensures
                    hit ==> k < xt.pending_mailbox@.len() && matches_dependency(xb.pending_mailbox[k as int], d.deep_view()),
                    !hit ==> k == xt.pending_mailbox@.len(),
                decreases xt.pending_mailbox@.len() - k,
            {
                if message_matches_dependency(&xt.pending_mailbox[k], d) {
                    hit = true;
                    break;
                }
                k = k + 1;
            }
            proof {
                lemma_first_match(xb.pending_mailbox, d.deep_view(), k as int);
            }
            if hit {
                let ghost box0 = xt.pending_mailbox.deep_view();
                let ghost ful0 = xt.fulfilled_deps.deep_view();
                let m = xt.pending_mailbox.remove(k);
                let data = if m.data.len() > 0 {
                    Some(m.data[0].deep_clone())
                } else {
                    None
                };
                let f = CrossRollupDependency {
                    source_chain_id: d.source_chain_id,
                    dest_chain_id: d.dest_chain_id,
                    sender: d.sender,
                    receiver: d.receiver,
                    label: d.label.deep_clone(),
                    data,
                    session_id: d.session_id,
                };
                xt.fulfilled_deps.push(f);
                added = added + 1;
                proof {
                    assert(xt.pending_mailbox.deep_view() =~= box0.remove(k as int));
                    assert(xt.fulfilled_deps.deep_view() =~= ful0.push(f.deep_view()));
                    assert(box0[k as int] == m.deep_view());
                    assert(f.deep_view() == fulfilled_by(d.deep_view(), m.deep_view()));
                }
            }
        }
        i = i + 1;
    }
    proof {
        assert(deps.deep_view().subrange(0, deps@.len() as int) =~= deps.deep_view());
    }
    added
}

fn dispatch_into(xt: &mut PendingXt, msgs: &Vec<CrossRollupMessage>) -> (out: Vec<MailboxMessage>)
    ensures
        (final(xt).deep_view(), out.deep_view()) == dispatch_all(old(xt).deep_view(), msgs.deep_view()),
        final(xt).instance_id.deep_view() == old(xt).instance_id.deep_view(),
{
    let ghost x0 = xt.deep_view();
    let mut out: Vec<MailboxMessage> = Vec::new();
    let mut i: usize = 0;
    while i < msgs.len()
        invariant
            i <= msgs@.len(),
            xt.instance_id.deep_view() == x0.instance_id,
            (xt.deep_view(), out.deep_view()) == dispatch_all(x0, msgs.deep_view().subrange(0, i as int)),
        decreases msgs@.len() - i,
    {
        let m = &msgs[i];
        let ghost xb = xt.deep_view();
        proof {
            let s1 = msgs.deep_view().subrange(0, i as int + 1);
            assert(s1.drop_last() =~= msgs.deep_view().subrange(0, i as int));
            assert(s1.last() == m.deep_view());
            lemma_dispatch_keeps_instance(x0, msgs.deep_view().subrange(0, i as int));
        }
        let mut data: Vec<Vec<u8>> = Vec::new();
        data.push(m.data.deep_clone());
        let mm = MailboxMessage {
            instance_id: xt.instance_id.deep_clone(),
            source_chain: m.source_chain_id.0,
            destination_chain: m.dest_chain_id.0,
            source: address_bytes(&m.sender),
            receiver: address_bytes(&m.receiver),
            label: m.label.clone(),
            data,
            session_id: session_id_u64(&m.session_id),
        };
        proof {
            assert(mm.data.deep_view() =~= seq![m.data.deep_view()]);
            assert(mm.deep_view() == to_mailbox_message(xb.instance_id, m.deep_view()));
        }
        let mut seen = false;
        let mut j: usize = 0;
        while j < xt.sent_mailbox.len()
            invariant
                j <= xt.sent_mailbox@.len(),
                xb == xt.deep_view(),
                !seen ==> forall|q: int| 0 <= q < j ==> xb.sent_mailbox[q] != mm.deep_view(),
                seen ==> xb.sent_mailbox.contains(mm.deep_view()),
            decreases xt.sent_mailbox@.len() - j,
        {
            if !seen && same_mailbox_message(&xt.sent_mailbox[j], &mm) {
                seen = true;
                proof {
                    assert(xb.sent_mailbox[j as int] == mm.deep_view());
                }
            }
            j = j + 1;
        }
        if !seen {
            let ghost sent0 = xt.sent_mailbox.deep_view();
            let ghost out0 = out.deep_view();
            let copy = mm.deep_clone();
            xt.sent_mailbox.push(copy);
            out.push(mm);
            proof {
                assert(xt.sent_mailbox.deep_view() =~= sent0.push(mm.deep_view()));
                assert(out.deep_view() =~= out0.push(mm.deep_view()));
            }
        }
        i = i + 1;
    }
    proof {
        assert(msgs.deep_view().subrange(0, msgs@.len() as int) =~= msgs.deep_view());
    }
    out
}

proof fn lemma_dispatch_keeps_instance(x: PendingXtView, ms: Seq<CrossRollupMessageView>)
    ensures
        dispatch_all(x, ms).0.instance_id == x.instance_id,
    decreases ms.len(),
{
    if ms.len() > 0 {
        lemma_dispatch_keeps_instance(x, ms.drop_last());
    }
}

fn add_deps_into(have: &mut Vec<CrossRollupDependency>, ds: &Vec<CrossRollupDependency>)
    ensures
        final(have).deep_view() == add_deps(old(have).deep_view(), ds.deep_view()),
{
    let ghost h0 = have.deep_view();
    let mut i: usize = 0;
    while i < ds.len()
        invariant
            i <= ds@.len(),
            have.deep_view() == add_deps(h0, ds.deep_view().subrange(0, i as int)),
        decreases ds@.len() - i,
    {
        let d = &ds[i];
        let ghost hb = have.deep_view();
        proof {
            let s1 = ds.deep_view().subrange(0, i as int + 1);
            assert(s1.drop_last() =~= ds.deep_view().subrange(0, i as int));
            assert(s1.last() == d.deep_view());
        }
        let mut found = false;
        let mut j: usize = 0;
        while j < have.len()
            invariant
                j <= have@.len(),
                hb == have.deep_view(),
                !found ==> forall|q: int| 0 <= q < j ==> !same_dep_key(hb[q], d.deep_view()),
                found ==> exists|q: int| 0 <= q < hb.len() && same_dep_key(#[trigger] hb[q], d.deep_view()),
            decreases have@.len() - j,
        {
            if !found && dep_key_eq(&have[j], d) {
                found = true;
                proof {
                    assert(hb[j as int] == have[j as int].deep_view());
                }
            }
            j = j + 1;
        }
        if !found {
            let c = d.deep_clone();
            have.push(c);
            proof {
                assert(have.deep_view() =~= hb.push(d.deep_view()));
            }
        }
        i = i + 1;
    }
    proof {
        assert(ds.deep_view().subrange(0, ds@.len() as int) =~= ds.deep_view());
    }
}

fn add_messages_into(have: &mut Vec<CrossRollupMessage>, ms: &Vec<CrossRollupMessage>)
    ensures
        final(have).deep_view() == add_messages(old(have).deep_view(), ms.deep_view()),
{
    let ghost h0 = have.deep_view();
    let mut i: usize = 0;
    while i < ms.len()
        invariant
            i <= ms@.len(),
            have.deep_view() == add_messages(h0, ms.deep_view().subrange(0, i as int)),
        decreases ms@.len() - i,
    {
        let m = &ms[i];
        let ghost hb = have.deep_view();
        proof {
            let s1 = ms.deep_view().subrange(0, i as int + 1);
            assert(s1.drop_last() =~= ms.deep_view().subrange(0, i as int));
            assert(s1.last() == m.deep_view());
        }
        let mut found = false;
        let mut j: usize = 0;
        while j < have.len()
            invariant
                j <= have@.len(),
                hb == have.deep_view(),
                !found ==> forall|q: int| 0 <= q < j ==> hb[q] != m.deep_view(),
                found ==> hb.contains(m.deep_view()),
            decreases have@.len() - j,
        {
            if !found && cross_message_eq(&have[j], m) {
                found = true;
                proof {
                    assert(hb[j as int] == m.deep_view());
                }
            }
            j = j + 1;
        }
        if !found {
            let c = m.deep_clone();
            have.push(c);
            proof {
                assert(have.deep_view() =~= hb.push(m.deep_view()));
            }
        }
        i = i + 1;
    }
    proof {
        assert(ms.deep_view().subrange(0, ms@.len() as int) =~= ms.deep_view());
    }
}

/// The state overrides a simulation starts from: those of the local chain's snapshot, if any.
pub open spec fn starting_overrides(x: PendingXtView, local_chain: u64) -> Map<Seq<char>, AccountOverrideView> {
    if x.chain_states.dom().contains(local_chain) && x.chain_states[local_chain].state_overrides is Some {
        x.chain_states[local_chain].state_overrides.unwrap()
    } else {
        Map::empty()
    }
}

/// The instance has transactions for the local chain.
pub open spec fn has_local_txs(x: PendingXtView, local_chain: u64) -> bool {
    x.raw_txs.dom().contains(local_chain) && x.raw_txs[local_chain].len() > 0
}

impl DefaultCoordinator {
    /// Begin processing instance `id`: reject it without local transactions,
    /// otherwise lock the local chain and hand out what to simulate.
    pub fn start_processing(&mut self, id: &String) -> (r: ProcessStart)
        ensures
            same_besides_pending(old(self), final(self)),
            marks_kept(old(self).state.pending@, final(self).state.pending@),
            final(self).state.pending.key_seq() == old(self).state.pending.key_seq(),
            !old(self).state.pending@.dom().contains(id@) ==> r is NotPending && final(self).state.pending@ == old(self).state.pending@,
            old(self).state.pending@.dom().contains(id@) ==> ({
                let x = old(self).state.pending@[id@];
                let local = old(self).chain_id.0;
                if !has_local_txs(x, local) {
                    r is VoteNoLocalTransactions && final(self).state.pending@ == old(self).state.pending@
                } else {
                    &&& final(self).state.pending@ == old(self).state.pending@.insert(
                        id@,
                        PendingXtView { locked_chains: x.locked_chains.insert(local, true), ..x },
                    )
                    &&& !old(self).has_simulator ==> r is VoteYesUnsimulated
                    &&& old(self).has_simulator ==> (r matches ProcessStart::Simulate { txs, overrides }
                        && txs.deep_view() == x.raw_txs[local]
                        && overrides@ == starting_overrides(x, local))
                }
            }),
    {
        let local = self.chain_id.0;
        let (has_txs, txs, overrides) = match self.state.pending.get(id) {
            None => {
                return ProcessStart::NotPending;
            },
            Some(xt) => {
                let (has_txs, txs) = match xt.raw_txs.get(&local) {
                    Some(t) => (t.len() > 0, t.deep_clone()),
                    None => (false, Vec::new()),
                };
                let overrides = match xt.chain_states.get(&local) {
                    Some(cs) => match &cs.state_overrides {
                        Some(o) => o.deep_clone(),
                        None => StateOverrides::new(),
                    },
                    None => StateOverrides::new(),
                };
                (has_txs, txs, overrides)
            },
        };
        if !has_txs {
            return ProcessStart::VoteNoLocalTransactions;
        }
        match self.state.take_out(id) {
            Some(mut xt) => {
                let ghost before = self.state.pending@;
                xt.locked_chains.insert(local, true);
                self.state.put_back(id, xt);
                proof {
                    assert(self.state.pending@ =~= old(self).state.pending@.insert(id@, xt.deep_view()));
                }
            },
            None => {},
        }
        if !self.has_simulator {
            ProcessStart::VoteYesUnsimulated
        } else {
            ProcessStart::Simulate { txs, overrides }
        }
    }

    /// The messages already sent and the dependencies already fulfilled for
    /// instance `id`, as the simulator needs them.
    pub fn simulation_context(&self, id: &String) -> (r: Option<(Vec<CrossRollupMessage>, Vec<CrossRollupDependency>)>)
        ensures
            match r {
                Some((msgs, deps)) => self.state.pending@.dom().contains(id@)
                    && msgs.deep_view() == self.state.pending@[id@].outbound_messages
                    && deps.deep_view() == self.state.pending@[id@].fulfilled_deps,
                None => !self.state.pending@.dom().contains(id@),
            },
    {
        match self.state.pending.get(id) {
            Some(xt) => Some((xt.outbound_messages.deep_clone(), xt.fulfilled_deps.deep_clone())),
            None => None,
        }
    }

    /// Record a simulation result for the local chain of instance `id` and
    /// return the state overrides to simulate the next transaction from.
    pub fn record_simulation_state(&mut self, id: &String, result: &SimulationResult, base: &StateOverrides) -> (o: StateOverrides)
        ensures
            same_besides_pending(old(self), final(self)),
            marks_kept(old(self).state.pending@, final(self).state.pending@),
            final(self).state.pending.key_seq() == old(self).state.pending.key_seq(),
            !old(self).state.pending@.dom().contains(id@) ==> o@ == base@ && final(self).state.pending@ == old(self).state.pending@,
            old(self).state.pending@.dom().contains(id@) ==> ({
                let merged = match result.state_overrides.deep_view() {
                    Some(m) => m,
                    None => base@,
                };
                &&& o@ == merged
                &&& final(self).state.pending@ == old(self).state.pending@.insert(
                    id@,
                    after_simulation(
                        old(self).state.pending@[id@],
                        old(self).chain_id.0,
                        merged,
                        result.dependencies.deep_view(),
                        result.outbound_messages.deep_view(),
                    ),
                )
            }),
    {
        match self.state.take_out(id) {
            None => base.deep_clone(),
            Some(mut xt) => {
                let merged = match &result.state_overrides {
                    Some(m) => m.deep_clone(),
                    None => base.deep_clone(),
                };
                xt.state_overrides.insert(self.chain_id.0, merged.deep_clone());
                add_deps_into(&mut xt.dependencies, &result.dependencies);
                add_messages_into(&mut xt.outbound_messages, &result.outbound_messages);
                self.state.put_back(id, xt);
                proof {
                    assert(self.state.pending@ =~= old(self).state.pending@.insert(id@, xt.deep_view()));
                }
                merged
            },
        }
    }

    /// Fulfil the dependencies `deps` of instance `id` from its mailbox and
    /// return how many were fulfilled.
    pub fn fulfill_dependencies_from_mailbox(&mut self, id: &String, deps: &Vec<CrossRollupDependency>) -> (n: usize)
        ensures
            same_besides_pending(old(self), final(self)),
            marks_kept(old(self).state.pending@, final(self).state.pending@),
            final(self).state.pending.key_seq() == old(self).state.pending.key_seq(),
            !old(self).state.pending@.dom().contains(id@) ==> n == 0 && final(self).state.pending@ == old(self).state.pending@,
            old(self).state.pending@.dom().contains(id@) ==> ({
                let (x, count) = fulfill_all(old(self).state.pending@[id@], deps.deep_view());
                &&& n == count
                &&& final(self).state.pending@ == old(self).state.pending@.insert(id@, x)
            }),
    {
        match self.state.take_out(id) {
            None => 0,
            Some(mut xt) => {
                let n = fulfill_into(&mut xt, deps);
                self.state.put_back(id, xt);
                proof {
                    assert(self.state.pending@ =~= old(self).state.pending@.insert(id@, xt.deep_view()));
                    crate::laws::lemma_fulfill_keeps_delivered(old(self).state.pending@[id@], deps.deep_view());
                }
                n
            },
        }
    }

    /// Record the outbound mailbox messages of instance `id` and return the
    /// ones that were not sent before; nothing is recorded when no mailbox
    /// sender is configured.
    pub fn dispatch_outbound_mailbox(&mut self, id: &String, msgs: &Vec<CrossRollupMessage>) -> (out: Vec<MailboxMessage>)
        ensures
            same_besides_pending(old(self), final(self)),
            marks_kept(old(self).state.pending@, final(self).state.pending@),
            final(self).state.pending.key_seq() == old(self).state.pending.key_seq(),
            (msgs@.len() == 0 || !old(self).has_mailbox_sender || !old(self).state.pending@.dom().contains(id@)) ==>
                out@.len() == 0 && final(self).state.pending@ == old(self).state.pending@,
            (msgs@.len() > 0 && old(self).has_mailbox_sender && old(self).state.pending@.dom().contains(id@)) ==> ({
                let (x, sent) = dispatch_all(old(self).state.pending@[id@], msgs.deep_view());
                &&& out.deep_view() == sent
                &&& final(self).state.pending@ == old(self).state.pending@.insert(id@, x)
            }),
    {
        if msgs.len() == 0 || !self.has_mailbox_sender {
            return Vec::new();
        }
        match self.state.take_out(id) {
            None => Vec::new(),
            Some(mut xt) => {
                let out = dispatch_into(&mut xt, msgs);
                self.state.put_back(id, xt);
                proof {
                    assert(self.state.pending@ =~= old(self).state.pending@.insert(id@, xt.deep_view()));
                    crate::laws::lemma_dispatch(old(self).state.pending@[id@], msgs.deep_view());
                }
                out
            },
        }
    }
}

} // verus!
