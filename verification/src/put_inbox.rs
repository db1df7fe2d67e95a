//! Put-inbox transactions of a delivery: one per fulfilled dependency, with
//! consecutive nonces, placed before the transactions of the instance whose
//! dependency it fills.
//!
//! Reserving the nonces and building each transaction are done by the
//! caller; this module decides whether they are needed, which nonce each
//! dependency gets, and where each built transaction goes.

use vstd::prelude::*;

use crate::assoc::DeepClone;
use crate::builder_poll::DeliverableXt;
use crate::coordinator::CoordinatorError;

verus! {

/// The number of dependencies over all deliverables.
pub open spec fn dep_total(ds: Seq<DeliverableXt>) -> nat
    decreases ds.len(),
{
    if ds.len() == 0 {
        0
    } else {
        dep_total(ds.drop_last()) + ds.last().deps@.len()
    }
}

/// The number of dependencies of the deliverables before position `a`.
pub open spec fn dep_offset(ds: Seq<DeliverableXt>, a: int) -> nat {
    dep_total(ds.subrange(0, a))
}

proof fn lemma_dep_offset_step(ds: Seq<DeliverableXt>, a: int)
    requires
        0 <= a < ds.len(),
    ensures
        dep_offset(ds, a + 1) == dep_offset(ds, a) + ds[a].deps@.len(),
{
    assert(ds.subrange(0, a + 1).drop_last() =~= ds.subrange(0, a));
}

proof fn lemma_dep_offset_bound(ds: Seq<DeliverableXt>, a: int)
    requires
        0 <= a <= ds.len(),
    ensures
        dep_offset(ds, a) <= dep_total(ds),
    decreases ds.len() - a,
{
    if a == ds.len() {
        assert(ds.subrange(0, a) =~= ds);
    } else {
        lemma_dep_offset_step(ds, a);
        lemma_dep_offset_bound(ds, a + 1);
    }
}

/// The number of dependencies over all deliverables.
pub fn total_deps(ds: &Vec<DeliverableXt>) -> (n: usize)
    requires
        dep_total(ds@) <= usize::MAX,
    ensures
        n == dep_total(ds@),
{
    let mut n: usize = 0;
    let mut i: usize = 0;
    while i < ds.len()
        invariant
            i <= ds@.len(),
            n == dep_offset(ds@, i as int),
            dep_total(ds@) <= usize::MAX,
        decreases ds@.len() - i,
    {
        proof {
            lemma_dep_offset_step(ds@, i as int);
            lemma_dep_offset_bound(ds@, i as int + 1);
        }
        n = n + ds[i].deps.len();
        i = i + 1;
    }
    proof {
        assert(ds@.subrange(0, i as int) =~= ds@);
    }
    n
}

/// How many put-inbox transactions a delivery needs: none without
/// dependencies; with some, as many as there are, provided a put-inbox
/// builder is configured.
pub fn plan_put_inbox(ds: &Vec<DeliverableXt>, has_builder: bool) -> (r: Result<usize, CoordinatorError>)
    requires
        dep_total(ds@) <= usize::MAX,
    ensures
        dep_total(ds@) == 0 ==> (r matches Ok(n) && n == 0),
        dep_total(ds@) > 0 && !has_builder ==> (r matches Err(CoordinatorError::PutInboxNotConfigured)),
        dep_total(ds@) > 0 && has_builder ==> (r matches Ok(n) && n == dep_total(ds@)),
{
    let total = total_deps(ds);
    if total == 0 {
        Ok(0)
    } else if !has_builder {
        Err(CoordinatorError::PutInboxNotConfigured)
    } else {
        Ok(total)
    }
}

/// One put-inbox transaction to build: for dependency `dep` of deliverable
/// `entry`, with nonce `nonce`.
#[derive(Debug)]
pub struct PutInboxJob {
    pub entry: usize,
    pub dep: usize,
    pub nonce: u64,
}

/// The jobs of a delivery, deliverable by deliverable and dependency by
/// dependency, with consecutive nonces from `base_nonce`.
pub fn put_inbox_jobs(ds: &Vec<DeliverableXt>, base_nonce: u64) -> (jobs: Vec<PutInboxJob>)
    requires
        base_nonce + dep_total(ds@) <= u64::MAX,
    ensures
        jobs@.len() == dep_total(ds@),
        forall|a: int, d: int|
            0 <= a < ds@.len() && 0 <= d < ds@[a].deps@.len() ==> {
                let j = #[trigger] jobs@[dep_offset(ds@, a) + d];
                &&& j.entry == a
                &&& j.dep == d
                &&& j.nonce == base_nonce + dep_offset(ds@, a) + d
            },
{
    let mut jobs: Vec<PutInboxJob> = Vec::new();
    let mut nonce: u64 = base_nonce;
    let mut a: usize = 0;
    while a < ds.len()
        invariant
            a <= ds@.len(),
            base_nonce + dep_total(ds@) <= u64::MAX,
            jobs@.len() == dep_offset(ds@, a as int),
            nonce == base_nonce + dep_offset(ds@, a as int),
            forall|a2: int, d: int|
                0 <= a2 < a && 0 <= d < ds@[a2].deps@.len() ==> {
                    let j = #[trigger] jobs@[dep_offset(ds@, a2) + d];
                    &&& j.entry == a2
                    &&& j.dep == d
                    &&& j.nonce == base_nonce + dep_offset(ds@, a2) + d
                },
        decreases ds@.len() - a,
    {
        proof {
            lemma_dep_offset_step(ds@, a as int);
            lemma_dep_offset_bound(ds@, a as int + 1);
        }
        let n = ds[a].deps.len();
        let ghost start = jobs@.len();
        let mut d: usize = 0;
        while d < n
            invariant
                a < ds@.len(),
                n == ds@[a as int].deps@.len(),
                d <= n,
                start == dep_offset(ds@, a as int),
                dep_offset(ds@, a as int + 1) == dep_offset(ds@, a as int) + n,
                dep_offset(ds@, a as int + 1) <= dep_total(ds@),
                base_nonce + dep_total(ds@) <= u64::MAX,
                jobs@.len() == start + d,
                nonce == base_nonce + start + d,
                forall|a2: int, d2: int|
                    0 <= a2 < a && 0 <= d2 < ds@[a2].deps@.len() ==> {
                        let j = #[trigger] jobs@[dep_offset(ds@, a2) + d2];
                        &&& j.entry == a2
                        &&& j.dep == d2
                        &&& j.nonce == base_nonce + dep_offset(ds@, a2) + d2
                    },
                forall|d2: int| 0 <= d2 < d ==> {
                    let j = #[trigger] jobs@[start + d2];
                    &&& j.entry == a
                    &&& j.dep == d2
                    &&& j.nonce == base_nonce + start + d2
                },
            decreases n - d,
        {
            let ghost before = jobs@;
            jobs.push(PutInboxJob { entry: a, dep: d, nonce });
            proof {
                assert forall|a2: int, d2: int|
                    0 <= a2 < a && 0 <= d2 < ds@[a2].deps@.len() implies {
                        let j = #[trigger] jobs@[dep_offset(ds@, a2) + d2];
                        &&& j.entry == a2
                        &&& j.dep == d2
                        &&& j.nonce == base_nonce + dep_offset(ds@, a2) + d2
                    } by {
                    lemma_dep_offset_step(ds@, a2);
                    lemma_dep_offset_mono(ds@, a2 + 1, a as int);
                    assert(jobs@[dep_offset(ds@, a2) + d2] == before[dep_offset(ds@, a2) + d2]);
                }
                assert forall|d2: int| 0 <= d2 < d + 1 implies {
                    let j = #[trigger] jobs@[start + d2];
                    &&& j.entry == a
                    &&& j.dep == d2
                    &&& j.nonce == base_nonce + start + d2
                } by {
                    if d2 < d {
                        assert(jobs@[start + d2] == before[start + d2]);
                    }
                }
            }
            nonce = nonce + 1;
            d = d + 1;
        }
        a = a + 1;
    }
    proof {
        assert(ds@.subrange(0, a as int) =~= ds@);
    }
    jobs
}

proof fn lemma_dep_offset_mono(ds: Seq<DeliverableXt>, a: int, b: int)
    requires
        0 <= a <= b <= ds.len(),
    ensures
        dep_offset(ds, a) <= dep_offset(ds, b),
    decreases b - a,
{
    if a < b {
        lemma_dep_offset_step(ds, a);
        lemma_dep_offset_mono(ds, a + 1, b);
    }
}

/// Place the built put-inbox transactions `txs` (in job order) with their
/// deliverables: each receives, after what it had, the transactions of its
/// own dependencies.
pub fn attach_put_inbox_txs(ds: Vec<DeliverableXt>, txs: &Vec<Vec<u8>>) -> (out: Vec<DeliverableXt>)
    requires
        txs@.len() == dep_total(ds@),
    ensures
        out@.len() == ds@.len(),
        forall|a: int|
            0 <= a < ds@.len() ==> {
                let o = #[trigger] out@[a];
                &&& o.id@ == ds@[a].id@
                &&& o.raw_txs.deep_view() == ds@[a].raw_txs.deep_view()
                &&& o.deps.deep_view() == ds@[a].deps.deep_view()
                &&& o.put_inbox_txs.deep_view() == ds@[a].put_inbox_txs.deep_view() + txs.deep_view().subrange(
                    dep_offset(ds@, a) as int,
                    (dep_offset(ds@, a) + ds@[a].deps@.len()) as int,
                )
            },
{
    let ghost orig = ds@;
    let tlen = txs.len();
    let mut rest = ds;
    let mut out: Vec<DeliverableXt> = Vec::new();
    let mut k: usize = 0;
    while rest.len() > 0
        invariant
            out@.len() + rest@.len() == orig.len(),
            rest@ == orig.subrange(out@.len() as int, orig.len() as int),
            txs@.len() == dep_total(orig),
            tlen == txs@.len(),
            k == dep_offset(orig, out@.len() as int),
            forall|a: int|
                0 <= a < out@.len() ==> {
                    let o = #[trigger] out@[a];
                    &&& o.id@ == orig[a].id@
                    &&& o.raw_txs.deep_view() == orig[a].raw_txs.deep_view()
                    &&& o.deps.deep_view() == orig[a].deps.deep_view()
                    &&& o.put_inbox_txs.deep_view() == orig[a].put_inbox_txs.deep_view() + txs.deep_view().subrange(
                        dep_offset(orig, a) as int,
                        (dep_offset(orig, a) + orig[a].deps@.len()) as int,
                    )
                },
        decreases rest@.len(),
    {
        let ghost a = out@.len() as int;
        let mut e = rest.remove(0);
        proof {
            assert(e == orig[a]);
            assert(rest@ =~= orig.subrange(a + 1, orig.len() as int));
            lemma_dep_offset_step(orig, a);
            lemma_dep_offset_bound(orig, a + 1);
        }
        let ghost first = e.put_inbox_txs.deep_view();
        let n = e.deps.len();
        let mut d: usize = 0;
        while d < n
            invariant
                0 <= a < orig.len(),
                n == orig[a].deps@.len(),
                d <= n,
                k + n <= txs@.len(),
                tlen == txs@.len(),
                e.id == orig[a].id,
                e.raw_txs == orig[a].raw_txs,
                e.deps == orig[a].deps,
                e.put_inbox_txs.deep_view() == first + txs.deep_view().subrange(k as int, k + d),
            decreases n - d,
        {
            let t = txs[k + d].deep_clone();
            let ghost before = e.put_inbox_txs.deep_view();
            e.put_inbox_txs.push(t);
            proof {
                assert(e.put_inbox_txs.deep_view() =~= before.push(t.deep_view()));
                assert(txs.deep_view()[k + d] == txs@[k + d].deep_view());
                assert(first + txs.deep_view().subrange(k as int, k + d + 1) =~= (first + txs.deep_view().subrange(
                    k as int,
                    k + d,
                )).push(txs.deep_view()[k + d]));
            }
            d = d + 1;
        }
        let ghost before_out = out@;
        out.push(e);
        proof {
            assert forall|a2: int| 0 <= a2 < out@.len() implies {
                let o = #[trigger] out@[a2];
                &&& o.id@ == orig[a2].id@
                &&& o.raw_txs.deep_view() == orig[a2].raw_txs.deep_view()
                &&& o.deps.deep_view() == orig[a2].deps.deep_view()
                &&& o.put_inbox_txs.deep_view() == orig[a2].put_inbox_txs.deep_view() + txs.deep_view().subrange(
                    dep_offset(orig, a2) as int,
                    (dep_offset(orig, a2) + orig[a2].deps@.len()) as int,
                )
            } by {
                if a2 < a {
                    assert(out@[a2] == before_out[a2]);
                }
            }
        }
        k = k + n;
    }
    out
}

} // verus!
