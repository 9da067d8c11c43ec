//! Breach evaluation: which quotas exceed the threshold and are not ignored.
use vstd::prelude::*;
use crate::quota::{quota_views, Quota, QuotaView};
use crate::utilization::{state_value, str_equals};

verus! {

/// Whether `code` is one of the `ignored` quota codes.
pub open spec fn is_ignored(ignored: Seq<String>, code: Seq<char>) -> bool {
    exists|i: int| 0 <= i < ignored.len() && (#[trigger] ignored[i])@ == code
}

/// A quota is breached when its utilization is resolved, strictly above the
/// threshold, and its code is not ignored.
pub open spec fn breached(q: QuotaView, threshold: u8, ignored: Seq<String>) -> bool {
    &&& state_value(q.state) matches Some(u)
    &&& u > threshold
    &&& !is_ignored(ignored, q.parts.quota_code)
}

/// The indices, in increasing order, of the breached quotas among the first `n`.
pub open spec fn breached_upto(qs: Seq<Quota>, threshold: u8, ignored: Seq<String>, n: int) -> Seq<
    usize,
>
    decreases n,
{
    if n <= 0 {
        Seq::empty()
    } else if breached(qs[n - 1].view(), threshold, ignored) {
        breached_upto(qs, threshold, ignored, n - 1).push((n - 1) as usize)
    } else {
        breached_upto(qs, threshold, ignored, n - 1)
    }
}

/// The indices, in increasing order, of the quotas among the first `n` whose
/// utilization is not resolved.
pub open spec fn unresolved_upto(qs: Seq<Quota>, n: int) -> Seq<usize>
    decreases n,
{
    if n <= 0 {
        Seq::empty()
    } else if state_value(qs[n - 1].view().state) is None {
        unresolved_upto(qs, n - 1).push((n - 1) as usize)
    } else {
        unresolved_upto(qs, n - 1)
    }
}

/// The breached quotas among the first `n` of `vs`, in order.
pub open spec fn breached_among(vs: Seq<QuotaView>, threshold: u8, ignored: Seq<String>, n: int) -> Seq<
    QuotaView,
>
    decreases n,
{
    if n <= 0 {
        Seq::empty()
    } else if breached(vs[n - 1], threshold, ignored) {
        breached_among(vs, threshold, ignored, n - 1).push(vs[n - 1])
    } else {
        breached_among(vs, threshold, ignored, n - 1)
    }
}

/// The quotas that evaluation reports as breached are those that
/// `breached_among` selects.
pub proof fn lemma_breached_views(qs: Seq<Quota>, threshold: u8, ignored: Seq<String>, n: int)
    requires
        0 <= n <= qs.len(),
        n <= usize::MAX,
    ensures
        breached_upto(qs, threshold, ignored, n).map_values(|i: usize| qs[i as int].view())
            == breached_among(quota_views(qs), threshold, ignored, n),
    decreases n,
{
    if n > 0 {
        lemma_breached_views(qs, threshold, ignored, n - 1);
        assert(quota_views(qs)[n - 1] == qs[n - 1].view());
        let prev = breached_upto(qs, threshold, ignored, n - 1);
        if breached(qs[n - 1].view(), threshold, ignored) {
            assert(prev.push((n - 1) as usize).map_values(|i: usize| qs[i as int].view())
                =~= prev.map_values(|i: usize| qs[i as int].view()).push(qs[n - 1].view()));
        }
    }
}

/// Whether `code` is among the `ignored` codes.
pub fn is_ignored_code(ignored: &Vec<String>, code: &str) -> (r: bool)
    ensures
        r == is_ignored(ignored@, code@),
{
    let mut i: usize = 0;
    while i < ignored.len()
        invariant
            i <= ignored@.len(),
            forall|j: int| 0 <= j < i ==> (#[trigger] ignored@[j])@ != code@,
        decreases ignored@.len() - i,
    {
        if str_equals(ignored[i].as_str(), code) {
            return true;
        }
        i = i + 1;
    }
    false
}

/// Whether `quota` breaches `threshold` and is not ignored.
pub fn is_breached(quota: &Quota, threshold: u8, ignored: &Vec<String>) -> (r: bool)
    ensures
        r == breached(quota.view(), threshold, ignored@),
{
    match quota.utilization_value() {
        Some(u) => u > threshold && !is_ignored_code(ignored, quota.quota_code()),
        None => false,
    }
}

/// The outcome of evaluating a catalog: the breached quotas, and those
/// whose utilization could not be resolved, by index.
pub struct Evaluation {
    pub breached: Vec<usize>,
    pub unresolved: Vec<usize>,
}

/// Evaluates every quota of the catalog against the threshold.
pub fn evaluate(quotas: &Vec<Quota>, threshold: u8, ignored: &Vec<String>) -> (r: Evaluation)
    ensures
        r.breached@ == breached_upto(quotas@, threshold, ignored@, quotas@.len() as int),
        r.unresolved@ == unresolved_upto(quotas@, quotas@.len() as int),
{
    let mut breached_ix: Vec<usize> = Vec::new();
    let mut unresolved_ix: Vec<usize> = Vec::new();
    let mut i: usize = 0;
    while i < quotas.len()
        invariant
            i <= quotas@.len(),
            breached_ix@ == breached_upto(quotas@, threshold, ignored@, i as int),
            unresolved_ix@ == unresolved_upto(quotas@, i as int),
        decreases quotas@.len() - i,
    {
        let q = &quotas[i];
        if is_breached(q, threshold, ignored) {
            breached_ix.push(i);
        }
        if q.utilization_value().is_none() {
            unresolved_ix.push(i);
        }
        i = i + 1;
    }
    Evaluation { breached: breached_ix, unresolved: unresolved_ix }
}

/// Every index that evaluation reports as breached names a breached quota,
/// and every breached quota is reported.
pub proof fn lemma_breached_exactly(qs: Seq<Quota>, threshold: u8, ignored: Seq<String>, n: int)
    requires
        0 <= n <= qs.len(),
        n <= usize::MAX,
    ensures
        forall|k: int|
            0 <= k < breached_upto(qs, threshold, ignored, n).len() ==> {
                let i = #[trigger] breached_upto(qs, threshold, ignored, n)[k] as int;
                0 <= i < n && breached(qs[i].view(), threshold, ignored)
            },
        forall|i: int|
            0 <= i < n && breached(#[trigger] qs[i].view(), threshold, ignored) ==> breached_upto(
                qs,
                threshold,
                ignored,
                n,
            ).contains(i as usize),
    decreases n,
{
    if n > 0 {
        lemma_breached_exactly(qs, threshold, ignored, n - 1);
        let prev = breached_upto(qs, threshold, ignored, n - 1);
        let cur = breached_upto(qs, threshold, ignored, n);
        assert forall|k: int| 0 <= k < cur.len() implies {
            let i = #[trigger] cur[k] as int;
            0 <= i < n && breached(qs[i].view(), threshold, ignored)
        } by {
            if k < prev.len() {
                assert(cur[k] == prev[k]);
            }
        }
        assert forall|i: int|
            0 <= i < n && breached(#[trigger] qs[i].view(), threshold, ignored) implies cur.contains(
            i as usize) by {
            if i < n - 1 {
                let k = choose|k: int| 0 <= k < prev.len() && prev[k] == i as usize;
                assert(cur[k] == prev[k]);
            } else {
                assert(cur[cur.len() - 1] == i as usize);
            }
        }
    }
}

} // verus!
