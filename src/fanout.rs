//! The fan-out scheduler's decisions: how many units of work run at once,
//! and how the units' results join into one catalog. Each unit lists the
//! quotas of one service in one region; a failed unit contributes nothing
//! but its failure, and never stops the others.
use vstd::prelude::*;
use crate::arn::QuotaError;
use crate::breach::{
    breached_among, breached_upto, evaluate, lemma_breached_views, unresolved_upto, Evaluation,
};
use crate::quota::{error_texts, quota_views, Quota, QuotaView, ServiceListing};

verus! {

/// How many units of work may be in flight at once in one region.
pub const PERMITS_PER_REGION: usize = 3;

/// The listing of one service's quotas failed; the service code is empty
/// when the listing of the region's services itself failed.
pub struct EnumerationError {
    pub region: String,
    pub service_code: String,
    pub message: String,
}

/// What one unit of work produced.
pub type UnitOutcome = Result<ServiceListing, EnumerationError>;

/// The quotas the units found, in the units' order.
pub open spec fn gathered_quotas(outs: Seq<UnitOutcome>) -> Seq<QuotaView>
    decreases outs.len(),
{
    if outs.len() == 0 {
        Seq::empty()
    } else {
        gathered_quotas(outs.drop_last()) + match outs.last() {
            Ok(l) => quota_views(l.quotas@),
            Err(_) => Seq::empty(),
        }
    }
}

/// The identifiers the units skipped as malformed, in the units' order.
pub open spec fn gathered_errors(outs: Seq<UnitOutcome>) -> Seq<Seq<char>>
    decreases outs.len(),
{
    if outs.len() == 0 {
        Seq::empty()
    } else {
        gathered_errors(outs.drop_last()) + match outs.last() {
            Ok(l) => error_texts(l.errors@),
            Err(_) => Seq::empty(),
        }
    }
}

/// The units' failures, in the units' order.
pub open spec fn failed_units(outs: Seq<UnitOutcome>) -> Seq<EnumerationError>
    decreases outs.len(),
{
    if outs.len() == 0 {
        Seq::empty()
    } else {
        match outs.last() {
            Ok(_) => failed_units(outs.drop_last()),
            Err(e) => failed_units(outs.drop_last()).push(e),
        }
    }
}

/// Everything a run discovered, after all units have completed.
pub struct AggregatedCatalog {
    pub quotas: Vec<Quota>,
    pub identifier_errors: Vec<QuotaError>,
    pub enumeration_failures: Vec<EnumerationError>,
}

/// Joins the outcomes of all units into one catalog.
pub fn aggregate(outcomes: Vec<UnitOutcome>) -> (r: AggregatedCatalog)
    ensures
        quota_views(r.quotas@) == gathered_quotas(outcomes@),
        error_texts(r.identifier_errors@) == gathered_errors(outcomes@),
        r.enumeration_failures@ == failed_units(outcomes@),
{
    let ghost all = outcomes@;
    let mut rest = outcomes;
    let mut quotas: Vec<Quota> = Vec::new();
    let mut errors: Vec<QuotaError> = Vec::new();
    let mut failures: Vec<EnumerationError> = Vec::new();
    let total = rest.len();
    let mut k: usize = 0;
    while rest.len() > 0
        invariant
            total == all.len(),
            k <= all.len(),
            rest@ == all.subrange(k as int, all.len() as int),
            quota_views(quotas@) == gathered_quotas(all.subrange(0, k as int)),
            error_texts(errors@) == gathered_errors(all.subrange(0, k as int)),
            failures@ == failed_units(all.subrange(0, k as int)),
        decreases rest@.len(),
    {
        assert(rest@.len() == all.len() - k);
        let outcome = rest.remove(0);
        proof {
            assert(outcome == all[k as int]);
            assert(all.subrange(0, k + 1).drop_last() =~= all.subrange(0, k as int));
            assert(all.subrange(0, k + 1).last() == outcome);
        }
        match outcome {
            Ok(listing) => {
                let ghost q0 = quotas@;
                let ghost e0 = errors@;
                let mut found = listing.quotas;
                let mut skipped = listing.errors;
                let ghost lq = found@;
                let ghost le = skipped@;
                quotas.append(&mut found);
                errors.append(&mut skipped);
                proof {
                    assert(quota_views(quotas@) =~= quota_views(q0) + quota_views(lq));
                    assert(error_texts(errors@) =~= error_texts(e0) + error_texts(le));
                }
            },
            Err(e) => {
                failures.push(e);
                proof {
                    assert(quota_views(quotas@) =~= quota_views(quotas@) + Seq::<QuotaView>::empty());
                    assert(error_texts(errors@) =~= error_texts(errors@) + Seq::<Seq<char>>::empty());
                }
            },
        }
        k = k + 1;
        proof {
            assert(rest@ =~= all.subrange(k as int, all.len() as int));
        }
    }
    assert(all.subrange(0, k as int) =~= all);
    AggregatedCatalog { quotas, identifier_errors: errors, enumeration_failures: failures }
}

/// A run once all its units have completed: the joined catalog and its
/// evaluation against the threshold.
pub struct RunEvaluation {
    pub catalog: AggregatedCatalog,
    pub evaluation: Evaluation,
}

/// The utilization run once its units have completed: joins their
/// outcomes and evaluates the catalog.
pub fn utilization(outcomes: Vec<UnitOutcome>, threshold: u8, ignored: &Vec<String>) -> (r:
    RunEvaluation)
    ensures
        quota_views(r.catalog.quotas@) == gathered_quotas(outcomes@),
        error_texts(r.catalog.identifier_errors@) == gathered_errors(outcomes@),
        r.catalog.enumeration_failures@ == failed_units(outcomes@),
        r.evaluation.breached@ == breached_upto(
            r.catalog.quotas@,
            threshold,
            ignored@,
            r.catalog.quotas@.len() as int,
        ),
        r.evaluation.unresolved@ == unresolved_upto(
            r.catalog.quotas@,
            r.catalog.quotas@.len() as int,
        ),
        r.evaluation.breached@.map_values(|i: usize| r.catalog.quotas@[i as int].view())
            == breached_among(
            gathered_quotas(outcomes@),
            threshold,
            ignored@,
            gathered_quotas(outcomes@).len() as int,
        ),
{
    let catalog = aggregate(outcomes);
    let evaluation = evaluate(&catalog.quotas, threshold, ignored);
    let n = catalog.quotas.len();
    proof {
        lemma_breached_views(catalog.quotas@, threshold, ignored@, n as int);
    }
    RunEvaluation { catalog, evaluation }
}

/// When one of the units fails and the others succeed, the run reports
/// that one failure, and the quotas it finds breached are exactly those it
/// would find had the failing unit not run.
pub proof fn lemma_run_failure_isolated(
    outs: Seq<UnitOutcome>,
    failed: int,
    threshold: u8,
    ignored: Seq<String>,
)
    requires
        0 <= failed < outs.len(),
        outs[failed] is Err,
        forall|i: int| 0 <= i < outs.len() && i != failed ==> (#[trigger] outs[i]) is Ok,
    ensures
        failed_units(outs).len() == 1,
        breached_among(
            gathered_quotas(outs),
            threshold,
            ignored,
            gathered_quotas(outs).len() as int,
        ) == breached_among(
            gathered_quotas(outs.remove(failed)),
            threshold,
            ignored,
            gathered_quotas(outs.remove(failed)).len() as int,
        ),
{
    lemma_failure_is_isolated(outs, failed);
}

proof fn lemma_gathered_split(a: Seq<UnitOutcome>, b: Seq<UnitOutcome>)
    ensures
        gathered_quotas(a + b) == gathered_quotas(a) + gathered_quotas(b),
        failed_units(a + b) == failed_units(a) + failed_units(b),
    decreases b.len(),
{
    if b.len() == 0 {
        assert(a + b =~= a);
        assert(gathered_quotas(a) + gathered_quotas(b) =~= gathered_quotas(a));
        assert(failed_units(a) + failed_units(b) =~= failed_units(a));
    } else {
        let b0 = b.drop_last();
        assert((a + b).drop_last() =~= a + b0);
        assert((a + b).last() == b.last());
        lemma_gathered_split(a, b0);
        match b.last() {
            Ok(l) => {
                assert(gathered_quotas(a + b) =~= gathered_quotas(a) + gathered_quotas(b));
                assert(failed_units(a + b) =~= failed_units(a) + failed_units(b));
            },
            Err(e) => {
                assert(gathered_quotas(a + b) =~= gathered_quotas(a) + gathered_quotas(b));
                assert(failed_units(a + b) =~= failed_units(a) + failed_units(b));
            },
        }
    }
}

proof fn lemma_all_succeeded(outs: Seq<UnitOutcome>)
    requires
        forall|i: int| 0 <= i < outs.len() ==> (#[trigger] outs[i]) is Ok,
    ensures
        failed_units(outs) == Seq::<EnumerationError>::empty(),
    decreases outs.len(),
{
    if outs.len() > 0 {
        let o = outs.drop_last();
        assert forall|i: int| 0 <= i < o.len() implies (#[trigger] o[i]) is Ok by {
            assert(o[i] == outs[i]);
        }
        lemma_all_succeeded(o);
        assert(outs[outs.len() - 1] is Ok);
    }
}

/// When one of the units fails and the others succeed, the catalog holds
/// exactly the quotas the other units found, and the run reports that one
/// failure and no other.
pub proof fn lemma_failure_is_isolated(outs: Seq<UnitOutcome>, failed: int)
    requires
        0 <= failed < outs.len(),
        outs[failed] is Err,
        forall|i: int| 0 <= i < outs.len() && i != failed ==> (#[trigger] outs[i]) is Ok,
    ensures
        gathered_quotas(outs) == gathered_quotas(outs.remove(failed)),
        failed_units(outs) == seq![outs[failed]->Err_0],
{
    let a = outs.subrange(0, failed);
    let f = seq![outs[failed]];
    let b = outs.subrange(failed + 1, outs.len() as int);
    assert(outs =~= a + f + b);
    assert(outs.remove(failed) =~= a + b);
    lemma_gathered_split(a + f, b);
    lemma_gathered_split(a, f);
    lemma_gathered_split(a, b);
    assert(f.drop_last() =~= Seq::<UnitOutcome>::empty());
    assert(f.last() == outs[failed]);
    assert(gathered_quotas(f.drop_last()) == Seq::<QuotaView>::empty());
    assert(failed_units(f.drop_last()) == Seq::<EnumerationError>::empty());
    assert(gathered_quotas(f) =~= Seq::<QuotaView>::empty());
    assert(gathered_quotas(a) + gathered_quotas(f) =~= gathered_quotas(a));
    assert forall|i: int| 0 <= i < a.len() implies (#[trigger] a[i]) is Ok by {
        assert(a[i] == outs[i]);
    }
    assert forall|i: int| 0 <= i < b.len() implies (#[trigger] b[i]) is Ok by {
        assert(b[i] == outs[failed + 1 + i]);
    }
    lemma_all_succeeded(a);
    lemma_all_succeeded(b);
    assert(failed_units(f) =~= seq![outs[failed]->Err_0]);
    assert(failed_units(outs) =~= seq![outs[failed]->Err_0]);
}

} // verus!
