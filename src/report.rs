//! The report of a run: what breached, and how many failures of each kind
//! the run met and carried on past.
use vstd::prelude::*;
use crate::alert::ClientError;
use crate::breach::Evaluation;
use crate::fanout::AggregatedCatalog;

verus! {

/// How many of the deliveries failed.
pub open spec fn failures_in(outcomes: Seq<Result<(), ClientError>>) -> nat
    decreases outcomes.len(),
{
    if outcomes.len() == 0 {
        0
    } else {
        failures_in(outcomes.drop_last()) + if outcomes.last() is Err {
            1nat
        } else {
            0nat
        }
    }
}

/// Counts the failed deliveries.
pub fn count_failures(outcomes: &Vec<Result<(), ClientError>>) -> (r: usize)
    ensures
        r == failures_in(outcomes@),
{
    let mut n: usize = 0;
    let mut i: usize = 0;
    while i < outcomes.len()
        invariant
            i <= outcomes@.len(),
            n == failures_in(outcomes@.subrange(0, i as int)),
            n <= i,
        decreases outcomes@.len() - i,
    {
        proof {
            assert(outcomes@.subrange(0, i + 1).drop_last() =~= outcomes@.subrange(0, i as int));
        }
        if outcomes[i].is_err() {
            n = n + 1;
        }
        i = i + 1;
    }
    assert(outcomes@.subrange(0, i as int) =~= outcomes@);
    n
}

/// The outcome of a run.
pub struct RunReport {
    /// Indices into the catalog of the breached quotas.
    pub breached: Vec<usize>,
    /// Indices into the catalog of the quotas left without a utilization.
    pub unresolved: Vec<usize>,
    pub enumeration_failures: usize,
    pub identifier_errors: usize,
    pub notification_failures: usize,
}

/// Puts together the report of a run from its catalog, its evaluation and
/// the outcomes of its deliveries.
pub fn run_report(
    catalog: &AggregatedCatalog,
    evaluation: Evaluation,
    deliveries: &Vec<Result<(), ClientError>>,
) -> (r: RunReport)
    ensures
        r.breached@ == evaluation.breached@,
        r.unresolved@ == evaluation.unresolved@,
        r.enumeration_failures == catalog.enumeration_failures@.len(),
        r.identifier_errors == catalog.identifier_errors@.len(),
        r.notification_failures == failures_in(deliveries@),
{
    RunReport {
        breached: evaluation.breached,
        unresolved: evaluation.unresolved,
        enumeration_failures: catalog.enumeration_failures.len(),
        identifier_errors: catalog.identifier_errors.len(),
        notification_failures: count_failures(deliveries),
    }
}

} // verus!
