//! The metric queries that resolve a quota's utilization from telemetry,
//! and the provider's retry policy for remote calls.
use vstd::prelude::*;
use crate::quota::{MetricView, ServiceQuotaUtilizationQueryInput};
use crate::utilization::{calculate_utilization, percent_of};

verus! {

/// Granularity of the usage series, in seconds.
pub const METRIC_PERIOD_SECS: i32 = 60;

/// A statistic over one metric.
pub struct MetricStatQuery {
    pub namespace: String,
    pub metric_name: String,
    pub dimensions: Vec<(String, String)>,
    pub stat: String,
    pub period: i32,
}

/// One query of a metric-data request: a metric statistic or an expression
/// over other queries, by id.
pub struct MetricQuery {
    pub id: String,
    pub metric_stat: Option<MetricStatQuery>,
    pub expression: Option<String>,
    pub return_data: bool,
}

pub open spec fn usage_id() -> Seq<char> {
    "usage_data"@
}

pub open spec fn utilization_id() -> Seq<char> {
    "utilization"@
}

/// The usage series as a percentage of the quota's limit.
pub open spec fn utilization_expression() -> Seq<char> {
    "(usage_data/SERVICE_QUOTA(usage_data))*100"@
}

fn copy_dimensions(v: &Vec<(String, String)>) -> (r: Vec<(String, String)>)
    ensures
        r@ == v@,
{
    let mut r: Vec<(String, String)> = Vec::new();
    let mut i: usize = 0;
    while i < v.len()
        invariant
            i <= v@.len(),
            r@ == v@.subrange(0, i as int),
        decreases v@.len() - i,
    {
        let d = &v[i];
        r.push((d.0.clone(), d.1.clone()));
        proof {
            assert(r@ =~= v@.subrange(0, i + 1));
        }
        i = i + 1;
    }
    assert(r@ =~= v@);
    r
}

/// The two linked queries for a usage metric: the raw usage series, which
/// is not returned, and the percentage of the quota derived from it, which
/// is the only series returned.
pub fn utilization_queries(input: &ServiceQuotaUtilizationQueryInput) -> (r: Vec<MetricQuery>)
    ensures
        r@.len() == 2,
        r@[0].id@ == usage_id(),
        r@[0].expression is None,
        !r@[0].return_data,
        r@[0].metric_stat matches Some(m) && (MetricView {
            namespace: m.namespace@,
            metric_name: m.metric_name@,
            dimensions: m.dimensions@.map_values(|d: (String, String)| (d.0@, d.1@)),
            statistic: m.stat@,
        }) == input.view() && m.period == METRIC_PERIOD_SECS,
        r@[1].id@ == utilization_id(),
        r@[1].metric_stat is None,
        r@[1].expression matches Some(e) && e@ == utilization_expression(),
        r@[1].return_data,
{
    let stat = MetricStatQuery {
        namespace: input.namespace.clone(),
        metric_name: input.metric_name.clone(),
        dimensions: copy_dimensions(&input.dimensions),
        stat: input.statistic.clone(),
        period: METRIC_PERIOD_SECS,
    };
    let usage = MetricQuery {
        id: String::from_str("usage_data"),
        metric_stat: Some(stat),
        expression: None,
        return_data: false,
    };
    let percentage = MetricQuery {
        id: String::from_str("utilization"),
        metric_stat: None,
        expression: Some(String::from_str("(usage_data/SERVICE_QUOTA(usage_data))*100")),
        return_data: true,
    };
    let mut r: Vec<MetricQuery> = Vec::new();
    r.push(usage);
    r.push(percentage);
    r
}

/// The utilization of the account's code storage, from its usage and limit
/// when the provider reports both.
pub fn code_storage_utilization(usage: Option<i64>, limit: Option<i64>) -> (r: Option<u8>)
    ensures
        match (usage, limit) {
            (Some(u), Some(l)) => r == Some(percent_of(u as int, l as int) as u8),
            _ => r is None,
        },
{
    match (usage, limit) {
        (Some(u), Some(l)) => Some(calculate_utilization(u, l)),
        _ => None,
    }
}

/// How remote calls are retried: adaptively, backing off from an initial
/// delay, for a bounded number of attempts.
pub struct RetryPolicy {
    pub initial_backoff_secs: u64,
    pub max_attempts: u32,
    pub adaptive: bool,
}

/// The retry policy of every remote call.
pub fn retry_config() -> (r: RetryPolicy)
    ensures
        r.initial_backoff_secs == 2,
        r.max_attempts == 5,
        r.adaptive,
{
    RetryPolicy { initial_backoff_secs: 2, max_attempts: 5, adaptive: true }
}

} // verus!
