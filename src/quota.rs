//! Quota records and the catalog builder that turns a service's raw listing
//! into quotas.
use vstd::prelude::*;
use crate::arn::{parse_arn, parse_arn_spec, ArnParts, QuotaError};
use crate::utilization::{
    str_equals,
    capability_spec, claim_step, complete_step, lookup_capability, state_value, Capability, Claim,
    UtilizationCell, UtilizationState,
};

verus! {

/// The provider's usage-metric descriptor of a quota: what to query to learn
/// its utilization.
#[derive(Clone)]
pub struct ServiceQuotaUtilizationQueryInput {
    pub namespace: String,
    pub metric_name: String,
    /// Dimension names and values; their order carries no meaning.
    pub dimensions: Vec<(String, String)>,
    pub statistic: String,
}

pub struct MetricView {
    pub namespace: Seq<char>,
    pub metric_name: Seq<char>,
    pub dimensions: Seq<(Seq<char>, Seq<char>)>,
    pub statistic: Seq<char>,
}

impl ServiceQuotaUtilizationQueryInput {
    /// No two dimensions share a name.
    pub open spec fn wf(&self) -> bool {
        forall|i: int, j: int|
            #![trigger self.dimensions@[i], self.dimensions@[j]]
            0 <= i < j < self.dimensions@.len() ==> self.dimensions@[i].0@ != self.dimensions@[j].0@
    }

    /// Whether no two dimensions share a name.
    pub fn has_unique_dimensions(&self) -> (r: bool)
        ensures
            r == self.wf(),
    {
        let n = self.dimensions.len();
        let mut j: usize = 0;
        while j < n
            invariant
                n == self.dimensions@.len(),
                j <= n,
                forall|a: int, b: int|
                    #![trigger self.dimensions@[a], self.dimensions@[b]]
                    0 <= a < b < j ==> self.dimensions@[a].0@ != self.dimensions@[b].0@,
            decreases n - j,
        {
            let mut i: usize = 0;
            while i < j
                invariant
                    n == self.dimensions@.len(),
                    i <= j < n,
                    forall|a: int, b: int|
                        #![trigger self.dimensions@[a], self.dimensions@[b]]
                        0 <= a < b < j ==> self.dimensions@[a].0@ != self.dimensions@[b].0@,
                    forall|a: int|
                        0 <= a < i ==> (#[trigger] self.dimensions@[a]).0@
                            != self.dimensions@[j as int].0@,
                decreases j - i,
            {
                if str_equals(self.dimensions[i].0.as_str(), self.dimensions[j].0.as_str()) {
                    assert(self.dimensions@[i as int].0@ == self.dimensions@[j as int].0@);
                    return false;
                }
                i = i + 1;
            }
            j = j + 1;
        }
        true
    }

    pub open spec fn view(&self) -> MetricView {
        MetricView {
            namespace: self.namespace@,
            metric_name: self.metric_name@,
            dimensions: self.dimensions@.map_values(|d: (String, String)| (d.0@, d.1@)),
            statistic: self.statistic@,
        }
    }
}

/// How a quota's utilization is resolved.
#[derive(Clone)]
pub enum Resolution {
    /// From the provider's telemetry, with this descriptor.
    Telemetry(ServiceQuotaUtilizationQueryInput),
    /// Through a quota-specific capability.
    Specific(Capability),
    /// Not at all: the quota stays without a utilization.
    Unsupported,
}

pub enum ResolutionView {
    Telemetry(MetricView),
    Specific(Capability),
    Unsupported,
}

impl Resolution {
    pub open spec fn view(&self) -> ResolutionView {
        match self {
            Resolution::Telemetry(m) => ResolutionView::Telemetry(m.view()),
            Resolution::Specific(c) => ResolutionView::Specific(*c),
            Resolution::Unsupported => ResolutionView::Unsupported,
        }
    }
}

/// The resolution a quota gets: telemetry when the provider describes a
/// usage metric, else the capability table, else none.
pub open spec fn resolution_for(metric: Option<MetricView>, quota_code: Seq<char>) -> ResolutionView {
    match metric {
        Some(m) => ResolutionView::Telemetry(m),
        None => match capability_spec(quota_code) {
            Some(c) => ResolutionView::Specific(c),
            None => ResolutionView::Unsupported,
        },
    }
}

/// One service-quota instance.
pub struct Quota {
    arn: String,
    name: String,
    account_id: String,
    quota_code: String,
    service_code: String,
    region: String,
    resolution: Resolution,
    utilization: UtilizationCell,
}

pub struct QuotaView {
    pub arn: Seq<char>,
    pub name: Seq<char>,
    pub parts: ArnParts,
    pub resolution: ResolutionView,
    pub state: UtilizationState,
}

impl Quota {
    pub closed spec fn view(&self) -> QuotaView {
        QuotaView {
            arn: self.arn@,
            name: self.name@,
            parts: ArnParts {
                region: self.region@,
                account_id: self.account_id@,
                service_code: self.service_code@,
                quota_code: self.quota_code@,
            },
            resolution: self.resolution.view(),
            state: self.utilization@,
        }
    }

    /// The quota's resolved utilization, if any.
    pub open spec fn utilization_spec(&self) -> Option<u8> {
        state_value(self.view().state)
    }

    /// A quota for the identifier `arn`, with its utilization unresolved.
    pub fn new(arn: &str, name: &str, metric: Option<ServiceQuotaUtilizationQueryInput>) -> (r:
        Result<Quota, QuotaError>)
        requires
            metric matches Some(m) ==> m.wf(),
        ensures
            match r {
                Ok(q) => parse_arn_spec(arn@) == Some(q.view().parts) && q.view().arn == arn@
                    && q.view().name == name@ && q.view().state is Unresolved
                    && q.view().resolution == resolution_for(
                    match metric {
                        Some(m) => Some(m.view()),
                        None => None,
                    },
                    q.view().parts.quota_code,
                ),
                Err(e) => parse_arn_spec(arn@) is None && e.text() == arn@,
            },
    {
        let parsed = match parse_arn(arn) {
            Ok(p) => p,
            Err(e) => {
                return Err(e);
            },
        };
        let resolution = match metric {
            Some(m) => Resolution::Telemetry(m),
            None => match lookup_capability(parsed.quota_code.as_str()) {
                Some(c) => Resolution::Specific(c),
                None => Resolution::Unsupported,
            },
        };
        Ok(
            Quota {
                arn: String::from_str(arn),
                name: String::from_str(name),
                account_id: parsed.account_id,
                quota_code: parsed.quota_code,
                service_code: parsed.service_code,
                region: parsed.region,
                resolution,
                utilization: UtilizationCell::new(),
            },
        )
    }

    pub fn name(&self) -> (r: &str)
        ensures
            r@ == self.view().name,
    {
        self.name.as_str()
    }

    pub fn arn(&self) -> (r: &str)
        ensures
            r@ == self.view().arn,
    {
        self.arn.as_str()
    }

    pub fn account_id(&self) -> (r: &str)
        ensures
            r@ == self.view().parts.account_id,
    {
        self.account_id.as_str()
    }

    pub fn quota_code(&self) -> (r: &str)
        ensures
            r@ == self.view().parts.quota_code,
    {
        self.quota_code.as_str()
    }

    pub fn service_code(&self) -> (r: &str)
        ensures
            r@ == self.view().parts.service_code,
    {
        self.service_code.as_str()
    }

    pub fn region(&self) -> (r: &str)
        ensures
            r@ == self.view().parts.region,
    {
        self.region.as_str()
    }

    /// The quota's resolved utilization, if any.
    pub fn utilization_value(&self) -> (r: Option<u8>)
        ensures
            r == state_value(self.view().state),
    {
        self.utilization.value()
    }

    /// How this quota's utilization is to be resolved.
    pub fn resolution(&self) -> (r: &Resolution)
        ensures
            r.view() == self.view().resolution,
    {
        &self.resolution
    }

    /// Asks for the utilization (see `UtilizationCell::claim`).
    pub fn claim_utilization(&mut self) -> (r: Claim)
        ensures
            (final(self).view().state, r) == claim_step(old(self).view().state),
            final(self).view() == (QuotaView { state: final(self).view().state, ..old(self).view() }),
    {
        self.utilization.claim()
    }

    /// Records the outcome of the one computation of the utilization.
    pub fn complete_utilization(&mut self, outcome: Option<u8>)
        ensures
            final(self).view().state == complete_step(old(self).view().state, outcome),
            final(self).view() == (QuotaView { state: final(self).view().state, ..old(self).view() }),
    {
        self.utilization.complete(outcome)
    }
}

/// Reading a quota's resolved utilization.
pub trait Utilization {
    spec fn utilization_view(&self) -> Option<u8>;

    fn utilization(&self) -> (r: Option<u8>)
        ensures
            r == self.utilization_view(),
    ;
}

impl Utilization for Quota {
    open spec fn utilization_view(&self) -> Option<u8> {
        self.utilization_spec()
    }

    fn utilization(&self) -> (r: Option<u8>) {
        self.utilization.value()
    }
}

/// A quota as the provider lists it.
pub struct QuotaRecord {
    pub arn: String,
    pub name: String,
    pub usage_metric: Option<ServiceQuotaUtilizationQueryInput>,
}

impl QuotaRecord {
    /// Its usage metric, if any, names each dimension once.
    pub open spec fn wf(&self) -> bool {
        self.usage_metric matches Some(m) ==> m.wf()
    }

    pub open spec fn metric_view(&self) -> Option<MetricView> {
        match self.usage_metric {
            Some(m) => Some(m.view()),
            None => None,
        }
    }
}

/// The quota a record becomes, or `None` when its identifier is malformed.
pub open spec fn record_quota(r: QuotaRecord) -> Option<QuotaView> {
    match parse_arn_spec(r.arn@) {
        Some(parts) => Some(
            QuotaView {
                arn: r.arn@,
                name: r.name@,
                parts,
                resolution: resolution_for(r.metric_view(), parts.quota_code),
                state: UtilizationState::Unresolved,
            },
        ),
        None => None,
    }
}

/// The quotas of the records that parse, in the records' order.
pub open spec fn catalog_of(rs: Seq<QuotaRecord>) -> Seq<QuotaView>
    decreases rs.len(),
{
    if rs.len() == 0 {
        Seq::empty()
    } else {
        match record_quota(rs.last()) {
            Some(q) => catalog_of(rs.drop_last()).push(q),
            None => catalog_of(rs.drop_last()),
        }
    }
}

/// The identifiers of the records that do not parse, in order.
pub open spec fn rejected_of(rs: Seq<QuotaRecord>) -> Seq<Seq<char>>
    decreases rs.len(),
{
    if rs.len() == 0 {
        Seq::empty()
    } else {
        match record_quota(rs.last()) {
            Some(_) => rejected_of(rs.drop_last()),
            None => rejected_of(rs.drop_last()).push(rs.last().arn@),
        }
    }
}

pub open spec fn quota_views(qs: Seq<Quota>) -> Seq<QuotaView> {
    qs.map_values(|q: Quota| q.view())
}

pub open spec fn error_texts(es: Seq<QuotaError>) -> Seq<Seq<char>> {
    es.map_values(|e: QuotaError| e.text())
}

/// The quotas of one service, and the records skipped for a malformed
/// identifier.
pub struct ServiceListing {
    pub quotas: Vec<Quota>,
    pub errors: Vec<QuotaError>,
}

/// Turns a service's listing into quotas, skipping (and reporting) each
/// record whose identifier does not parse.
pub fn build_quotas(records: Vec<QuotaRecord>) -> (r: ServiceListing)
    requires
        forall|i: int| 0 <= i < records@.len() ==> (#[trigger] records@[i]).wf(),
    ensures
        quota_views(r.quotas@) == catalog_of(records@),
        error_texts(r.errors@) == rejected_of(records@),
{
    let ghost all = records@;
    let mut rest = records;
    let mut quotas: Vec<Quota> = Vec::new();
    let mut errors: Vec<QuotaError> = Vec::new();
    let mut k: usize = 0;
    let total = rest.len();
    while rest.len() > 0
        invariant
            total == all.len(),
            k <= all.len(),
            rest@ == all.subrange(k as int, all.len() as int),
            forall|i: int| 0 <= i < all.len() ==> (#[trigger] all[i]).wf(),
            quota_views(quotas@) == catalog_of(all.subrange(0, k as int)),
            error_texts(errors@) == rejected_of(all.subrange(0, k as int)),
        decreases rest@.len(),
    {
        assert(rest@.len() == all.len() - k);
        let rec = rest.remove(0);
        proof {
            assert(rec == all[k as int]);
            assert(all.subrange(0, k + 1).drop_last() =~= all.subrange(0, k as int));
            assert(all.subrange(0, k + 1).last() == rec);
        }
        let ghost metric = rec.metric_view();
        match Quota::new(rec.arn.as_str(), rec.name.as_str(), rec.usage_metric) {
            Ok(q) => {
                quotas.push(q);
                proof {
                    assert(quota_views(quotas@) =~= catalog_of(all.subrange(0, k as int)).push(q.view()));
                }
            },
            Err(e) => {
                errors.push(e);
                proof {
                    assert(error_texts(errors@) =~= rejected_of(all.subrange(0, k as int)).push(rec.arn@));
                }
            },
        }
        k = k + 1;
        proof {
            assert(rest@ =~= all.subrange(k as int, all.len() as int));
        }
    }
    assert(all.subrange(0, k as int) =~= all);
    ServiceListing { quotas, errors }
}

} // verus!
