//! Utilization resolution: the set-once memo cell that guards each quota's
//! utilization, and the arithmetic that turns provider figures into a
//! percentage.
use vstd::prelude::*;

verus! {

/// Where a quota's memoized utilization stands.
pub enum UtilizationState {
    /// Nobody has asked yet.
    Unresolved,
    /// One caller is computing it; others must wait for that result.
    Pending,
    /// Computed, with this percentage.
    Resolved(u8),
    /// The one computation failed; the quota stays without a value.
    Failed,
}

/// What a caller is told to do when it asks for the utilization.
pub enum Claim {
    /// Perform the remote computation, then report it with `complete`.
    Compute,
    /// Another caller is computing; ask again once it has completed.
    Wait,
    /// The settled result.
    Ready(Option<u8>),
}

/// An event on a memo cell, in the order the lock serialises them.
pub enum CellEvent {
    Claim,
    Complete(Option<u8>),
}

pub open spec fn claim_step(s: UtilizationState) -> (UtilizationState, Claim) {
    match s {
        UtilizationState::Unresolved => (UtilizationState::Pending, Claim::Compute),
        UtilizationState::Pending => (UtilizationState::Pending, Claim::Wait),
        UtilizationState::Resolved(v) => (UtilizationState::Resolved(v), Claim::Ready(Some(v))),
        UtilizationState::Failed => (UtilizationState::Failed, Claim::Ready(None)),
    }
}

pub open spec fn complete_step(s: UtilizationState, outcome: Option<u8>) -> UtilizationState {
    match s {
        UtilizationState::Pending => match outcome {
            Some(v) => UtilizationState::Resolved(v),
            None => UtilizationState::Failed,
        },
        _ => s,
    }
}

pub open spec fn settled(s: UtilizationState) -> bool {
    s is Resolved || s is Failed
}

pub open spec fn state_value(s: UtilizationState) -> Option<u8> {
    match s {
        UtilizationState::Resolved(v) => Some(v),
        _ => None,
    }
}

pub open spec fn event_step(s: UtilizationState, e: CellEvent) -> UtilizationState {
    match e {
        CellEvent::Claim => claim_step(s).0,
        CellEvent::Complete(o) => complete_step(s, o),
    }
}

/// The state after the events, in order.
pub open spec fn run_events(s: UtilizationState, evs: Seq<CellEvent>) -> UtilizationState
    decreases evs.len(),
{
    if evs.len() == 0 {
        s
    } else {
        run_events(event_step(s, evs[0]), evs.subrange(1, evs.len() as int))
    }
}

/// How many of the events told their caller to compute.
pub open spec fn computations(s: UtilizationState, evs: Seq<CellEvent>) -> nat
    decreases evs.len(),
{
    if evs.len() == 0 {
        0
    } else {
        let here: nat = if evs[0] is Claim && claim_step(s).1 is Compute {
            1
        } else {
            0
        };
        here + computations(event_step(s, evs[0]), evs.subrange(1, evs.len() as int))
    }
}

/// The values handed to callers by the events' claims, in order.
pub open spec fn observed(s: UtilizationState, evs: Seq<CellEvent>) -> Seq<Option<u8>>
    decreases evs.len(),
{
    if evs.len() == 0 {
        Seq::empty()
    } else {
        let here = match (evs[0], claim_step(s).1) {
            (CellEvent::Claim, Claim::Ready(v)) => seq![v],
            _ => Seq::empty(),
        };
        here + observed(event_step(s, evs[0]), evs.subrange(1, evs.len() as int))
    }
}

/// A quota's memoized utilization. Callers serialise their calls on it
/// with a lock, holding it only for one `claim` or one `complete`.
pub struct UtilizationCell {
    state: UtilizationState,
}

impl UtilizationCell {
    /// Where the cell stands.
    pub closed spec fn view(&self) -> UtilizationState {
        self.state
    }

    pub fn new() -> (r: Self)
        ensures
            r@ is Unresolved,
    {
        UtilizationCell { state: UtilizationState::Unresolved }
    }

    /// Asks for the utilization: the first caller is told to compute it,
    /// callers during that computation to wait, later callers get the result.
    pub fn claim(&mut self) -> (r: Claim)
        ensures
            (final(self)@, r) == claim_step(old(self)@),
    {
        match self.state {
            UtilizationState::Unresolved => {
                self.state = UtilizationState::Pending;
                Claim::Compute
            },
            UtilizationState::Pending => Claim::Wait,
            UtilizationState::Resolved(v) => Claim::Ready(Some(v)),
            UtilizationState::Failed => Claim::Ready(None),
        }
    }

    /// Records the outcome of the computation; a cell that is not pending
    /// keeps its state, so a value once set is never replaced.
    pub fn complete(&mut self, outcome: Option<u8>)
        ensures
            final(self)@ == complete_step(old(self)@, outcome),
    {
        if let UtilizationState::Pending = self.state {
            self.state = match outcome {
                Some(v) => UtilizationState::Resolved(v),
                None => UtilizationState::Failed,
            };
        }
    }

    /// The resolved utilization, if there is one.
    pub fn value(&self) -> (r: Option<u8>)
        ensures
            r == state_value(self@),
    {
        match self.state {
            UtilizationState::Resolved(v) => Some(v),
            _ => None,
        }
    }
}

/// A settled cell never changes again, whatever happens to it, and every
/// later caller is handed its value.
pub proof fn lemma_settled_is_final(s: UtilizationState, evs: Seq<CellEvent>)
    requires
        settled(s),
    ensures
        run_events(s, evs) == s,
        computations(s, evs) == 0,
        claim_step(run_events(s, evs)).1 == Claim::Ready(state_value(s)),
    decreases evs.len(),
{
    if evs.len() > 0 {
        lemma_settled_is_final(s, evs.subrange(1, evs.len() as int));
    }
}

proof fn lemma_pending_no_compute(s: UtilizationState, evs: Seq<CellEvent>)
    requires
        !(s is Unresolved),
    ensures
        computations(s, evs) == 0,
    decreases evs.len(),
{
    if evs.len() > 0 {
        lemma_pending_no_compute(event_step(s, evs[0]), evs.subrange(1, evs.len() as int));
    }
}

/// However the calls of any number of callers interleave, a cell asks for
/// the remote computation at most once.
pub proof fn lemma_computes_at_most_once(s: UtilizationState, evs: Seq<CellEvent>)
    ensures
        computations(s, evs) <= 1,
    decreases evs.len(),
{
    if evs.len() > 0 {
        let rest = evs.subrange(1, evs.len() as int);
        if s is Unresolved {
            match evs[0] {
                CellEvent::Claim => lemma_pending_no_compute(UtilizationState::Pending, rest),
                CellEvent::Complete(_) => lemma_computes_at_most_once(s, rest),
            }
        } else {
            lemma_pending_no_compute(s, evs);
        }
    }
}

/// However the calls of any number of callers interleave, every caller
/// that is handed a value is handed the same one: the value the cell holds
/// at the end.
pub proof fn lemma_callers_observe_final_value(s: UtilizationState, evs: Seq<CellEvent>)
    ensures
        forall|k: int|
            0 <= k < observed(s, evs).len() ==> #[trigger] observed(s, evs)[k] == state_value(
                run_events(s, evs),
            ),
    decreases evs.len(),
{
    if evs.len() > 0 {
        let next = event_step(s, evs[0]);
        let rest = evs.subrange(1, evs.len() as int);
        lemma_callers_observe_final_value(next, rest);
        let here = match (evs[0], claim_step(s).1) {
            (CellEvent::Claim, Claim::Ready(v)) => seq![v],
            _ => Seq::<Option<u8>>::empty(),
        };
        assert(observed(s, evs) == here + observed(next, rest));
        assert(run_events(s, evs) == run_events(next, rest));
        if settled(s) {
            assert(next == s);
            lemma_settled_is_final(s, rest);
            assert forall|k: int| 0 <= k < here.len() implies here[k] == state_value(s) by {}
        } else {
            assert(here.len() == 0);
            assert(here + observed(next, rest) =~= observed(next, rest));
        }
    }
}

/// Two callers resolving one fresh cell at once: the first computes, the
/// second waits, and after the computation completes both see its outcome.
pub proof fn lemma_concurrent_callers_agree(outcome: Option<u8>)
    ensures
        claim_step(UtilizationState::Unresolved).1 is Compute,
        claim_step(claim_step(UtilizationState::Unresolved).0).1 is Wait,
        claim_step(complete_step(claim_step(claim_step(UtilizationState::Unresolved).0).0, outcome)).1
            == Claim::Ready(outcome),
{
}

/// The quota code whose utilization comes from the account's code-storage
/// figures rather than from telemetry.
pub open spec fn code_storage_quota_code() -> Seq<char> {
    seq!['L', '-', '2', 'A', 'C', 'B', 'D', '2', '2', 'F']
}

/// A quota-specific way to resolve utilization, for quotas without telemetry.
#[derive(Clone, Copy)]
pub enum Capability {
    /// Total size of deployment packages and layers against the account limit.
    CodeStorage,
}

pub open spec fn capability_spec(quota_code: Seq<char>) -> Option<Capability> {
    if quota_code == code_storage_quota_code() {
        Some(Capability::CodeStorage)
    } else {
        None
    }
}

/// Whether the two strings hold the same characters.
pub fn str_equals(a: &str, b: &str) -> (r: bool)
    ensures
        r == (a@ == b@),
{
    let n = a.unicode_len();
    if n != b.unicode_len() {
        return false;
    }
    let mut i: usize = 0;
    while i < n
        invariant
            n == a@.len() == b@.len(),
            i <= n,
            forall|j: int| 0 <= j < i ==> a@[j] == b@[j],
        decreases n - i,
    {
        if a.get_char(i) != b.get_char(i) {
            return false;
        }
        i = i + 1;
    }
    assert(a@ =~= b@);
    true
}

/// The capability table: which quota codes have a specific resolution.
pub fn lookup_capability(quota_code: &str) -> (r: Option<Capability>)
    ensures
        r == capability_spec(quota_code@),
{
    let code = "L-2ACBD22F";
    proof {
        reveal_strlit("L-2ACBD22F");
        assert(code@ =~= code_storage_quota_code());
    }
    if str_equals(quota_code, code) {
        Some(Capability::CodeStorage)
    } else {
        None
    }
}

/// `used / limit * 100`, truncated and capped at 100; nothing used is 0%,
/// something used against no limit is 100%.
pub open spec fn percent_of(used: int, limit: int) -> int {
    if used <= 0 {
        0
    } else if limit <= 0 {
        100
    } else if used * 100 / limit > 100 {
        100
    } else {
        used * 100 / limit
    }
}

/// The utilization percentage of `used` against `limit`.
pub fn calculate_utilization(used: i64, limit: i64) -> (r: u8)
    ensures
        r as int == percent_of(used as int, limit as int),
{
    if used <= 0 {
        0
    } else if limit <= 0 {
        100
    } else {
        let p: i128 = (used as i128) * 100 / (limit as i128);
        if p > 100 {
            100
        } else {
            p as u8
        }
    }
}

/// A datapoint as a percentage: capped at 100.
pub open spec fn capped(v: u8) -> int {
    if v > 100 {
        100
    } else {
        v as int
    }
}

/// The largest capped datapoint over all pages of a metric query, or `None`
/// when the pages hold no datapoint.
pub fn max_utilization(pages: &Vec<Vec<u8>>) -> (r: Option<u8>)
    ensures
        r is None <==> (forall|i: int| 0 <= i < pages@.len() ==> #[trigger] pages@[i]@.len() == 0),
        r matches Some(m) ==> (exists|i: int, j: int|
            0 <= i < pages@.len() && 0 <= j < pages@[i]@.len() && m as int == capped(
                #[trigger] pages@[i]@[j],
            )),
        r matches Some(m) ==> (forall|i: int, j: int|
            0 <= i < pages@.len() && 0 <= j < pages@[i]@.len() ==> capped(
                #[trigger] pages@[i]@[j],
            ) <= m as int),
{
    let mut best: Option<u8> = None;
    let mut i: usize = 0;
    while i < pages.len()
        invariant
            i <= pages@.len(),
            best is None <==> (forall|a: int| 0 <= a < i ==> #[trigger] pages@[a]@.len() == 0),
            best matches Some(m) ==> (exists|a: int, b: int|
                0 <= a < i && 0 <= b < pages@[a]@.len() && m as int == capped(
                    #[trigger] pages@[a]@[b],
                )),
            best matches Some(m) ==> (forall|a: int, b: int|
                0 <= a < i && 0 <= b < pages@[a]@.len() ==> capped(#[trigger] pages@[a]@[b])
                    <= m as int),
        decreases pages@.len() - i,
    {
        let page = &pages[i];
        let mut j: usize = 0;
        let ghost before = best;
        while j < page.len()
            invariant
                i < pages@.len(),
                page@ == pages@[i as int]@,
                j <= page@.len(),
                before is None <==> (forall|a: int| 0 <= a < i ==> #[trigger] pages@[a]@.len() == 0),
                best is None <==> (before is None && j == 0),
                best matches Some(m) ==> (exists|a: int, b: int|
                    0 <= a <= i && 0 <= b < pages@[a]@.len() && (a < i || b < j) && m as int
                        == capped(#[trigger] pages@[a]@[b])),
                best matches Some(m) ==> (forall|a: int, b: int|
                    0 <= a <= i && 0 <= b < pages@[a]@.len() && (a < i || b < j) ==> capped(
                        #[trigger] pages@[a]@[b],
                    ) <= m as int),
            decreases page@.len() - j,
        {
            let v: u8 = if page[j] > 100 {
                100
            } else {
                page[j]
            };
            assert(v as int == capped(pages@[i as int]@[j as int]));
            match best {
                Some(m) => {
                    if v > m {
                        best = Some(v);
                    }
                },
                None => {
                    best = Some(v);
                },
            }
            j = j + 1;
        }
        i = i + 1;
    }
    best
}

/// Length of the window that a metric query covers, in seconds.
pub const QUERY_WINDOW_SECS: u64 = 3600;

/// The window `(start, end)` to query at `now` (seconds since the epoch):
/// it ends at the top of the hour and covers the hour before it.
pub fn query_window(now: u64) -> (r: (u64, u64))
    requires
        now >= QUERY_WINDOW_SECS,
    ensures
        r.1 == now - now % 3600,
        r.0 == r.1 - 3600,
{
    let end = now - now % QUERY_WINDOW_SECS;
    (end - QUERY_WINDOW_SECS, end)
}

} // verus!
