//! Alert dispatch: the events sent to the alerting sink for breached quotas.
//! Each event carries a dedup key built from the quota's code, region and
//! account, so the sink can collapse repeated triggers for one quota.
use vstd::prelude::*;
use crate::arn::has_no;
use crate::breach::{is_ignored, is_ignored_code};
use crate::quota::{Quota, QuotaView};
use crate::utilization::state_value;

verus! {

/// What an event asks of the sink.
pub enum EventAction {
    Trigger,
    Resolve,
}

/// `trigger` when the utilization is resolved and at least the threshold,
/// `resolve` otherwise.
pub open spec fn action_for(utilization: Option<u8>, threshold: u8) -> EventAction {
    if utilization matches Some(u) && u >= threshold {
        EventAction::Trigger
    } else {
        EventAction::Resolve
    }
}

pub open spec fn action_name(a: EventAction) -> Seq<char> {
    match a {
        EventAction::Trigger => "trigger"@,
        EventAction::Resolve => "resolve"@,
    }
}

impl EventAction {
    /// The action's name as the sink expects it.
    pub fn name(&self) -> (r: String)
        ensures
            r@ == action_name(*self),
    {
        match self {
            EventAction::Trigger => String::from_str("trigger"),
            EventAction::Resolve => String::from_str("resolve"),
        }
    }
}

/// Chooses the action for a quota with this utilization.
pub fn trigger_action(utilization: Option<u8>, threshold: u8) -> (r: EventAction)
    ensures
        r == action_for(utilization, threshold),
{
    match utilization {
        Some(u) => if u >= threshold {
            EventAction::Trigger
        } else {
            EventAction::Resolve
        },
        None => EventAction::Resolve,
    }
}

/// The characters that a dedup key escapes inside a field.
pub open spec fn is_special(c: char) -> bool {
    c == '-' || c == '\\'
}

pub open spec fn escaped_char(c: char) -> Seq<char> {
    if is_special(c) {
        seq!['\\', c]
    } else {
        seq![c]
    }
}

/// `s` with a `\` before each `-` and each `\`.
pub open spec fn escaped(s: Seq<char>) -> Seq<char>
    decreases s.len(),
{
    if s.len() == 0 {
        Seq::empty()
    } else {
        escaped(s.drop_last()) + escaped_char(s.last())
    }
}

/// The fields as the provider issues them: no `\` anywhere, exactly one
/// `-` in the quota code (`L-XXXXXXXX`) and none in the account id.
pub open spec fn is_ordinary(quota_code: Seq<char>, region: Seq<char>, account_id: Seq<char>) -> bool {
    &&& has_no(quota_code, '\\')
    &&& has_no(region, '\\')
    &&& has_no(account_id, '\\')
    &&& one_dash(quota_code)
    &&& has_no(account_id, '-')
}

/// `s` holds exactly one `-`.
pub open spec fn one_dash(s: Seq<char>) -> bool {
    exists|i: int|
        0 <= i < s.len() && s[i] == '-' && forall|j: int| 0 <= j < s.len() && j != i ==> s[j] != '-'
}

/// The escaped quota code, region and account, separated by `-`.
pub open spec fn escaped_join(quota_code: Seq<char>, region: Seq<char>, account_id: Seq<char>) -> Seq<
    char,
> {
    escaped(quota_code) + seq!['-'] + escaped(region) + seq!['-'] + escaped(account_id)
}

/// The dedup key: `<code>-<region>-<account>` for ordinary fields; for any
/// others a `\` followed by the escaped fields separated by `-`.
pub open spec fn dedup_key_of(quota_code: Seq<char>, region: Seq<char>, account_id: Seq<char>) -> Seq<
    char,
> {
    if is_ordinary(quota_code, region, account_id) {
        quota_code + seq!['-'] + region + seq!['-'] + account_id
    } else {
        seq!['\\'] + escaped_join(quota_code, region, account_id)
    }
}

/// Whether `s` holds `c`.
fn has_char(s: &str, c: char) -> (r: bool)
    ensures
        r == !has_no(s@, c),
{
    let n = s.unicode_len();
    let mut i: usize = 0;
    while i < n
        invariant
            n == s@.len(),
            i <= n,
            forall|j: int| 0 <= j < i ==> s@[j] != c,
        decreases n - i,
    {
        if s.get_char(i) == c {
            return true;
        }
        i = i + 1;
    }
    false
}

/// Whether `s` holds exactly one `-`.
fn has_one_dash(s: &str) -> (r: bool)
    ensures
        r == one_dash(s@),
{
    let n = s.unicode_len();
    let mut i: usize = 0;
    let mut found: bool = false;
    let mut at: usize = 0;
    while i < n
        invariant
            n == s@.len(),
            i <= n,
            found ==> at < i && s@[at as int] == '-',
            found ==> forall|j: int| 0 <= j < i && j != at ==> s@[j] != '-',
            !found ==> forall|j: int| 0 <= j < i ==> s@[j] != '-',
        decreases n - i,
    {
        if s.get_char(i) == '-' {
            if found {
                assert forall|k: int|
                    0 <= k < s@.len() && s@[k] == '-' implies !(forall|j: int|
                    0 <= j < s@.len() && j != k ==> s@[j] != '-') by {
                    if k == at {
                        assert(s@[i as int] == '-');
                    } else {
                        assert(s@[at as int] == '-');
                    }
                }
                return false;
            }
            found = true;
            at = i;
        }
        i = i + 1;
    }
    if !found {
        return false;
    }
    assert(0 <= at < s@.len() && s@[at as int] == '-' && forall|j: int|
        0 <= j < s@.len() && j != at ==> s@[j] != '-');
    true
}

/// Appends `field` to `key` with its `-` and `\` escaped.
fn append_escaped(key: &mut String, field: &str)
    ensures
        final(key)@ == old(key)@ + escaped(field@),
{
    proof {
        reveal_strlit("\\");
        assert("\\"@ =~= seq!['\\']);
    }
    let ghost start = key@;
    let n = field.unicode_len();
    let mut i: usize = 0;
    assert(field@.subrange(0, 0) =~= Seq::<char>::empty());
    assert(start + escaped(Seq::<char>::empty()) =~= start);
    while i < n
        invariant
            n == field@.len(),
            i <= n,
            "\\"@ == seq!['\\'],
            key@ == start + escaped(field@.subrange(0, i as int)),
        decreases n - i,
    {
        let c = field.get_char(i);
        let ghost before = key@;
        proof {
            let s = field@.subrange(0, i + 1);
            assert(s.drop_last() =~= field@.subrange(0, i as int));
            assert(s.last() == c);
            assert(escaped(s) == escaped(field@.subrange(0, i as int)) + escaped_char(c));
        }
        if c == '-' || c == '\\' {
            key.append("\\");
            assert(key@ =~= before + seq!['\\']);
        }
        let ghost mid = key@;
        let piece = field.substring_char(i, i + 1);
        assert(piece@ =~= seq![c]);
        key.append(piece);
        proof {
            assert(key@ =~= mid + seq![c]);
            assert(key@ =~= before + escaped_char(c));
            assert(key@ =~= start + escaped(field@.subrange(0, i + 1)));
        }
        i = i + 1;
    }
    assert(field@.subrange(0, n as int) =~= field@);
}

/// The dedup key of a quota (see `dedup_key_of`): different quotas never
/// share a key, and quotas with provider-issued fields keep the plain
/// `<code>-<region>-<account>` form.
pub fn dedup_key(quota: &Quota) -> (r: String)
    ensures
        r@ == dedup_key_of(
            quota.view().parts.quota_code,
            quota.view().parts.region,
            quota.view().parts.account_id,
        ),
{
    proof {
        reveal_strlit("-");
        reveal_strlit("\\");
        assert("-"@ =~= seq!['-']);
        assert("\\"@ =~= seq!['\\']);
    }
    let code = quota.quota_code();
    let region = quota.region();
    let account = quota.account_id();
    let ordinary = !has_char(code, '\\') && !has_char(region, '\\') && !has_char(account, '\\')
        && has_one_dash(code) && !has_char(account, '-');
    let mut key = String::new();
    if ordinary {
        key.append(code);
        key.append("-");
        key.append(region);
        key.append("-");
        key.append(account);
    } else {
        key.append("\\");
        append_escaped(&mut key, code);
        key.append("-");
        append_escaped(&mut key, region);
        key.append("-");
        append_escaped(&mut key, account);
    }
    proof {
        let q = quota.view().parts;
        assert(key@ =~= dedup_key_of(q.quota_code, q.region, q.account_id));
    }
    key
}

proof fn lemma_escaped_concat(a: Seq<char>, b: Seq<char>)
    ensures
        escaped(a + b) == escaped(a) + escaped(b),
    decreases b.len(),
{
    if b.len() == 0 {
        assert(a + b =~= a);
        assert(escaped(a) + escaped(b) =~= escaped(a));
    } else {
        assert((a + b).drop_last() =~= a + b.drop_last());
        assert((a + b).last() == b.last());
        lemma_escaped_concat(a, b.drop_last());
        assert(escaped(a + b) =~= escaped(a) + escaped(b));
    }
}

proof fn lemma_escaped_front(s: Seq<char>)
    requires
        s.len() > 0,
    ensures
        escaped(s) == escaped_char(s[0]) + escaped(s.drop_first()),
{
    let head = seq![s[0]];
    assert(head + s.drop_first() =~= s);
    lemma_escaped_concat(head, s.drop_first());
    assert(head.drop_last() =~= Seq::<char>::empty());
    assert(head.last() == s[0]);
    assert(escaped(head.drop_last()) == Seq::<char>::empty());
    assert(escaped(head) == escaped(head.drop_last()) + escaped_char(s[0]));
    assert(escaped(head) =~= escaped_char(s[0]));
}

proof fn lemma_escaped_empty(s: Seq<char>)
    ensures
        escaped(s).len() == 0 <==> s.len() == 0,
    decreases s.len(),
{
    if s.len() > 0 {
        lemma_escaped_empty(s.drop_last());
    }
}

/// An escaped field followed by `-` can be read back: the field ends at the
/// first `-` that no `\` precedes.
proof fn lemma_unescape(a: Seq<char>, b: Seq<char>, r1: Seq<char>, r2: Seq<char>)
    requires
        escaped(a) + seq!['-'] + r1 == escaped(b) + seq!['-'] + r2,
    ensures
        a == b,
        r1 == r2,
    decreases a.len() + b.len(),
{
    let x = escaped(a) + seq!['-'] + r1;
    let y = escaped(b) + seq!['-'] + r2;
    lemma_escaped_empty(a);
    lemma_escaped_empty(b);
    if a.len() == 0 && b.len() == 0 {
        assert(x.drop_first() =~= r1);
        assert(y.drop_first() =~= r2);
    } else if a.len() == 0 {
        lemma_escaped_front(b);
        assert(x[0] == '-');
        assert(y[0] == escaped(b)[0]);
        assert(escaped(b)[0] == escaped_char(b[0])[0]);
    } else if b.len() == 0 {
        lemma_escaped_front(a);
        assert(y[0] == '-');
        assert(x[0] == escaped(a)[0]);
        assert(escaped(a)[0] == escaped_char(a[0])[0]);
    } else {
        lemma_escaped_front(a);
        lemma_escaped_front(b);
        let ea = escaped_char(a[0]);
        let eb = escaped_char(b[0]);
        let xa = escaped(a.drop_first()) + seq!['-'] + r1;
        let yb = escaped(b.drop_first()) + seq!['-'] + r2;
        assert(x =~= ea + xa);
        assert(y =~= eb + yb);
        assert(x[0] == ea[0]);
        assert(y[0] == eb[0]);
        if is_special(a[0]) {
            assert(is_special(b[0]));
            assert(x[1] == a[0]);
            assert(y[1] == b[0]);
        } else {
            assert(!is_special(b[0]));
        }
        assert(a[0] == b[0]);
        assert(ea == eb);
        assert(x.subrange(ea.len() as int, x.len() as int) =~= xa);
        assert(y.subrange(eb.len() as int, y.len() as int) =~= yb);
        lemma_unescape(a.drop_first(), b.drop_first(), r1, r2);
        assert(a =~= seq![a[0]] + a.drop_first());
        assert(b =~= seq![b[0]] + b.drop_first());
    }
}

proof fn lemma_escaped_join_distinct(
    c1: Seq<char>,
    r1: Seq<char>,
    a1: Seq<char>,
    c2: Seq<char>,
    r2: Seq<char>,
    a2: Seq<char>,
)
    requires
        escaped_join(c1, r1, a1) == escaped_join(c2, r2, a2),
    ensures
        c1 == c2 && r1 == r2 && a1 == a2,
{
    let k1 = escaped_join(c1, r1, a1);
    let k2 = escaped_join(c2, r2, a2);
    let t1 = escaped(r1) + seq!['-'] + escaped(a1);
    let t2 = escaped(r2) + seq!['-'] + escaped(a2);
    assert(k1 =~= escaped(c1) + seq!['-'] + t1);
    assert(k2 =~= escaped(c2) + seq!['-'] + t2);
    lemma_unescape(c1, c2, t1, t2);
    lemma_unescape(r1, r2, escaped(a1), escaped(a2));
    assert(escaped(a1) + seq!['-'] + Seq::<char>::empty() =~= escaped(a2) + seq!['-']
        + Seq::<char>::empty());
    lemma_unescape(a1, a2, Seq::<char>::empty(), Seq::<char>::empty());
}

/// With one `-` in each code and none in each account, the plain join can
/// be read back: the code ends at the key's second `-`, the account starts
/// after its last.
proof fn lemma_plain_join_distinct(
    c1: Seq<char>,
    r1: Seq<char>,
    a1: Seq<char>,
    c2: Seq<char>,
    r2: Seq<char>,
    a2: Seq<char>,
)
    requires
        one_dash(c1),
        one_dash(c2),
        has_no(a1, '-'),
        has_no(a2, '-'),
        c1 + seq!['-'] + r1 + seq!['-'] + a1 == c2 + seq!['-'] + r2 + seq!['-'] + a2,
    ensures
        c1 == c2 && r1 == r2 && a1 == a2,
{
    let k = c1 + seq!['-'] + r1 + seq!['-'] + a1;
    let k2 = c2 + seq!['-'] + r2 + seq!['-'] + a2;
    let n1 = c1.len() as int;
    let n2 = c2.len() as int;
    let i1 = choose|i: int|
        0 <= i < c1.len() && c1[i] == '-' && forall|j: int|
            0 <= j < c1.len() && j != i ==> c1[j] != '-';
    let i2 = choose|i: int|
        0 <= i < c2.len() && c2[i] == '-' && forall|j: int|
            0 <= j < c2.len() && j != i ==> c2[j] != '-';
    if n1 < n2 {
        assert(k[n1] == '-');
        assert(k2[n1] == c2[n1]);
        assert(k[i1] == c1[i1]);
        assert(k2[i1] == c2[i1]);
    } else if n2 < n1 {
        assert(k2[n2] == '-');
        assert(k[n2] == c1[n2]);
        assert(k2[i2] == c2[i2]);
        assert(k[i2] == c1[i2]);
    }
    assert(n1 == n2);
    assert(k.subrange(0, n1) =~= c1);
    assert(k2.subrange(0, n1) =~= c2);
    let len = k.len() as int;
    let m1 = a1.len() as int;
    let m2 = a2.len() as int;
    if m1 < m2 {
        assert(k[len - m1 - 1] == '-');
        assert(k2[len - m1 - 1] == a2[m2 - m1 - 1]);
    } else if m2 < m1 {
        assert(k2[len - m2 - 1] == '-');
        assert(k[len - m2 - 1] == a1[m1 - m2 - 1]);
    }
    assert(m1 == m2);
    assert(k.subrange(len - m1, len) =~= a1);
    assert(k2.subrange(len - m1, len) =~= a2);
    assert(k.subrange(n1 + 1, len - m1 - 1) =~= r1);
    assert(k2.subrange(n1 + 1, len - m1 - 1) =~= r2);
}

/// Two quotas share a dedup key exactly when their codes, regions and
/// accounts are all the same.
pub proof fn lemma_dedup_key_distinct(
    c1: Seq<char>,
    r1: Seq<char>,
    a1: Seq<char>,
    c2: Seq<char>,
    r2: Seq<char>,
    a2: Seq<char>,
)
    ensures
        (c1 == c2 && r1 == r2 && a1 == a2) <==> dedup_key_of(c1, r1, a1) == dedup_key_of(c2, r2, a2),
{
    let k1 = dedup_key_of(c1, r1, a1);
    let k2 = dedup_key_of(c2, r2, a2);
    if k1 == k2 {
        let o1 = is_ordinary(c1, r1, a1);
        let o2 = is_ordinary(c2, r2, a2);
        if o1 && o2 {
            lemma_plain_join_distinct(c1, r1, a1, c2, r2, a2);
        } else if !o1 && !o2 {
            assert(k1.drop_first() =~= escaped_join(c1, r1, a1));
            assert(k2.drop_first() =~= escaped_join(c2, r2, a2));
            lemma_escaped_join_distinct(c1, r1, a1, c2, r2, a2);
        } else if o1 {
            // an ordinary code is not empty and does not start with `\`
            assert(c1.len() > 0);
            assert(k1[0] == c1[0]);
            assert(k2[0] == '\\');
        } else {
            assert(c2.len() > 0);
            assert(k2[0] == c2[0]);
            assert(k1[0] == '\\');
        }
    }
}

pub open spec fn decimal_digits() -> Seq<char> {
    "0123456789"@
}

/// The decimal notation of `n`.
pub open spec fn decimal_of(n: nat) -> Seq<char>
    decreases n,
{
    if n < 10 {
        decimal_digits().subrange(n as int, n as int + 1)
    } else {
        decimal_of(n / 10) + decimal_digits().subrange((n % 10) as int, (n % 10) as int + 1)
    }
}

fn digit(d: u8) -> (r: &'static str)
    requires
        d < 10,
    ensures
        r@ == decimal_digits().subrange(d as int, d + 1),
{
    let digits = "0123456789";
    proof {
        reveal_strlit("0123456789");
    }
    digits.substring_char(d as usize, (d + 1) as usize)
}

/// `n` in decimal notation.
pub fn decimal(n: u8) -> (r: String)
    ensures
        r@ == decimal_of(n as nat),
{
    proof {
        reveal_strlit("0123456789");
        assert(decimal_digits().len() == 10);
    }
    let ghost d = |k: int| decimal_digits().subrange(k, k + 1);
    if n < 10 {
        String::from_str(digit(n))
    } else if n < 100 {
        let mut s = String::from_str(digit(n / 10));
        s.append(digit(n % 10));
        proof {
            assert(decimal_of((n / 10) as nat) == d((n / 10) as int));
            assert(decimal_of(n as nat) == decimal_of((n / 10) as nat) + d((n % 10) as int));
        }
        s
    } else {
        let mut s = String::from_str(digit(n / 100));
        s.append(digit(n / 10 % 10));
        s.append(digit(n % 10));
        proof {
            let t = (n / 10) as nat;
            assert(t / 10 == n / 100);
            assert(decimal_of(t / 10) == d((n / 100) as int));
            assert(decimal_of(t) == decimal_of(t / 10) + d((t % 10) as int));
            assert(decimal_of(n as nat) == decimal_of(t) + d((n % 10) as int));
            assert(s@ =~= decimal_of(n as nat));
        }
        s
    }
}

pub open spec fn service_quota_url_of(q: QuotaView) -> Seq<char> {
    "https://"@ + q.parts.region + ".console.aws.amazon.com/servicequotas/home/services/"@
        + q.parts.service_code + "/quotas/"@ + q.parts.quota_code
}

/// The console address of a quota.
pub fn service_quota_url(quota: &Quota) -> (r: String)
    ensures
        r@ == service_quota_url_of(quota.view()),
{
    let mut url = String::from_str("https://");
    url.append(quota.region());
    url.append(".console.aws.amazon.com/servicequotas/home/services/");
    url.append(quota.service_code());
    url.append("/quotas/");
    url.append(quota.quota_code());
    url
}

pub open spec fn summary_of(q: QuotaView, utilization: u8) -> Seq<char> {
    "Service Quota Utilization "@ + decimal_of(utilization as nat) + "%: "@ + q.parts.quota_code
        + " - "@ + q.name + " in "@ + q.parts.account_id + " - "@ + q.parts.region
}

/// One line that describes the quota's state.
pub fn summary(quota: &Quota, utilization: u8) -> (r: String)
    ensures
        r@ == summary_of(quota.view(), utilization),
{
    let mut s = String::from_str("Service Quota Utilization ");
    let pct = decimal(utilization);
    s.append(pct.as_str());
    s.append("%: ");
    s.append(quota.quota_code());
    s.append(" - ");
    s.append(quota.name());
    s.append(" in ");
    s.append(quota.account_id());
    s.append(" - ");
    s.append(quota.region());
    s
}

/// Details of the quota that an event carries.
pub struct CustomDetails {
    pub arn: String,
    pub account_id: String,
    pub service: String,
    pub region: String,
    pub quota_name: String,
    pub quota_code: String,
    pub utilization_percentage: u8,
    pub threshold: u8,
    pub service_quota_url: String,
}

/// What the event says, for people.
pub struct Payload {
    pub summary: String,
    pub source: String,
    pub severity: String,
    pub custom_details: CustomDetails,
}

/// One event for the alerting sink.
pub struct NotifyBody {
    pub routing_key: String,
    pub event_action: String,
    pub dedup_key: String,
    pub payload: Payload,
}

/// Where and how events are sent.
pub struct AlertSettings {
    pub routing_key: String,
    pub threshold: u8,
    pub ignored_quotas: Option<Vec<String>>,
    /// Names the sender in each event.
    pub source: String,
}

pub open spec fn ignored_by(s: AlertSettings, code: Seq<char>) -> bool {
    match s.ignored_quotas {
        Some(v) => is_ignored(v@, code),
        None => false,
    }
}

/// `b` is the event for quota `q`, whose utilization is `u`.
pub open spec fn is_event_for(b: NotifyBody, q: QuotaView, u: u8, s: AlertSettings) -> bool {
    &&& b.routing_key@ == s.routing_key@
    &&& b.event_action@ == action_name(action_for(Some(u), s.threshold))
    &&& b.dedup_key@ == dedup_key_of(q.parts.quota_code, q.parts.region, q.parts.account_id)
    &&& b.payload.summary@ == summary_of(q, u)
    &&& b.payload.source@ == s.source@
    &&& b.payload.severity@ == "warning"@
    &&& b.payload.custom_details.arn@ == q.arn
    &&& b.payload.custom_details.account_id@ == q.parts.account_id
    &&& b.payload.custom_details.service@ == q.parts.service_code
    &&& b.payload.custom_details.region@ == q.parts.region
    &&& b.payload.custom_details.quota_name@ == q.name
    &&& b.payload.custom_details.quota_code@ == q.parts.quota_code
    &&& b.payload.custom_details.utilization_percentage == u
    &&& b.payload.custom_details.threshold == s.threshold
    &&& b.payload.custom_details.service_quota_url@ == service_quota_url_of(q)
}

/// Whether a quota gets an event: its code is not ignored and its
/// utilization is resolved.
pub open spec fn is_notified(q: QuotaView, s: AlertSettings) -> bool {
    !ignored_by(s, q.parts.quota_code) && state_value(q.state) is Some
}

/// The event for `quota`, or `None` when it is ignored or its utilization
/// is not resolved.
pub fn notify_body(quota: &Quota, settings: &AlertSettings) -> (r: Option<NotifyBody>)
    ensures
        r is Some <==> is_notified(quota.view(), *settings),
        r matches Some(b) ==> is_event_for(
            b,
            quota.view(),
            state_value(quota.view().state)->Some_0,
            *settings,
        ),
{
    let ignored = match &settings.ignored_quotas {
        Some(v) => is_ignored_code(v, quota.quota_code()),
        None => false,
    };
    if ignored {
        return None;
    }
    let u = match quota.utilization_value() {
        Some(u) => u,
        None => {
            return None;
        },
    };
    let details = CustomDetails {
        arn: String::from_str(quota.arn()),
        account_id: String::from_str(quota.account_id()),
        service: String::from_str(quota.service_code()),
        region: String::from_str(quota.region()),
        quota_name: String::from_str(quota.name()),
        quota_code: String::from_str(quota.quota_code()),
        utilization_percentage: u,
        threshold: settings.threshold,
        service_quota_url: service_quota_url(quota),
    };
    let payload = Payload {
        summary: summary(quota, u),
        source: settings.source.clone(),
        severity: String::from_str("warning"),
        custom_details: details,
    };
    Some(
        NotifyBody {
            routing_key: settings.routing_key.clone(),
            event_action: trigger_action(Some(u), settings.threshold).name(),
            dedup_key: dedup_key(quota),
            payload,
        },
    )
}

/// `bodies` holds, in order, one event for each selected quota that is
/// notified.
pub open spec fn plans(
    bodies: Seq<NotifyBody>,
    qs: Seq<Quota>,
    selected: Seq<usize>,
    s: AlertSettings,
) -> bool
    decreases selected.len(),
{
    if selected.len() == 0 {
        bodies.len() == 0
    } else {
        let q = qs[selected.last() as int].view();
        if is_notified(q, s) {
            bodies.len() > 0 && is_event_for(bodies.last(), q, state_value(q.state)->Some_0, s)
                && plans(bodies.drop_last(), qs, selected.drop_last(), s)
        } else {
            plans(bodies, qs, selected.drop_last(), s)
        }
    }
}

/// The events to send for the selected quotas: exactly one per selected
/// quota that is notified, in the order selected.
pub fn plan_notifications(quotas: &Vec<Quota>, selected: &Vec<usize>, settings: &AlertSettings) -> (r:
    Vec<NotifyBody>)
    requires
        forall|k: int| 0 <= k < selected@.len() ==> (#[trigger] selected@[k]) < quotas@.len(),
    ensures
        plans(r@, quotas@, selected@, *settings),
{
    let mut bodies: Vec<NotifyBody> = Vec::new();
    let mut k: usize = 0;
    while k < selected.len()
        invariant
            k <= selected@.len(),
            forall|j: int| 0 <= j < selected@.len() ==> (#[trigger] selected@[j]) < quotas@.len(),
            plans(bodies@, quotas@, selected@.subrange(0, k as int), *settings),
        decreases selected@.len() - k,
    {
        let ghost before = bodies@;
        let i = selected[k];
        let ghost sel = selected@.subrange(0, k + 1);
        proof {
            assert(sel.drop_last() =~= selected@.subrange(0, k as int));
            assert(sel.last() == i);
        }
        match notify_body(&quotas[i], settings) {
            Some(b) => {
                bodies.push(b);
                proof {
                    assert(bodies@.drop_last() =~= before);
                }
            },
            None => {},
        }
        k = k + 1;
    }
    assert(selected@.subrange(0, k as int) =~= selected@);
    bodies
}

/// Sending one quota twice makes two events that carry the same dedup key.
pub proof fn lemma_repeat_same_key(
    bodies: Seq<NotifyBody>,
    qs: Seq<Quota>,
    i: usize,
    s: AlertSettings,
)
    requires
        i < qs.len(),
        is_notified(qs[i as int].view(), s),
        plans(bodies, qs, seq![i, i], s),
    ensures
        bodies.len() == 2,
        bodies[0].dedup_key@ == bodies[1].dedup_key@,
        bodies[0].dedup_key@ == dedup_key_of(
            qs[i as int].view().parts.quota_code,
            qs[i as int].view().parts.region,
            qs[i as int].view().parts.account_id,
        ),
{
    let one = seq![i, i].drop_last();
    assert(one =~= seq![i]);
    assert(one.drop_last() =~= Seq::<usize>::empty());
    let b1 = bodies.drop_last();
    assert(plans(b1, qs, one, s));
    assert(plans(b1.drop_last(), qs, one.drop_last(), s));
    assert(b1.drop_last().len() == 0);
    assert(bodies[0] == b1.last());
}

/// A failed delivery of an event.
pub enum ClientError {
    /// The request did not complete; the text says why.
    RequestError(String),
    /// The sink answered with a status other than accepted, and this body.
    PagerdutyApiError(u16, String),
}

/// The status with which the sink accepts an event.
pub const ACCEPTED: u16 = 202;

/// Classifies the sink's answer: accepted, or an error with its status and body.
pub fn check_response(status: u16, body: String) -> (r: Result<(), ClientError>)
    ensures
        status == ACCEPTED <==> r is Ok,
        r matches Err(e) ==> e matches ClientError::PagerdutyApiError(c, t) && c == status && t
            == body,
{
    if status == ACCEPTED {
        Ok(())
    } else {
        Err(ClientError::PagerdutyApiError(status, body))
    }
}

} // verus!
