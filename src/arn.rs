//! Parsing of service-quota resource identifiers.
//!
//! An identifier has the shape
//! `arn:<partition>:servicequotas:<region>:<account>:<service-code>/<quota-code>`:
//! the quota code follows the last `/`, and what precedes it splits on `:`
//! into exactly six fields.
use vstd::prelude::*;

verus! {

/// Position of the last `/` in `s`, or `-1` when there is none.
pub open spec fn last_slash(s: Seq<char>) -> int
    decreases s.len(),
{
    if s.len() == 0 {
        -1
    } else if s.last() == '/' {
        s.len() - 1
    } else {
        last_slash(s.drop_last())
    }
}

/// The fields of `s` separated by `:`, as `str::split(':')` yields them
/// (an empty input has one empty field).
pub open spec fn colon_fields(s: Seq<char>) -> Seq<Seq<char>>
    decreases s.len(),
{
    if s.len() == 0 {
        seq![Seq::<char>::empty()]
    } else {
        let f = colon_fields(s.drop_last());
        if s.last() == ':' {
            f.push(Seq::<char>::empty())
        } else {
            f.update(f.len() - 1, f.last().push(s.last()))
        }
    }
}

/// The fields joined back together with `:` between them.
pub open spec fn colon_join(f: Seq<Seq<char>>) -> Seq<char>
    decreases f.len(),
{
    if f.len() == 0 {
        Seq::<char>::empty()
    } else if f.len() == 1 {
        f[0]
    } else {
        colon_join(f.drop_last()) + seq![':'] + f.last()
    }
}

pub open spec fn has_no(s: Seq<char>, c: char) -> bool {
    forall|i: int| 0 <= i < s.len() ==> s[i] != c
}

/// The components of a parsed identifier, as character sequences.
pub struct ArnParts {
    pub region: Seq<char>,
    pub account_id: Seq<char>,
    pub service_code: Seq<char>,
    pub quota_code: Seq<char>,
}

/// What parsing `s` yields: `None` when `s` has no `/`, or when the part
/// before its last `/` does not have exactly six `:`-separated fields.
pub open spec fn parse_arn_spec(s: Seq<char>) -> Option<ArnParts> {
    let k = last_slash(s);
    if k < 0 {
        None
    } else {
        let f = colon_fields(s.subrange(0, k));
        if f.len() != 6 {
            None
        } else {
            Some(
                ArnParts {
                    region: f[3],
                    account_id: f[4],
                    service_code: f[5],
                    quota_code: s.subrange(k + 1, s.len() as int),
                },
            )
        }
    }
}

/// The four components of an identifier.
pub struct ParsedArn {
    pub region: String,
    pub account_id: String,
    pub service_code: String,
    pub quota_code: String,
}

impl ParsedArn {
    pub open spec fn parts(&self) -> ArnParts {
        ArnParts {
            region: self.region@,
            account_id: self.account_id@,
            service_code: self.service_code@,
            quota_code: self.quota_code@,
        }
    }
}

/// A malformed identifier; the error carries the identifier as given.
pub enum QuotaError {
    ArnFormatError(String),
}

impl QuotaError {
    pub open spec fn text(&self) -> Seq<char> {
        match self {
            QuotaError::ArnFormatError(s) => s@,
        }
    }

    /// A line of text describing the error.
    pub fn message(&self) -> (r: String)
        ensures
            r@ == "ArnFormatError: "@ + self.text(),
    {
        match self {
            QuotaError::ArnFormatError(s) => {
                let r = String::from_str("ArnFormatError: ");
                r.concat(s.as_str())
            },
        }
    }
}

pub proof fn lemma_colon_fields_nonempty(s: Seq<char>)
    ensures
        colon_fields(s).len() >= 1,
    decreases s.len(),
{
    if s.len() > 0 {
        lemma_colon_fields_nonempty(s.drop_last());
    }
}

proof fn lemma_last_slash_at(s: Seq<char>, k: int)
    requires
        -1 <= k < s.len(),
        k >= 0 ==> s[k] == '/',
        forall|j: int| k < j < s.len() ==> s[j] != '/',
    ensures
        last_slash(s) == k,
    decreases s.len(),
{
    if s.len() > 0 && s.last() != '/' {
        lemma_last_slash_at(s.drop_last(), k);
    }
}

/// Splits `arn` into its components.
pub fn parse_arn(arn: &str) -> (r: Result<ParsedArn, QuotaError>)
    ensures
        match r {
            Ok(p) => parse_arn_spec(arn@) == Some(p.parts()),
            Err(e) => parse_arn_spec(arn@) is None && e.text() == arn@,
        },
{
    let ghost s = arn@;
    let n = arn.unicode_len();
    // the last '/'
    let mut i: usize = n;
    let mut found: bool = false;
    while i > 0 && !found
        invariant
            s == arn@,
            i <= n == s.len(),
            found ==> i < n && s[i as int] == '/',
            forall|j: int| i < j < n ==> s[j] != '/',
            !found ==> forall|j: int| i <= j < n ==> s[j] != '/',
        decreases i,
    {
        if arn.get_char(i - 1) == '/' {
            found = true;
        }
        i = i - 1;
    }
    if !found {
        proof {
            lemma_last_slash_at(s, -1);
        }
        return Err(QuotaError::ArnFormatError(String::from_str(arn)));
    }
    let slash = i;
    proof {
        lemma_last_slash_at(s, slash as int);
    }
    let ghost prefix = s.subrange(0, slash as int);
    // the ':'-separated fields before it
    let mut fields: Vec<String> = Vec::new();
    let mut start: usize = 0;
    let mut j: usize = 0;
    assert(s.subrange(0, 0) =~= Seq::<char>::empty());
    assert(fields@.map_values(|f: String| f@).push(s.subrange(0, 0)) =~= seq![Seq::<char>::empty()]);
    while j < slash
        invariant
            s == arn@,
            slash < n == s.len(),
            prefix == s.subrange(0, slash as int),
            start <= j <= slash,
            colon_fields(s.subrange(0, j as int)) == fields@.map_values(|f: String| f@).push(
                s.subrange(start as int, j as int),
            ),
        decreases slash - j,
    {
        let c = arn.get_char(j);
        proof {
            assert(s.subrange(0, j + 1).drop_last() =~= s.subrange(0, j as int));
            assert(s.subrange(0, j + 1).last() == c);
        }
        if c == ':' {
            let field = arn.substring_char(start, j);
            fields.push(String::from_str(field));
            start = j + 1;
            proof {
                assert(s.subrange(start as int, j + 1) =~= Seq::<char>::empty());
                assert(colon_fields(s.subrange(0, j + 1)) =~= fields@.map_values(|f: String| f@).push(
                    s.subrange(start as int, j + 1),
                ));
            }
        } else {
            proof {
                assert(s.subrange(start as int, j + 1) =~= s.subrange(start as int, j as int).push(c));
                assert(colon_fields(s.subrange(0, j + 1)) =~= fields@.map_values(|f: String| f@).push(
                    s.subrange(start as int, j + 1),
                ));
            }
        }
        j = j + 1;
    }
    let last_field = String::from_str(arn.substring_char(start, slash));
    fields.push(last_field);
    assert(fields@.map_values(|f: String| f@) =~= colon_fields(prefix));
    if fields.len() != 6 {
        return Err(QuotaError::ArnFormatError(String::from_str(arn)));
    }
    let quota_code = String::from_str(arn.substring_char(slash + 1, n));
    let service_code = fields.pop().unwrap();
    let account_id = fields.pop().unwrap();
    let region = fields.pop().unwrap();
    assert(fields@.map_values(|f: String| f@).len() == 3);
    Ok(ParsedArn { region, account_id, service_code, quota_code })
}

proof fn lemma_fields_append_plain(p: Seq<char>, b: Seq<char>)
    requires
        has_no(b, ':'),
    ensures
        colon_fields(p + b) == colon_fields(p).update(
            colon_fields(p).len() - 1,
            colon_fields(p).last() + b,
        ),
    decreases b.len(),
{
    lemma_colon_fields_nonempty(p);
    let f = colon_fields(p);
    if b.len() == 0 {
        assert(p + b =~= p);
        assert(f.last() + b =~= f.last());
        assert(f.update(f.len() - 1, f.last()) =~= f);
    } else {
        let b0 = b.drop_last();
        assert((p + b).drop_last() =~= p + b0);
        lemma_fields_append_plain(p, b0);
        assert(f.last() + b0 + seq![b.last()] =~= f.last() + b);
        assert((f.last() + b0).push(b.last()) =~= f.last() + b);
        assert(colon_fields(p + b) =~= f.update(f.len() - 1, f.last() + b));
    }
}

proof fn lemma_fields_append_field(p: Seq<char>, b: Seq<char>)
    requires
        has_no(b, ':'),
    ensures
        colon_fields(p + seq![':'] + b) == colon_fields(p).push(b),
{
    let q = p + seq![':'];
    assert(q.drop_last() =~= p);
    assert(colon_fields(q) == colon_fields(p).push(Seq::<char>::empty()));
    lemma_fields_append_plain(q, b);
    assert(Seq::<char>::empty() + b =~= b);
    assert(colon_fields(q + b) =~= colon_fields(p).push(b));
}

proof fn lemma_fields_of_join(f: Seq<Seq<char>>)
    requires
        f.len() >= 1,
        forall|i: int| 0 <= i < f.len() ==> has_no(#[trigger] f[i], ':'),
    ensures
        colon_fields(colon_join(f)) == f,
    decreases f.len(),
{
    if f.len() == 1 {
        lemma_fields_append_plain(Seq::<char>::empty(), f[0]);
        assert(Seq::<char>::empty() + f[0] =~= f[0]);
        assert(colon_fields(Seq::<char>::empty()).update(0, Seq::<char>::empty() + f[0]) =~= f);
    } else {
        let g = f.drop_last();
        assert forall|i: int| 0 <= i < g.len() implies has_no(#[trigger] g[i], ':') by {
            assert(g[i] == f[i]);
        }
        lemma_fields_of_join(g);
        assert(has_no(f[f.len() - 1], ':'));
        lemma_fields_append_field(colon_join(g), f.last());
        assert(g.push(f.last()) =~= f);
    }
}

/// Parsing recovers the components of any identifier built from six
/// `:`-free fields and a `/`-free quota code: the region, account and
/// service code are the fourth, fifth and sixth fields.
pub proof fn lemma_parse_round_trip(f: Seq<Seq<char>>, quota_code: Seq<char>)
    requires
        f.len() == 6,
        forall|i: int| 0 <= i < 6 ==> has_no(#[trigger] f[i], ':'),
        has_no(quota_code, '/'),
    ensures
        parse_arn_spec(colon_join(f) + seq!['/'] + quota_code) == Some(
            ArnParts {
                region: f[3],
                account_id: f[4],
                service_code: f[5],
                quota_code: quota_code,
            },
        ),
{
    let p = colon_join(f);
    let s = p + seq!['/'] + quota_code;
    assert forall|j: int| p.len() < j < s.len() implies s[j] != '/' by {
        assert(s[j] == quota_code[j - p.len() - 1]);
    }
    lemma_last_slash_at(s, p.len() as int);
    assert(s.subrange(0, p.len() as int) =~= p);
    assert(s.subrange(p.len() as int + 1, s.len() as int) =~= quota_code);
    lemma_fields_of_join(f);
}

/// Parsing fails exactly on identifiers without a `/`, or whose part before
/// the last `/` does not have six `:`-separated fields.
pub proof fn lemma_parse_rejects(s: Seq<char>)
    ensures
        parse_arn_spec(s) is None <==> (has_no(s, '/') || colon_fields(
            s.subrange(0, last_slash(s)),
        ).len() != 6),
{
    if has_no(s, '/') {
        lemma_last_slash_at(s, -1);
    } else {
        lemma_last_slash_bounds(s);
    }
}

proof fn lemma_last_slash_bounds(s: Seq<char>)
    ensures
        -1 <= last_slash(s) < s.len(),
        last_slash(s) >= 0 ==> s[last_slash(s)] == '/',
        last_slash(s) < 0 ==> has_no(s, '/'),
    decreases s.len(),
{
    if s.len() > 0 && s.last() != '/' {
        lemma_last_slash_bounds(s.drop_last());
        assert forall|i: int| 0 <= i < s.len() && last_slash(s) < 0 implies s[i] != '/' by {
            if i < s.len() - 1 {
                assert(s.drop_last()[i] == s[i]);
            }
        }
    }
}

} // verus!
