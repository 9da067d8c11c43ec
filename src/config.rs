//! The configuration of one run, with its defaults.
use vstd::prelude::*;
use crate::utilization::str_equals;

verus! {

/// The threshold used when none is given, in percent.
pub const DEFAULT_THRESHOLD: u8 = 75;

pub open spec fn default_region() -> Seq<char> {
    "us-east-1"@
}

pub open spec fn string_views(v: Seq<String>) -> Seq<Seq<char>> {
    v.map_values(|s: String| s@)
}

/// The regions in the order given, each kept at its first occurrence.
pub open spec fn distinct_in_order(v: Seq<Seq<char>>) -> Seq<Seq<char>>
    decreases v.len(),
{
    if v.len() == 0 {
        Seq::empty()
    } else {
        let d = distinct_in_order(v.drop_last());
        if d.contains(v.last()) {
            d
        } else {
            d.push(v.last())
        }
    }
}

fn contains_str(v: &Vec<String>, s: &str) -> (r: bool)
    ensures
        r == string_views(v@).contains(s@),
{
    let mut i: usize = 0;
    while i < v.len()
        invariant
            i <= v@.len(),
            forall|j: int| 0 <= j < i ==> (#[trigger] v@[j])@ != s@,
        decreases v@.len() - i,
    {
        if str_equals(v[i].as_str(), s) {
            assert(string_views(v@)[i as int] == s@);
            return true;
        }
        i = i + 1;
    }
    assert forall|j: int| 0 <= j < string_views(v@).len() implies string_views(v@)[j] != s@ by {
        assert(string_views(v@)[j] == v@[j]@);
    }
    false
}

/// The configuration of one run: the alert threshold, the regions to audit
/// (never empty) and the quota codes to leave out of breach evaluation.
pub struct Config {
    threshold: u8,
    regions: Vec<String>,
    ignored_quotas: Vec<String>,
}

/// The regions to audit: those given, without repeats, or the default
/// region when none are.
pub fn regions(given: Option<Vec<String>>) -> (r: Vec<String>)
    ensures
        match given {
            Some(v) if v@.len() > 0 => string_views(r@) == distinct_in_order(string_views(v@)),
            _ => string_views(r@) == seq![default_region()],
        },
        r@.len() > 0,
{
    match given {
        Some(v) => {
            if v.len() > 0 {
                let mut r: Vec<String> = Vec::new();
                let mut i: usize = 0;
                while i < v.len()
                    invariant
                        0 < v@.len(),
                        i <= v@.len(),
                        i > 0 ==> r@.len() > 0,
                        string_views(r@) == distinct_in_order(string_views(v@.subrange(0, i as int))),
                    decreases v@.len() - i,
                {
                    proof {
                        assert(string_views(v@.subrange(0, i + 1)).drop_last() =~= string_views(
                            v@.subrange(0, i as int),
                        ));
                        assert(string_views(v@.subrange(0, i + 1)).last() == v@[i as int]@);
                    }
                    if !contains_str(&r, v[i].as_str()) {
                        let ghost before = r@;
                        r.push(v[i].clone());
                        proof {
                            assert(string_views(r@) =~= string_views(before).push(v@[i as int]@));
                        }
                    }
                    i = i + 1;
                }
                assert(v@.subrange(0, i as int) =~= v@);
                return r;
            }
        },
        None => {},
    }
    let mut r: Vec<String> = Vec::new();
    r.push(String::from_str("us-east-1"));
    assert(string_views(r@) =~= seq![default_region()]);
    r
}

/// The alert threshold, a percentage: the one given, or the default.
pub fn threshold(given: Option<u8>) -> (r: u8)
    requires
        given matches Some(t) ==> t <= 100,
    ensures
        r <= 100,
        r == match given {
            Some(t) => t,
            None => DEFAULT_THRESHOLD,
        },
{
    match given {
        Some(t) => t,
        None => DEFAULT_THRESHOLD,
    }
}

/// The quota codes to ignore: those given, or none.
pub fn ignored_quotas(given: Option<Vec<String>>) -> (r: Vec<String>)
    ensures
        match given {
            Some(v) => r@ == v@,
            None => r@.len() == 0,
        },
{
    match given {
        Some(v) => v,
        None => Vec::new(),
    }
}

impl Config {
    /// The threshold is a percentage and there is at least one region.
    #[verifier::type_invariant]
    spec fn inv(&self) -> bool {
        self.threshold <= 100 && self.regions@.len() > 0
    }

    pub closed spec fn threshold_spec(&self) -> u8 {
        self.threshold
    }

    pub closed spec fn regions_spec(&self) -> Seq<String> {
        self.regions@
    }

    pub closed spec fn ignored_spec(&self) -> Seq<String> {
        self.ignored_quotas@
    }

    /// A configuration from what the operator gave, with the defaults for
    /// what they did not.
    pub fn new(
        threshold_arg: Option<u8>,
        regions_arg: Option<Vec<String>>,
        ignored_arg: Option<Vec<String>>,
    ) -> (r: Config)
        requires
            threshold_arg matches Some(t) ==> t <= 100,
        ensures
            r.threshold_spec() <= 100,
            r.threshold_spec() == match threshold_arg {
                Some(t) => t,
                None => DEFAULT_THRESHOLD,
            },
            r.regions_spec().len() > 0,
            match regions_arg {
                Some(v) if v@.len() > 0 => string_views(r.regions_spec()) == distinct_in_order(
                    string_views(v@),
                ),
                _ => string_views(r.regions_spec()) == seq![default_region()],
            },
            match ignored_arg {
                Some(v) => r.ignored_spec() == v@,
                None => r.ignored_spec().len() == 0,
            },
    {
        let rs = regions(regions_arg);
        Config {
            threshold: threshold(threshold_arg),
            regions: rs,
            ignored_quotas: ignored_quotas(ignored_arg),
        }
    }

    pub fn threshold(&self) -> (r: u8)
        ensures
            r == self.threshold_spec(),
            r <= 100,
    {
        proof {
            use_type_invariant(self);
        }
        self.threshold
    }

    pub fn regions(&self) -> (r: &Vec<String>)
        ensures
            r@ == self.regions_spec(),
            r@.len() > 0,
    {
        proof {
            use_type_invariant(self);
        }
        &self.regions
    }

    pub fn ignored_quotas(&self) -> (r: &Vec<String>)
        ensures
            r@ == self.ignored_spec(),
    {
        &self.ignored_quotas
    }
}

} // verus!
