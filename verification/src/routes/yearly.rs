//! Yearly-resolution queries: the roll-up of all years, optionally
//! bounded by inclusive year numbers, and single-year lookups.

use vstd::prelude::*;
use crate::boundary::{parse_year_boundary, spec_year_boundary};
use crate::cases::{
    DailyCase, DailyCases, YearlyCase, YearlyCases, is_yearly_rollup, lemma_sel_push,
    lemma_sel_wf, sel, sel_year, yearly_entry_matches,
};

verus! {

/// How a yearly endpoint fails: a rejected request, an upstream failure,
/// or no data for the requested year.
#[derive(Debug)]
pub enum YearlyEndpointError {
    BadRequest(String),
    UnexpectedError(String),
    ResourceNotFound(String),
}

impl YearlyEndpointError {
    /// The message carried by the error.
    pub fn message(self) -> (r: String)
        ensures
            self matches YearlyEndpointError::BadRequest(m) ==> r@ == m@,
            self matches YearlyEndpointError::UnexpectedError(m) ==> r@ == m@,
            self matches YearlyEndpointError::ResourceNotFound(m) ==> r@ == m@,
    {
        match self {
            YearlyEndpointError::BadRequest(m) => m,
            YearlyEndpointError::UnexpectedError(m) => m,
            YearlyEndpointError::ResourceNotFound(m) => m,
        }
    }
}

/// Parse a raw year bound permissively: a missing or malformed value
/// becomes no bound.
pub fn parse_year_bound(raw: &Option<String>) -> (r: Option<i32>)
    ensures
        (match raw {
            Some(s) => r == spec_year_boundary(s@),
            None => r is None,
        }),
{
    match raw {
        Some(s) => parse_year_boundary(s.as_str()),
        None => None,
    }
}

/// The record's year lies within the inclusive bounds.
pub open spec fn in_year_range(c: DailyCase, since: Option<i32>, upto: Option<i32>) -> bool {
    &&& (match since {
        Some(y) => c.year >= y,
        None => true,
    })
    &&& (match upto {
        Some(y) => c.year <= y,
        None => true,
    })
}

pub open spec fn year_range_pred(since: Option<i32>, upto: Option<i32>) -> spec_fn(
    DailyCase,
) -> bool {
    |c: DailyCase| in_year_range(c, since, upto)
}

/// Keep the records within the year bounds, in order.
fn filter_year_range(v: Vec<DailyCase>, since: Option<i32>, upto: Option<i32>) -> (r: Vec<
    DailyCase,
>)
    ensures
        r@ == sel(v@, year_range_pred(since, upto)),
{
    let ghost sq = v@;
    let n = v.len();
    let mut out: Vec<DailyCase> = Vec::new();
    let mut i: usize = 0;
    while i < n
        invariant
            i <= n,
            n == sq.len(),
            v@ == sq,
            out@ == sel(sq.take(i as int), year_range_pred(since, upto)),
        decreases n - i,
    {
        let c = v[i];
        proof {
            assert(sq.take(i as int + 1) =~= sq.take(i as int).push(sq[i as int]));
            lemma_sel_push(sq.take(i as int), year_range_pred(since, upto), sq[i as int]);
        }
        let ok_since = match since {
            Some(y) => c.year >= y,
            None => true,
        };
        let ok_upto = match upto {
            Some(y) => c.year <= y,
            None => true,
        };
        if ok_since && ok_upto {
            out.push(c);
        }
        i += 1;
    }
    proof {
        assert(sq.take(n as int) =~= sq);
    }
    out
}

/// The yearly roll-up of the records within the bounds.
pub fn all_years(cases: DailyCases, since: Option<i32>, upto: Option<i32>) -> (r: YearlyCases)
    requires
        cases.wf(),
    ensures
        is_yearly_rollup(sel(cases@, year_range_pred(since, upto)), r@),
{
    proof {
        lemma_sel_wf(cases@, year_range_pred(since, upto));
    }
    let filtered = DailyCases(filter_year_range(cases.0, since, upto));
    filtered.to_yearly()
}

/// The yearly roll-up entry of one year; `Err` exactly when the year has
/// no records.
pub fn specific_year(cases: DailyCases, year: i32) -> (r: Result<YearlyCase, YearlyEndpointError>)
    requires
        cases.wf(),
    ensures
        r is Ok <==> sel_year(cases@, year as int).len() > 0,
        r matches Ok(yc) ==> yc.year == year && yearly_entry_matches(cases@, yc),
        r matches Err(e) ==> e matches YearlyEndpointError::ResourceNotFound(m) && m@
            == "Year not found"@,
{
    match cases.to_specific_yearly(year) {
        Ok(yc) => Ok(yc),
        Err(m) => Err(YearlyEndpointError::ResourceNotFound(m)),
    }
}

} // verus!
