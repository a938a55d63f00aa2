//! Daily-resolution queries: the full series and its per-year, per-month
//! and per-day views, with optional inclusive day-granularity bounds.

use vstd::prelude::*;
use crate::boundary::{YearMonthDay, parse_day_boundary, spec_day_boundary};
use crate::calendar::{date_le, date_le_exec};
use crate::cases::{DailyCase, DailyCases, lemma_sel_push, lemma_sel_wf, sel, sel_year, sel_ym};

verus! {

/// How a daily endpoint fails: an upstream failure, or no data for the
/// requested period.
#[derive(Debug)]
pub enum DailyEndpointError {
    UnexpectedError(String),
    NotFound(String),
}

impl DailyEndpointError {
    /// The message carried by the error.
    pub fn message(self) -> (r: String)
        ensures
            self matches DailyEndpointError::UnexpectedError(m) ==> r@ == m@,
            self matches DailyEndpointError::NotFound(m) ==> r@ == m@,
    {
        match self {
            DailyEndpointError::UnexpectedError(m) => m,
            DailyEndpointError::NotFound(m) => m,
        }
    }
}

/// Parsed day-granularity bounds of a daily query; a malformed bound
/// degrades to `None`.
#[derive(Clone, Copy, Debug)]
pub struct DailyQueryParams {
    pub since: Option<YearMonthDay>,
    pub upto: Option<YearMonthDay>,
}

impl DailyQueryParams {
    /// Parse raw `since`/`upto` values permissively: a missing or
    /// malformed value becomes no bound.
    pub fn from_raw(since: &Option<String>, upto: &Option<String>) -> (r: DailyQueryParams)
        ensures
            (match since {
                Some(s) => r.since == spec_day_boundary(s@),
                None => r.since is None,
            }),
            (match upto {
                Some(s) => r.upto == spec_day_boundary(s@),
                None => r.upto is None,
            }),
    {
        let since_b = match since {
            Some(s) => parse_day_boundary(s.as_str()),
            None => None,
        };
        let upto_b = match upto {
            Some(s) => parse_day_boundary(s.as_str()),
            None => None,
        };
        DailyQueryParams { since: since_b, upto: upto_b }
    }
}

/// The record's date lies within the inclusive bounds.
pub open spec fn in_day_range(
    c: DailyCase,
    since: Option<YearMonthDay>,
    upto: Option<YearMonthDay>,
) -> bool {
    &&& (match since {
        Some(b) => date_le(
            b.year as int,
            b.month as int,
            b.day as int,
            c.year as int,
            c.month as int,
            c.day as int,
        ),
        None => true,
    })
    &&& (match upto {
        Some(b) => date_le(
            c.year as int,
            c.month as int,
            c.day as int,
            b.year as int,
            b.month as int,
            b.day as int,
        ),
        None => true,
    })
}

pub open spec fn day_range_pred(
    since: Option<YearMonthDay>,
    upto: Option<YearMonthDay>,
) -> spec_fn(DailyCase) -> bool {
    |c: DailyCase| in_day_range(c, since, upto)
}

/// Keep the records within the bounds, in order.
fn filter_day_range(
    v: Vec<DailyCase>,
    since: Option<YearMonthDay>,
    upto: Option<YearMonthDay>,
) -> (r: Vec<DailyCase>)
    ensures
        r@ == sel(v@, day_range_pred(since, upto)),
{
    let ghost sq = v@;
    let n = v.len();
    let mut out: Vec<DailyCase> = Vec::new();
    let mut i: usize = 0;
    while i < n
        invariant
            i <= n,
            n == sq.len(),
            v@ == sq,
            out@ == sel(sq.take(i as int), day_range_pred(since, upto)),
        decreases n - i,
    {
        let c = v[i];
        proof {
            assert(sq.take(i as int + 1) =~= sq.take(i as int).push(sq[i as int]));
            lemma_sel_push(sq.take(i as int), day_range_pred(since, upto), sq[i as int]);
        }
        let ok_since = match since {
            Some(b) => date_le_exec(b.year, b.month, b.day, c.year, c.month, c.day),
            None => true,
        };
        let ok_upto = match upto {
            Some(b) => date_le_exec(c.year, c.month, c.day, b.year, b.month, b.day),
            None => true,
        };
        if ok_since && ok_upto {
            out.push(c);
        }
        i += 1;
    }
    proof {
        assert(sq.take(n as int) =~= sq);
    }
    out
}

/// All records within the bounds, in order.
pub fn all_days(cases: DailyCases, params: &DailyQueryParams) -> (r: DailyCases)
    ensures
        r@ == sel(cases@, day_range_pred(params.since, params.upto)),
        cases.wf() ==> r.wf(),
{
    proof {
        if cases.wf() {
            lemma_sel_wf(cases@, day_range_pred(params.since, params.upto));
        }
    }
    DailyCases(filter_day_range(cases.0, params.since, params.upto))
}

/// The records of one year within the bounds; `Err` exactly when none
/// remain.
pub fn all_days_in_a_year(cases: DailyCases, params: &DailyQueryParams, year: i32) -> (r: Result<
    DailyCases,
    DailyEndpointError,
>)
    ensures
        r is Ok <==> sel_year(
            sel(cases@, day_range_pred(params.since, params.upto)),
            year as int,
        ).len() > 0,
        r matches Ok(d) ==> d@ == sel_year(
            sel(cases@, day_range_pred(params.since, params.upto)),
            year as int,
        ),
        r matches Err(e) ==> e matches DailyEndpointError::NotFound(m) && m@ == "Year not found"@,
{
    let filtered = all_days(cases, params);
    match filtered.get_all_days_in_a_year(year) {
        Ok(d) => Ok(d),
        Err(m) => Err(DailyEndpointError::NotFound(m)),
    }
}

/// The records of one month of one year, those within the bounds; `Err`
/// exactly when the month itself has no records at all.
pub fn all_days_in_a_month(
    cases: DailyCases,
    params: &DailyQueryParams,
    year: i32,
    month: i32,
) -> (r: Result<DailyCases, DailyEndpointError>)
    ensures
        r is Ok <==> sel_ym(cases@, year as int, (month as u32) as int).len() > 0,
        r matches Ok(d) ==> d@ == sel(
            sel_ym(cases@, year as int, (month as u32) as int),
            day_range_pred(params.since, params.upto),
        ),
        sel_year(cases@, year as int).len() == 0 ==> (r matches Err(e)
            && e matches DailyEndpointError::NotFound(m) && m@ == "Year not found"@),
        sel_year(cases@, year as int).len() > 0 && sel_ym(
            cases@,
            year as int,
            (month as u32) as int,
        ).len() == 0 ==> (r matches Err(e) && e matches DailyEndpointError::NotFound(m) && m@
            == "Month not found"@),
{
    let in_month = match cases.get_all_daily_cases_in_a_month(year, month) {
        Ok(d) => d,
        Err(m) => {
            return Err(DailyEndpointError::NotFound(m));
        },
    };
    Ok(DailyCases(filter_day_range(in_month.0, params.since, params.upto)))
}

/// The single record of one calendar day; `Err` exactly when no record
/// falls on it.
pub fn specific_day(cases: DailyCases, year: i32, month: i32, day: i32) -> (r: Result<
    DailyCase,
    DailyEndpointError,
>)
    ensures
        r is Ok <==> exists|k: int|
            0 <= k < cases@.len() && (#[trigger] cases@[k]).year == year && cases@[k].month
                == month as u32 && cases@[k].day == day as u32,
        r matches Ok(c) ==> cases@.contains(c) && c.year == year && c.month == month as u32
            && c.day == day as u32,
        r matches Err(e) ==> e matches DailyEndpointError::NotFound(m) && (m@
            == "Year not found"@ || m@ == "Month not found"@ || m@ == "Day not found"@),
        sel_year(cases@, year as int).len() == 0 ==> (r matches Err(e)
            && e matches DailyEndpointError::NotFound(m) && m@ == "Year not found"@),
        sel_year(cases@, year as int).len() > 0 && sel_ym(
            cases@,
            year as int,
            (month as u32) as int,
        ).len() == 0 ==> (r matches Err(e) && e matches DailyEndpointError::NotFound(m) && m@
            == "Month not found"@),
{
    match cases.get_specific_day(year, month, day) {
        Ok(c) => Ok(c),
        Err(m) => Err(DailyEndpointError::NotFound(m)),
    }
}

} // verus!
