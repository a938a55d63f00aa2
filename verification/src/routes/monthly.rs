//! Monthly-resolution queries: roll-ups of the full series and of one
//! year, and single-month lookups, with optional inclusive month bounds.
//! A `since` bound starts at the first day of its month, an `upto` bound
//! ends at the last.

use vstd::prelude::*;
use crate::boundary::{YearMonth, parse_month_boundary, spec_month_boundary};
use crate::calendar::{date_le, date_le_exec, days_in_month, last_day_of_month};
use crate::cases::{
    DailyCase, DailyCases, MonthlyCase, MonthlyCases, is_monthly_rollup, is_months_of_year,
    lemma_sel_push, lemma_sel_wf, sel, sel_ym, sel_year,
};

verus! {

/// How a monthly endpoint fails: an upstream failure, or no data for the
/// requested period.
#[derive(Debug)]
pub enum MonthlyEndpointError {
    UnexpectedError(String),
    NotFound(String),
}

impl MonthlyEndpointError {
    /// The message carried by the error.
    pub fn message(self) -> (r: String)
        ensures
            self matches MonthlyEndpointError::UnexpectedError(m) ==> r@ == m@,
            self matches MonthlyEndpointError::NotFound(m) ==> r@ == m@,
    {
        match self {
            MonthlyEndpointError::UnexpectedError(m) => m,
            MonthlyEndpointError::NotFound(m) => m,
        }
    }
}

/// Parsed month-granularity bounds of a monthly query; a malformed bound
/// degrades to `None`.
#[derive(Clone, Copy, Debug)]
pub struct MonthlyQueryParams {
    pub since: Option<YearMonth>,
    pub upto: Option<YearMonth>,
}

/// The bound denotes a real calendar month.
pub open spec fn wf_month_bound(b: Option<YearMonth>) -> bool {
    match b {
        Some(b) => 1 <= b.year && 1 <= b.month <= 12,
        None => true,
    }
}

impl MonthlyQueryParams {
    /// Both bounds denote real calendar months.
    pub open spec fn wf(&self) -> bool {
        wf_month_bound(self.since) && wf_month_bound(self.upto)
    }

    /// Parse raw `since`/`upto` values permissively: a missing or
    /// malformed value becomes no bound.
    pub fn from_raw(since: &Option<String>, upto: &Option<String>) -> (r: MonthlyQueryParams)
        ensures
            (match since {
                Some(s) => r.since == spec_month_boundary(s@),
                None => r.since is None,
            }),
            (match upto {
                Some(s) => r.upto == spec_month_boundary(s@),
                None => r.upto is None,
            }),
            r.wf(),
    {
        let since_b = match since {
            Some(s) => parse_month_boundary(s.as_str()),
            None => None,
        };
        let upto_b = match upto {
            Some(s) => parse_month_boundary(s.as_str()),
            None => None,
        };
        MonthlyQueryParams { since: since_b, upto: upto_b }
    }
}

/// The record's date lies within the inclusive month bounds: from the
/// first day of the `since` month to the last day of the `upto` month.
pub open spec fn in_month_range(
    c: DailyCase,
    since: Option<YearMonth>,
    upto: Option<YearMonth>,
) -> bool {
    &&& (match since {
        Some(b) => date_le(
            b.year as int,
            b.month as int,
            1,
            c.year as int,
            c.month as int,
            c.day as int,
        ),
        None => true,
    })
    &&& (match upto {
        Some(b) => date_le(
            c.year as int,
            c.month as int,
            c.day as int,
            b.year as int,
            b.month as int,
            days_in_month(b.year as int, b.month as int),
        ),
        None => true,
    })
}

pub open spec fn month_range_pred(
    since: Option<YearMonth>,
    upto: Option<YearMonth>,
) -> spec_fn(DailyCase) -> bool {
    |c: DailyCase| in_month_range(c, since, upto)
}

/// Keep the records within the month bounds, in order.
fn filter_month_range(v: Vec<DailyCase>, since: Option<YearMonth>, upto: Option<YearMonth>) -> (r:
    Vec<DailyCase>)
    requires
        wf_month_bound(since),
        wf_month_bound(upto),
    ensures
        r@ == sel(v@, month_range_pred(since, upto)),
{
    let ghost sq = v@;
    let n = v.len();
    let mut out: Vec<DailyCase> = Vec::new();
    let mut i: usize = 0;
    while i < n
        invariant
            i <= n,
            n == sq.len(),
            v@ == sq,
            wf_month_bound(since),
            wf_month_bound(upto),
            out@ == sel(sq.take(i as int), month_range_pred(since, upto)),
        decreases n - i,
    {
        let c = v[i];
        proof {
            assert(sq.take(i as int + 1) =~= sq.take(i as int).push(sq[i as int]));
            lemma_sel_push(sq.take(i as int), month_range_pred(since, upto), sq[i as int]);
        }
        let ok_since = match since {
            Some(b) => date_le_exec(b.year, b.month, 1, c.year, c.month, c.day),
            None => true,
        };
        let ok_upto = match upto {
            Some(b) => date_le_exec(
                c.year,
                c.month,
                c.day,
                b.year,
                b.month,
                last_day_of_month(b.year, b.month),
            ),
            None => true,
        };
        if ok_since && ok_upto {
            out.push(c);
        }
        i += 1;
    }
    proof {
        assert(sq.take(n as int) =~= sq);
    }
    out
}

/// The monthly roll-up of the records within the bounds.
pub fn all_months(cases: DailyCases, params: &MonthlyQueryParams) -> (r: MonthlyCases)
    requires
        cases.wf(),
        params.wf(),
    ensures
        is_monthly_rollup(sel(cases@, month_range_pred(params.since, params.upto)), r@),
{
    proof {
        lemma_sel_wf(cases@, month_range_pred(params.since, params.upto));
    }
    let filtered = DailyCases(filter_month_range(cases.0, params.since, params.upto));
    filtered.to_monthly()
}

/// The monthly roll-up of one year of the records within the bounds;
/// `Err` exactly when none of them falls in that year.
pub fn all_months_in_a_year(
    cases: DailyCases,
    params: &MonthlyQueryParams,
    year: i32,
) -> (r: Result<MonthlyCases, MonthlyEndpointError>)
    requires
        cases.wf(),
        params.wf(),
    ensures
        r is Ok <==> sel_year(
            sel(cases@, month_range_pred(params.since, params.upto)),
            year as int,
        ).len() > 0,
        r matches Ok(ms) ==> is_months_of_year(
            sel(cases@, month_range_pred(params.since, params.upto)),
            year as int,
            ms@,
        ),
        r matches Err(e) ==> e matches MonthlyEndpointError::NotFound(m) && m@
            == "Year not found"@,
{
    proof {
        lemma_sel_wf(cases@, month_range_pred(params.since, params.upto));
    }
    let filtered = DailyCases(filter_month_range(cases.0, params.since, params.upto));
    match filtered.get_all_months_in_a_year(year) {
        Ok(ms) => Ok(ms),
        Err(m) => Err(MonthlyEndpointError::NotFound(m)),
    }
}

/// The monthly roll-up entry of one (year, month); `Err` exactly when the
/// group is empty, naming the absent component.
pub fn specific_month(cases: DailyCases, year: i32, month: i32) -> (r: Result<
    MonthlyCase,
    MonthlyEndpointError,
>)
    requires
        cases.wf(),
    ensures
        r is Ok <==> sel_ym(cases@, year as int, (month as u32) as int).len() > 0,
        r matches Ok(mc) ==> mc.year == year && mc.month == month as u32
            && crate::cases::monthly_entry_matches(cases@, mc),
        sel_year(cases@, year as int).len() == 0 ==> (r matches Err(e)
            && e matches MonthlyEndpointError::NotFound(m) && m@ == "Year not found"@),
        sel_year(cases@, year as int).len() > 0 && sel_ym(
            cases@,
            year as int,
            (month as u32) as int,
        ).len() == 0 ==> (r matches Err(e) && e matches MonthlyEndpointError::NotFound(m) && m@
            == "Month not found"@),
{
    match cases.get_specific_month(year, month) {
        Ok(mc) => Ok(mc),
        Err(m) => Err(MonthlyEndpointError::NotFound(m)),
    }
}

} // verus!
