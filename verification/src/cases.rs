//! The canonical daily case series and its derived monthly and yearly
//! roll-ups: record types, well-formedness of a series, and the
//! specification-level selection and summation functions that the
//! aggregation contracts are stated over.

use vstd::prelude::*;
use crate::calendar::days_in_month;

verus! {

/// One calendar day's case counters. Counters may be negative: the upstream
/// feed publishes corrections, and the active figure is a derived delta.
#[derive(Clone, Copy, Debug, PartialEq, Eq, Structural)]
pub struct DailyCase {
    pub year: i32,
    pub month: u32,
    pub day: u32,
    pub positive: i32,
    pub recovered: i32,
    pub deaths: i32,
    pub active: i32,
}

/// Sum of all daily records sharing (year, month). Counters are 64-bit:
/// a month's sum of 32-bit daily counters always fits.
#[derive(Clone, Copy, Debug, PartialEq, Eq, Structural)]
pub struct MonthlyCase {
    pub year: i32,
    pub month: u32,
    pub positive: i64,
    pub recovered: i64,
    pub deaths: i64,
    pub active: i64,
}

/// Sum of all daily records sharing a year.
#[derive(Clone, Copy, Debug, PartialEq, Eq, Structural)]
pub struct YearlyCase {
    pub year: i32,
    pub positive: i64,
    pub recovered: i64,
    pub deaths: i64,
    pub active: i64,
}

/// The canonical per-day series, in upstream (chronological) order.
#[derive(Debug)]
pub struct DailyCases(pub Vec<DailyCase>);

/// A derived monthly roll-up, ordered by year then month.
#[derive(Debug)]
pub struct MonthlyCases(pub Vec<MonthlyCase>);

/// A derived yearly roll-up, ordered by year.
#[derive(Debug)]
pub struct YearlyCases(pub Vec<YearlyCase>);

impl View for DailyCases {
    type V = Seq<DailyCase>;

    open spec fn view(&self) -> Seq<DailyCase> {
        self.0@
    }
}

impl View for MonthlyCases {
    type V = Seq<MonthlyCase>;

    open spec fn view(&self) -> Seq<MonthlyCase> {
        self.0@
    }
}

impl View for YearlyCases {
    type V = Seq<YearlyCase>;

    open spec fn view(&self) -> Seq<YearlyCase> {
        self.0@
    }
}

/// A record denotes a real calendar date.
pub open spec fn valid_case(c: DailyCase) -> bool {
    &&& 1 <= c.year
    &&& 1 <= c.month <= 12
    &&& 1 <= c.day <= days_in_month(c.year as int, c.month as int)
}

/// Two records fall on the same calendar day.
pub open spec fn same_date(a: DailyCase, b: DailyCase) -> bool {
    a.year == b.year && a.month == b.month && a.day == b.day
}

/// Well-formed canonical series: every record is a real calendar date and
/// no two records share a date.
pub open spec fn wf_series(s: Seq<DailyCase>) -> bool {
    &&& forall|i: int| 0 <= i < s.len() ==> valid_case(#[trigger] s[i])
    &&& forall|i: int, j: int|
        #![trigger s[i], s[j]]
        0 <= i < j < s.len() ==> !same_date(s[i], s[j])
}

impl DailyCases {
    /// The series is well-formed (see `wf_series`).
    pub open spec fn wf(&self) -> bool {
        wf_series(self@)
    }
}

/// The subsequence of records satisfying `p`, in order.
pub open spec fn sel(s: Seq<DailyCase>, p: spec_fn(DailyCase) -> bool) -> Seq<DailyCase>
    decreases s.len(),
{
    if s.len() == 0 {
        Seq::empty()
    } else {
        let rest = sel(s.drop_last(), p);
        if p(s.last()) {
            rest.push(s.last())
        } else {
            rest
        }
    }
}

/// Sum of `f` over all records of `s`.
pub open spec fn sum_of(s: Seq<DailyCase>, f: spec_fn(DailyCase) -> int) -> int
    decreases s.len(),
{
    if s.len() == 0 {
        0
    } else {
        sum_of(s.drop_last(), f) + f(s.last())
    }
}

pub open spec fn year_pred(y: int) -> spec_fn(DailyCase) -> bool {
    |c: DailyCase| c.year == y
}

pub open spec fn ym_pred(y: int, m: int) -> spec_fn(DailyCase) -> bool {
    |c: DailyCase| c.year == y && c.month == m
}

/// Records of year `y`, in order.
pub open spec fn sel_year(s: Seq<DailyCase>, y: int) -> Seq<DailyCase> {
    sel(s, year_pred(y))
}

/// Records of month `m` of year `y`, in order.
pub open spec fn sel_ym(s: Seq<DailyCase>, y: int, m: int) -> Seq<DailyCase> {
    sel(s, ym_pred(y, m))
}

pub open spec fn month_pred(m: int) -> spec_fn(DailyCase) -> bool {
    |c: DailyCase| c.month == m
}

pub open spec fn and_pred(
    p: spec_fn(DailyCase) -> bool,
    q: spec_fn(DailyCase) -> bool,
) -> spec_fn(DailyCase) -> bool {
    |c: DailyCase| p(c) && q(c)
}

pub open spec fn f_positive() -> spec_fn(DailyCase) -> int {
    |c: DailyCase| c.positive as int
}

pub open spec fn f_recovered() -> spec_fn(DailyCase) -> int {
    |c: DailyCase| c.recovered as int
}

pub open spec fn f_deaths() -> spec_fn(DailyCase) -> int {
    |c: DailyCase| c.deaths as int
}

pub open spec fn f_active() -> spec_fn(DailyCase) -> int {
    |c: DailyCase| c.active as int
}

/// `e` is the roll-up of the (nonempty) group of records of its year.
pub open spec fn yearly_entry_matches(s: Seq<DailyCase>, e: YearlyCase) -> bool {
    let g = sel_year(s, e.year as int);
    &&& g.len() > 0
    &&& e.positive == sum_of(g, f_positive())
    &&& e.recovered == sum_of(g, f_recovered())
    &&& e.deaths == sum_of(g, f_deaths())
    &&& e.active == sum_of(g, f_active())
}

/// Some entry of `r` is for year `y`.
pub open spec fn has_year_entry(r: Seq<YearlyCase>, y: int) -> bool {
    exists|i: int| 0 <= i < r.len() && (#[trigger] r[i]).year == y
}

/// `r` is exactly the yearly roll-up of `s`: strictly ascending by year,
/// one entry per year present in `s`, each entry the sum of its year's
/// records.
pub open spec fn is_yearly_rollup(s: Seq<DailyCase>, r: Seq<YearlyCase>) -> bool {
    &&& forall|i: int, j: int|
        #![trigger r[i], r[j]]
        0 <= i < j < r.len() ==> r[i].year < r[j].year
    &&& forall|i: int| 0 <= i < r.len() ==> yearly_entry_matches(s, #[trigger] r[i])
    &&& forall|k: int| 0 <= k < s.len() ==> has_year_entry(r, (#[trigger] s[k]).year as int)
}

/// `e` is the roll-up of the (nonempty) group of records of its
/// (year, month).
pub open spec fn monthly_entry_matches(s: Seq<DailyCase>, e: MonthlyCase) -> bool {
    let g = sel_ym(s, e.year as int, e.month as int);
    &&& g.len() > 0
    &&& e.positive == sum_of(g, f_positive())
    &&& e.recovered == sum_of(g, f_recovered())
    &&& e.deaths == sum_of(g, f_deaths())
    &&& e.active == sum_of(g, f_active())
}

/// Strict (year, month) order on monthly entries.
pub open spec fn ym_lt(a: MonthlyCase, b: MonthlyCase) -> bool {
    a.year < b.year || (a.year == b.year && a.month < b.month)
}

/// Some entry of `r` is for year `y` and month `m`.
pub open spec fn has_month_entry(r: Seq<MonthlyCase>, y: int, m: int) -> bool {
    exists|i: int| 0 <= i < r.len() && (#[trigger] r[i]).year == y && r[i].month == m
}

/// `r` is exactly the monthly roll-up of `s`: strictly ascending by
/// (year, month), one entry per (year, month) present in `s`, each entry
/// the sum of its group's records.
pub open spec fn is_monthly_rollup(s: Seq<DailyCase>, r: Seq<MonthlyCase>) -> bool {
    &&& forall|i: int, j: int|
        #![trigger r[i], r[j]]
        0 <= i < j < r.len() ==> ym_lt(r[i], r[j])
    &&& forall|i: int| 0 <= i < r.len() ==> monthly_entry_matches(s, #[trigger] r[i])
    &&& forall|k: int|
        0 <= k < s.len() ==> has_month_entry(
            r,
            (#[trigger] s[k]).year as int,
            s[k].month as int,
        )
}

/// Selecting from a series extended by one record keeps the earlier
/// selection and appends the new record exactly when it matches.
pub proof fn lemma_sel_push(s: Seq<DailyCase>, p: spec_fn(DailyCase) -> bool, c: DailyCase)
    ensures
        sel(s.push(c), p) == if p(c) {
            sel(s, p).push(c)
        } else {
            sel(s, p)
        },
{
    assert(s.push(c).drop_last() =~= s);
    assert(s.push(c).last() == c);
}

/// Summing over a series extended by one record adds that record's value.
pub proof fn lemma_sum_push(s: Seq<DailyCase>, f: spec_fn(DailyCase) -> int, c: DailyCase)
    ensures
        sum_of(s.push(c), f) == sum_of(s, f) + f(c),
{
    assert(s.push(c).drop_last() =~= s);
    assert(s.push(c).last() == c);
}

/// Every selected record satisfies the predicate and occurs in the series.
pub proof fn lemma_sel_sub(s: Seq<DailyCase>, p: spec_fn(DailyCase) -> bool)
    ensures
        forall|i: int|
            0 <= i < sel(s, p).len() ==> p(#[trigger] sel(s, p)[i]) && s.contains(sel(s, p)[i]),
    decreases s.len(),
{
    if s.len() > 0 {
        lemma_sel_sub(s.drop_last(), p);
        assert forall|i: int| 0 <= i < sel(s, p).len() implies p(#[trigger] sel(s, p)[i])
            && s.contains(sel(s, p)[i]) by {
            let rest = sel(s.drop_last(), p);
            if i < rest.len() {
                assert(sel(s, p)[i] == rest[i]);
                let j = choose|j: int| 0 <= j < s.drop_last().len() && s.drop_last()[j] == rest[i];
                assert(s[j] == rest[i]);
            } else {
                assert(sel(s, p)[i] == s.last());
                assert(s[s.len() - 1] == s.last());
            }
        }
    }
}

/// Every record of the series that satisfies the predicate is selected.
pub proof fn lemma_sel_complete(s: Seq<DailyCase>, p: spec_fn(DailyCase) -> bool)
    ensures
        forall|j: int| 0 <= j < s.len() && p(#[trigger] s[j]) ==> sel(s, p).contains(s[j]),
    decreases s.len(),
{
    if s.len() > 0 {
        lemma_sel_complete(s.drop_last(), p);
        assert forall|j: int| 0 <= j < s.len() && p(#[trigger] s[j]) implies sel(s, p).contains(
            s[j],
        ) by {
            let rest = sel(s.drop_last(), p);
            if j < s.len() - 1 {
                assert(s.drop_last()[j] == s[j]);
                assert(rest.contains(s[j]));
                let i = choose|i: int| 0 <= i < rest.len() && rest[i] == s[j];
                assert(sel(s, p)[i] == s[j]);
            } else {
                assert(sel(s, p).last() == s.last());
            }
        }
    }
}

/// An empty selection means no record satisfies the predicate, and
/// conversely.
pub proof fn lemma_sel_empty(s: Seq<DailyCase>, p: spec_fn(DailyCase) -> bool)
    ensures
        sel(s, p).len() == 0 <==> (forall|j: int| 0 <= j < s.len() ==> !p(#[trigger] s[j])),
{
    lemma_sel_sub(s, p);
    lemma_sel_complete(s, p);
    if sel(s, p).len() > 0 {
        let e = sel(s, p)[0];
        let j = choose|j: int| 0 <= j < s.len() && s[j] == e;
        assert(p(s[j]));
    }
}

/// Selection preserves well-formedness of a series.
pub proof fn lemma_sel_wf(s: Seq<DailyCase>, p: spec_fn(DailyCase) -> bool)
    requires
        wf_series(s),
    ensures
        wf_series(sel(s, p)),
    decreases s.len(),
{
    if s.len() > 0 {
        assert(forall|i: int| 0 <= i < s.drop_last().len() ==> s.drop_last()[i] == s[i]);
        lemma_sel_wf(s.drop_last(), p);
        lemma_sel_sub(s.drop_last(), p);
        let g = sel(s, p);
        let rest = sel(s.drop_last(), p);
        if p(s.last()) {
            assert forall|i: int, j: int|
                #![trigger g[i], g[j]]
                0 <= i < j < g.len() implies !same_date(g[i], g[j]) by {
                if j < g.len() - 1 {
                    assert(g[i] == rest[i] && g[j] == rest[j]);
                } else {
                    assert(g[i] == rest[i]);
                    let a = choose|a: int|
                        0 <= a < s.drop_last().len() && s.drop_last()[a] == rest[i];
                    assert(s[a] == rest[i]);
                    assert(g[j] == s[s.len() - 1]);
                }
            }
            assert forall|i: int| 0 <= i < g.len() implies valid_case(#[trigger] g[i]) by {
                if i < g.len() - 1 {
                    assert(g[i] == rest[i]);
                } else {
                    assert(g[i] == s[s.len() - 1]);
                }
            }
        }
    }
}

/// Selecting in two stages equals selecting with the conjunction.
pub proof fn lemma_sel_sel(
    s: Seq<DailyCase>,
    p: spec_fn(DailyCase) -> bool,
    q: spec_fn(DailyCase) -> bool,
)
    ensures
        sel(sel(s, p), q) == sel(s, and_pred(p, q)),
    decreases s.len(),
{
    if s.len() > 0 {
        lemma_sel_sel(s.drop_last(), p, q);
        let rest = sel(s.drop_last(), p);
        if p(s.last()) {
            lemma_sel_push(rest, q, s.last());
        }
    }
}

/// Selection depends only on the predicate's values.
pub proof fn lemma_sel_ext(
    s: Seq<DailyCase>,
    p: spec_fn(DailyCase) -> bool,
    q: spec_fn(DailyCase) -> bool,
)
    requires
        forall|c: DailyCase| #[trigger] p(c) == q(c),
    ensures
        sel(s, p) == sel(s, q),
    decreases s.len(),
{
    if s.len() > 0 {
        lemma_sel_ext(s.drop_last(), p, q);
    }
}

/// A prefix of a well-formed series is well-formed.
pub proof fn lemma_wf_take(s: Seq<DailyCase>, i: int)
    requires
        wf_series(s),
        0 <= i <= s.len(),
    ensures
        wf_series(s.take(i)),
{
    assert(forall|k: int| 0 <= k < i ==> s.take(i)[k] == s[k]);
}

/// Code that determines a record's day within its year: distinct for
/// distinct (month, day) pairs of valid records.
pub open spec fn date_code(c: DailyCase) -> int {
    c.month * 32 + c.day
}

/// In a well-formed series, a single year holds at most 384 records:
/// their (month, day) codes are distinct values of a range of size 384.
pub proof fn lemma_sel_year_len(s: Seq<DailyCase>, y: int)
    requires
        wf_series(s),
    ensures
        sel_year(s, y).len() <= 384,
{
    let g = sel_year(s, y);
    lemma_sel_wf(s, year_pred(y));
    lemma_sel_sub(s, year_pred(y));
    let cs = g.map_values(|c: DailyCase| date_code(c));
    assert forall|i: int, j: int| 0 <= i < j < cs.len() implies cs[i] != cs[j] by {
        let a = g[i];
        let b = g[j];
        assert(year_pred(y)(a) && year_pred(y)(b));
        assert(!same_date(a, b) && valid_case(a) && valid_case(b));
        if a.month == b.month {
            assert(a.day != b.day);
        } else {
            assert(a.month * 32 + a.day != b.month * 32 + b.day) by (nonlinear_arith)
                requires
                    a.month != b.month,
                    1 <= a.day <= 31,
                    1 <= b.day <= 31,
            ;
        }
    }
    assert(cs.no_duplicates());
    cs.unique_seq_to_set();
    assert forall|e: int| cs.to_set().contains(e) implies vstd::set_lib::set_int_range(
        33,
        417,
    ).contains(e) by {
        let i = choose|i: int| 0 <= i < cs.len() && cs[i] == e;
        assert(valid_case(g[i]));
    }
    vstd::set_lib::lemma_int_range(33, 417);
    vstd::set_lib::lemma_len_subset(cs.to_set(), vstd::set_lib::set_int_range(33, 417));
}

/// In a well-formed series, a single month of a single year holds at most
/// 31 records: their days are distinct values of a range of size 31.
pub proof fn lemma_sel_ym_len(s: Seq<DailyCase>, y: int, m: int)
    requires
        wf_series(s),
    ensures
        sel_ym(s, y, m).len() <= 31,
{
    let g = sel_ym(s, y, m);
    lemma_sel_wf(s, ym_pred(y, m));
    lemma_sel_sub(s, ym_pred(y, m));
    let cs = g.map_values(|c: DailyCase| c.day as int);
    assert forall|i: int, j: int| 0 <= i < j < cs.len() implies cs[i] != cs[j] by {
        assert(ym_pred(y, m)(g[i]) && ym_pred(y, m)(g[j]));
        assert(!same_date(g[i], g[j]));
    }
    assert(cs.no_duplicates());
    cs.unique_seq_to_set();
    assert forall|e: int| cs.to_set().contains(e) implies vstd::set_lib::set_int_range(
        1,
        32,
    ).contains(e) by {
        let i = choose|i: int| 0 <= i < cs.len() && cs[i] == e;
        assert(valid_case(g[i]));
    }
    vstd::set_lib::lemma_int_range(1, 32);
    vstd::set_lib::lemma_len_subset(cs.to_set(), vstd::set_lib::set_int_range(1, 32));
}

/// `r` is exactly the monthly roll-up of year `y` of `s`: strictly
/// ascending by month, one entry per month of `y` present in `s`, each
/// entry the sum of its group's records.
pub open spec fn is_months_of_year(s: Seq<DailyCase>, y: int, r: Seq<MonthlyCase>) -> bool {
    &&& forall|i: int, j: int|
        #![trigger r[i], r[j]]
        0 <= i < j < r.len() ==> r[i].month < r[j].month
    &&& forall|i: int|
        0 <= i < r.len() ==> (#[trigger] r[i]).year == y && monthly_entry_matches(s, r[i])
    &&& forall|k: int|
        0 <= k < s.len() && (#[trigger] s[k]).year == y ==> has_month_entry(
            r,
            y,
            s[k].month as int,
        )
}

/// A sum of values each bounded by `b` in magnitude is bounded by the
/// record count times `b`.
pub proof fn lemma_sum_bound(s: Seq<DailyCase>, f: spec_fn(DailyCase) -> int, b: int)
    requires
        b >= 0,
        forall|i: int| 0 <= i < s.len() ==> -b <= #[trigger] f(s[i]) <= b,
    ensures
        -(s.len() as int) * b <= sum_of(s, f) <= (s.len() as int) * b,
    decreases s.len(),
{
    if s.len() > 0 {
        assert(forall|i: int| 0 <= i < s.drop_last().len() ==> s.drop_last()[i] == s[i]);
        lemma_sum_bound(s.drop_last(), f, b);
        assert(f(s[s.len() - 1]) == f(s.last()));
        let n = s.len() as int;
        assert(s.drop_last().len() as int == n - 1);
        assert((n - 1) * b + b == n * b) by (nonlinear_arith);
        assert(-(n - 1) * b - b == -n * b) by (nonlinear_arith);
    }
}

} // verus!
