//! Laws of the aggregation engine, proved from the contracts alone: the
//! roll-ups are uniquely determined by the canonical series, monthly
//! roll-ups of a year sum to the year's roll-up, and an unbounded range
//! query returns the series unchanged.

use vstd::prelude::*;
use crate::cases::{
    DailyCase, MonthlyCase, YearlyCase, f_active, f_deaths, f_positive, f_recovered,
    has_month_entry, has_year_entry, is_months_of_year, is_yearly_rollup, lemma_sel_complete,
    lemma_sel_empty, lemma_sel_push, lemma_sel_sub, lemma_sum_push, monthly_entry_matches, sel,
    sel_ym, sel_year,
    sum_of, wf_series, year_pred, yearly_entry_matches, ym_pred,
};
use crate::boundary::YearMonthDay;
use crate::routes::daily::{day_range_pred, in_day_range};

verus! {

/// Sum of `g` over all monthly entries.
pub open spec fn msum(ms: Seq<MonthlyCase>, g: spec_fn(MonthlyCase) -> int) -> int
    decreases ms.len(),
{
    if ms.len() == 0 {
        0
    } else {
        msum(ms.drop_last(), g) + g(ms.last())
    }
}

/// Sum of `g` over the entries of months up to `m`.
pub open spec fn msum_le(ms: Seq<MonthlyCase>, m: int, g: spec_fn(MonthlyCase) -> int) -> int
    decreases ms.len(),
{
    if ms.len() == 0 {
        0
    } else {
        msum_le(ms.drop_last(), m, g) + if ms.last().month <= m {
            g(ms.last())
        } else {
            0
        }
    }
}

/// Sum of `g` over the entries of month `m` exactly.
pub open spec fn msum_eq(ms: Seq<MonthlyCase>, m: int, g: spec_fn(MonthlyCase) -> int) -> int
    decreases ms.len(),
{
    if ms.len() == 0 {
        0
    } else {
        msum_eq(ms.drop_last(), m, g) + if ms.last().month == m {
            g(ms.last())
        } else {
            0
        }
    }
}

pub open spec fn g_positive() -> spec_fn(MonthlyCase) -> int {
    |e: MonthlyCase| e.positive as int
}

pub open spec fn g_recovered() -> spec_fn(MonthlyCase) -> int {
    |e: MonthlyCase| e.recovered as int
}

pub open spec fn g_deaths() -> spec_fn(MonthlyCase) -> int {
    |e: MonthlyCase| e.deaths as int
}

pub open spec fn g_active() -> spec_fn(MonthlyCase) -> int {
    |e: MonthlyCase| e.active as int
}

/// Sum of `f` over the records of months 1 to `m` of year `y`.
pub open spec fn sum_months_upto(
    s: Seq<DailyCase>,
    y: int,
    m: int,
    f: spec_fn(DailyCase) -> int,
) -> int
    decreases m,
{
    if m <= 0 {
        0
    } else {
        sum_months_upto(s, y, m - 1, f) + sum_of(sel_ym(s, y, m), f)
    }
}

proof fn lemma_msum_le_zero(ms: Seq<MonthlyCase>, g: spec_fn(MonthlyCase) -> int)
    requires
        forall|i: int| 0 <= i < ms.len() ==> (#[trigger] ms[i]).month >= 1,
    ensures
        msum_le(ms, 0, g) == 0,
    decreases ms.len(),
{
    if ms.len() > 0 {
        assert(forall|i: int| 0 <= i < ms.drop_last().len() ==> ms.drop_last()[i] == ms[i]);
        lemma_msum_le_zero(ms.drop_last(), g);
        assert(ms[ms.len() - 1].month >= 1);
    }
}

proof fn lemma_msum_le_all(ms: Seq<MonthlyCase>, g: spec_fn(MonthlyCase) -> int)
    requires
        forall|i: int| 0 <= i < ms.len() ==> (#[trigger] ms[i]).month <= 12,
    ensures
        msum_le(ms, 12, g) == msum(ms, g),
    decreases ms.len(),
{
    if ms.len() > 0 {
        assert(forall|i: int| 0 <= i < ms.drop_last().len() ==> ms.drop_last()[i] == ms[i]);
        lemma_msum_le_all(ms.drop_last(), g);
        assert(ms[ms.len() - 1].month <= 12);
    }
}

proof fn lemma_msum_le_step(ms: Seq<MonthlyCase>, m: int, g: spec_fn(MonthlyCase) -> int)
    ensures
        msum_le(ms, m, g) == msum_le(ms, m - 1, g) + msum_eq(ms, m, g),
    decreases ms.len(),
{
    if ms.len() > 0 {
        lemma_msum_le_step(ms.drop_last(), m, g);
    }
}

proof fn lemma_msum_eq_none(ms: Seq<MonthlyCase>, m: int, g: spec_fn(MonthlyCase) -> int)
    requires
        forall|i: int| 0 <= i < ms.len() ==> (#[trigger] ms[i]).month != m,
    ensures
        msum_eq(ms, m, g) == 0,
    decreases ms.len(),
{
    if ms.len() > 0 {
        assert(forall|i: int| 0 <= i < ms.drop_last().len() ==> ms.drop_last()[i] == ms[i]);
        lemma_msum_eq_none(ms.drop_last(), m, g);
        assert(ms[ms.len() - 1].month != m);
    }
}

proof fn lemma_msum_eq_single(
    ms: Seq<MonthlyCase>,
    m: int,
    g: spec_fn(MonthlyCase) -> int,
    i: int,
)
    requires
        forall|a: int, b: int|
            #![trigger ms[a], ms[b]]
            0 <= a < b < ms.len() ==> ms[a].month < ms[b].month,
        0 <= i < ms.len(),
        ms[i].month == m,
    ensures
        msum_eq(ms, m, g) == g(ms[i]),
    decreases ms.len(),
{
    assert(forall|k: int| 0 <= k < ms.drop_last().len() ==> ms.drop_last()[k] == ms[k]);
    if i == ms.len() - 1 {
        assert forall|k: int| 0 <= k < ms.drop_last().len() implies (
        #[trigger] ms.drop_last()[k]).month != m by {
            assert(ms[k].month < ms[i].month);
        }
        lemma_msum_eq_none(ms.drop_last(), m, g);
    } else {
        assert(ms[i].month < ms[ms.len() - 1].month);
        lemma_msum_eq_single(ms.drop_last(), m, g, i);
    }
}

proof fn lemma_sum_upto_empty(y: int, m: int, f: spec_fn(DailyCase) -> int)
    ensures
        sum_months_upto(Seq::empty(), y, m, f) == 0,
    decreases m,
{
    if m > 0 {
        lemma_sum_upto_empty(y, m - 1, f);
        assert(sel_ym(Seq::empty(), y, m) =~= Seq::<DailyCase>::empty());
    }
}

proof fn lemma_sum_upto_push(
    t: Seq<DailyCase>,
    c: DailyCase,
    y: int,
    m: int,
    f: spec_fn(DailyCase) -> int,
)
    ensures
        sum_months_upto(t.push(c), y, m, f) == sum_months_upto(t, y, m, f) + if c.year == y && 1
            <= c.month <= m {
            f(c)
        } else {
            0
        },
    decreases m,
{
    if m > 0 {
        lemma_sum_upto_push(t, c, y, m - 1, f);
        lemma_sel_push(t, ym_pred(y, m), c);
        if c.year == y && c.month == m {
            lemma_sum_push(sel_ym(t, y, m), f, c);
        }
    }
}

/// The per-month sums of a year partition the year's sum.
proof fn lemma_year_partition(s: Seq<DailyCase>, y: int, f: spec_fn(DailyCase) -> int)
    requires
        forall|k: int| 0 <= k < s.len() ==> 1 <= (#[trigger] s[k]).month <= 12,
    ensures
        sum_months_upto(s, y, 12, f) == sum_of(sel_year(s, y), f),
    decreases s.len(),
{
    if s.len() == 0 {
        lemma_sum_upto_empty(y, 12, f);
        assert(s =~= Seq::<DailyCase>::empty());
        assert(sel_year(s, y) =~= Seq::<DailyCase>::empty());
    } else {
        let t = s.drop_last();
        let c = s.last();
        assert(forall|k: int| 0 <= k < t.len() ==> t[k] == s[k]);
        lemma_year_partition(t, y, f);
        assert(t.push(c) =~= s);
        lemma_sum_upto_push(t, c, y, 12, f);
        lemma_sel_push(t, year_pred(y), c);
        if c.year == y {
            lemma_sum_push(sel_year(t, y), f, c);
            assert(1 <= c.month <= 12);
        }
    }
}

/// The monthly entries of a year cover exactly the months up to `m`.
proof fn lemma_months_cover(
    s: Seq<DailyCase>,
    y: int,
    ms: Seq<MonthlyCase>,
    m: int,
    f: spec_fn(DailyCase) -> int,
    g: spec_fn(MonthlyCase) -> int,
)
    requires
        0 <= m <= 12,
        forall|a: int, b: int|
            #![trigger ms[a], ms[b]]
            0 <= a < b < ms.len() ==> ms[a].month < ms[b].month,
        forall|i: int| 0 <= i < ms.len() ==> 1 <= (#[trigger] ms[i]).month <= 12,
        forall|i: int| 0 <= i < ms.len() ==> (#[trigger] ms[i]).year == y,
        forall|i: int|
            0 <= i < ms.len() ==> g(#[trigger] ms[i]) == sum_of(
                sel_ym(s, y, ms[i].month as int),
                f,
            ),
        forall|k: int|
            0 <= k < s.len() && (#[trigger] s[k]).year == y ==> has_month_entry(
                ms,
                y,
                s[k].month as int,
            ),
    ensures
        msum_le(ms, m, g) == sum_months_upto(s, y, m, f),
    decreases m,
{
    if m == 0 {
        lemma_msum_le_zero(ms, g);
    } else {
        lemma_months_cover(s, y, ms, m - 1, f, g);
        lemma_msum_le_step(ms, m, g);
        if exists|i: int| 0 <= i < ms.len() && (#[trigger] ms[i]).month == m {
            let i = choose|i: int| 0 <= i < ms.len() && (#[trigger] ms[i]).month == m;
            lemma_msum_eq_single(ms, m, g, i);
        } else {
            assert(forall|i: int| 0 <= i < ms.len() ==> (#[trigger] ms[i]).month != m);
            lemma_msum_eq_none(ms, m, g);
            assert forall|k: int| 0 <= k < s.len() implies !ym_pred(y, m)(#[trigger] s[k]) by {
                if s[k].year == y && s[k].month == m {
                    assert(has_month_entry(ms, y, m));
                    let i = choose|i: int|
                        0 <= i < ms.len() && (#[trigger] ms[i]).year == y && ms[i].month == m;
                    assert(ms[i].month == m);
                }
            }
            lemma_sel_empty(s, ym_pred(y, m));
            assert(sel_ym(s, y, m) =~= Seq::<DailyCase>::empty());
        }
    }
}

/// Law: roll-up consistency. For a well-formed series, the sums over the
/// monthly roll-up entries of a year equal the year's own roll-up entry,
/// counter by counter.
pub proof fn lemma_rollup_consistency(
    s: Seq<DailyCase>,
    y: int,
    ms: Seq<MonthlyCase>,
    yc: YearlyCase,
)
    requires
        wf_series(s),
        is_months_of_year(s, y, ms),
        yc.year as int == y,
        yearly_entry_matches(s, yc),
    ensures
        msum(ms, g_positive()) == yc.positive,
        msum(ms, g_recovered()) == yc.recovered,
        msum(ms, g_deaths()) == yc.deaths,
        msum(ms, g_active()) == yc.active,
{
    assert forall|i: int| 0 <= i < ms.len() implies 1 <= (#[trigger] ms[i]).month <= 12 by {
        assert(monthly_entry_matches(s, ms[i]));
        let gsel = sel_ym(s, ms[i].year as int, ms[i].month as int);
        lemma_sel_sub(s, ym_pred(ms[i].year as int, ms[i].month as int));
        assert(ym_pred(ms[i].year as int, ms[i].month as int)(gsel[0]));
        assert(s.contains(gsel[0]));
        let k = choose|k: int| 0 <= k < s.len() && s[k] == gsel[0];
        assert(1 <= s[k].month <= 12);
    }
    let fs = [f_positive(), f_recovered(), f_deaths(), f_active()];
    let gs = [g_positive(), g_recovered(), g_deaths(), g_active()];
    assert forall|t: int| 0 <= t < 4 implies msum(ms, gs[t]) == sum_of(sel_year(s, y), fs[t]) by {
        let f = fs[t];
        let g = gs[t];
        assert forall|i: int| 0 <= i < ms.len() implies g(#[trigger] ms[i]) == sum_of(
            sel_ym(s, y, ms[i].month as int),
            f,
        ) by {
            assert(monthly_entry_matches(s, ms[i]));
            assert(ms[i].year == y);
        }
        lemma_months_cover(s, y, ms, 12, f, g);
        lemma_year_partition(s, y, f);
        lemma_msum_le_all(ms, g);
    }
    assert(msum(ms, gs[0]) == sum_of(sel_year(s, y), fs[0]));
    assert(msum(ms, gs[1]) == sum_of(sel_year(s, y), fs[1]));
    assert(msum(ms, gs[2]) == sum_of(sel_year(s, y), fs[2]));
    assert(msum(ms, gs[3]) == sum_of(sel_year(s, y), fs[3]));
}

/// Two strictly ascending integer sequences with the same members are
/// identical.
proof fn lemma_strict_sorted_same_elems(a: Seq<int>, b: Seq<int>)
    requires
        forall|i: int, j: int| #![trigger a[i], a[j]] 0 <= i < j < a.len() ==> a[i] < a[j],
        forall|i: int, j: int| #![trigger b[i], b[j]] 0 <= i < j < b.len() ==> b[i] < b[j],
        forall|y: int| a.contains(y) <==> b.contains(y),
    ensures
        a == b,
    decreases a.len(),
{
    if a.len() == 0 {
        if b.len() > 0 {
            assert(b.contains(b[0]));
            assert(a.contains(b[0]));
        }
        assert(a =~= b);
    } else {
        assert(a.contains(a[a.len() - 1]));
        assert(b.contains(a[a.len() - 1]));
        if b.len() == 0 {
            assert(false);
        }
        let la = a[a.len() - 1];
        let lb = b[b.len() - 1];
        let ia = choose|i: int| 0 <= i < b.len() && b[i] == la;
        assert(la <= lb) by {
            if ia < b.len() - 1 {
                assert(b[ia] < b[b.len() - 1]);
            }
        }
        assert(b.contains(lb));
        assert(a.contains(lb));
        let ib = choose|i: int| 0 <= i < a.len() && a[i] == lb;
        assert(lb <= la) by {
            if ib < a.len() - 1 {
                assert(a[ib] < a[a.len() - 1]);
            }
        }
        let ta = a.drop_last();
        let tb = b.drop_last();
        assert(forall|k: int| 0 <= k < ta.len() ==> ta[k] == a[k]);
        assert(forall|k: int| 0 <= k < tb.len() ==> tb[k] == b[k]);
        assert forall|y: int| ta.contains(y) <==> tb.contains(y) by {
            if ta.contains(y) {
                let i = choose|i: int| 0 <= i < ta.len() && ta[i] == y;
                assert(a[i] < la);
                assert(a.contains(y));
                assert(b.contains(y));
                let j = choose|j: int| 0 <= j < b.len() && b[j] == y;
                assert(j < b.len() - 1) by {
                    if j == b.len() - 1 {
                        assert(y == lb && lb == la);
                    }
                }
                assert(tb[j] == y);
            }
            if tb.contains(y) {
                let i = choose|i: int| 0 <= i < tb.len() && tb[i] == y;
                assert(b[i] < lb);
                assert(b.contains(y));
                assert(a.contains(y));
                let j = choose|j: int| 0 <= j < a.len() && a[j] == y;
                assert(j < a.len() - 1) by {
                    if j == a.len() - 1 {
                        assert(y == la && la == lb);
                    }
                }
                assert(ta[j] == y);
            }
        }
        lemma_strict_sorted_same_elems(ta, tb);
        assert(a =~= b) by {
            assert(a.len() == b.len());
            assert(forall|k: int| 0 <= k < a.len() - 1 ==> a[k] == ta[k] && b[k] == tb[k]);
        }
    }
}

/// Law: the yearly roll-up is a pure function of the canonical series.
/// Any two sequences meeting the roll-up contract over the same series
/// are identical, so computing the roll-up twice gives the same result.
pub proof fn lemma_yearly_rollup_deterministic(
    s: Seq<DailyCase>,
    r1: Seq<YearlyCase>,
    r2: Seq<YearlyCase>,
)
    requires
        is_yearly_rollup(s, r1),
        is_yearly_rollup(s, r2),
    ensures
        r1 == r2,
{
    let ya = r1.map_values(|e: YearlyCase| e.year as int);
    let yb = r2.map_values(|e: YearlyCase| e.year as int);
    assert forall|y: int| ya.contains(y) <==> yb.contains(y) by {
        assert forall|y: int| ya.contains(y) implies (exists|k: int|
            0 <= k < s.len() && (#[trigger] s[k]).year == y) by {
            let i = choose|i: int| 0 <= i < ya.len() && ya[i] == y;
            assert(yearly_entry_matches(s, r1[i]));
            let gsel = sel_year(s, r1[i].year as int);
            lemma_sel_sub(s, year_pred(r1[i].year as int));
            assert(year_pred(r1[i].year as int)(gsel[0]));
            assert(s.contains(gsel[0]));
            let k = choose|k: int| 0 <= k < s.len() && s[k] == gsel[0];
            assert(s[k].year == y);
        }
        assert forall|y: int| yb.contains(y) implies (exists|k: int|
            0 <= k < s.len() && (#[trigger] s[k]).year == y) by {
            let i = choose|i: int| 0 <= i < yb.len() && yb[i] == y;
            assert(yearly_entry_matches(s, r2[i]));
            let gsel = sel_year(s, r2[i].year as int);
            lemma_sel_sub(s, year_pred(r2[i].year as int));
            assert(year_pred(r2[i].year as int)(gsel[0]));
            assert(s.contains(gsel[0]));
            let k = choose|k: int| 0 <= k < s.len() && s[k] == gsel[0];
            assert(s[k].year == y);
        }
        assert forall|y: int| (exists|k: int| 0 <= k < s.len() && (#[trigger] s[k]).year == y)
            implies ya.contains(y) && yb.contains(y) by {
            let k = choose|k: int| 0 <= k < s.len() && (#[trigger] s[k]).year == y;
            assert(has_year_entry(r1, y));
            let i1 = choose|i: int| 0 <= i < r1.len() && (#[trigger] r1[i]).year == y;
            assert(ya[i1] == y);
            assert(has_year_entry(r2, y));
            let i2 = choose|i: int| 0 <= i < r2.len() && (#[trigger] r2[i]).year == y;
            assert(yb[i2] == y);
        }
    }
    lemma_strict_sorted_same_elems(ya, yb);
    assert(ya.len() == yb.len());
    assert(r1.len() == r2.len());
    assert forall|i: int| 0 <= i < r1.len() implies r1[i] == r2[i] by {
        assert(ya[i] == yb[i]);
        assert(r1[i].year == r2[i].year);
        assert(yearly_entry_matches(s, r1[i]));
        assert(yearly_entry_matches(s, r2[i]));
        assert(sel_year(s, r1[i].year as int) == sel_year(s, r2[i].year as int));
        assert(r1[i].positive == r2[i].positive && r1[i].recovered == r2[i].recovered && r1[i].deaths == r2[i].deaths && r1[i].active == r2[i].active);
    }
    assert(r1 =~= r2);
}

/// Law: range inclusivity. A day-bounded selection returns exactly the
/// in-range records: every returned record lies within the inclusive
/// bounds and comes from the series, and no in-range record of the
/// series is omitted.
pub proof fn lemma_range_inclusivity(
    s: Seq<DailyCase>,
    since: Option<YearMonthDay>,
    upto: Option<YearMonthDay>,
)
    ensures
        forall|i: int|
            0 <= i < sel(s, day_range_pred(since, upto)).len() ==> in_day_range(
                #[trigger] sel(s, day_range_pred(since, upto))[i],
                since,
                upto,
            ) && s.contains(sel(s, day_range_pred(since, upto))[i]),
        forall|k: int|
            0 <= k < s.len() && in_day_range(#[trigger] s[k], since, upto) ==> sel(
                s,
                day_range_pred(since, upto),
            ).contains(s[k]),
{
    lemma_sel_sub(s, day_range_pred(since, upto));
    lemma_sel_complete(s, day_range_pred(since, upto));
    assert(forall|c: DailyCase| #[trigger] day_range_pred(since, upto)(c) == in_day_range(
        c,
        since,
        upto,
    ));
}

/// Law: a day-bounded query with no bounds returns the series unchanged.
pub proof fn lemma_unbounded_day_query_identity(s: Seq<DailyCase>)
    ensures
        sel(s, day_range_pred(None, None)) == s,
    decreases s.len(),
{
    if s.len() > 0 {
        lemma_unbounded_day_query_identity(s.drop_last());
        assert(day_range_pred(None, None)(s.last()));
        assert(s.drop_last().push(s.last()) =~= s);
    }
}

} // verus!
