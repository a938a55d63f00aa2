//! Aggregation over the canonical daily series: point lookups, per-year and
//! per-month filtering, and the monthly and yearly roll-ups.

use vstd::prelude::*;
use crate::cases::{
    DailyCase, DailyCases, MonthlyCase, MonthlyCases, YearlyCase, YearlyCases, and_pred,
    f_active, f_deaths, f_positive, f_recovered, is_monthly_rollup, is_months_of_year,
    has_month_entry, has_year_entry, is_yearly_rollup, lemma_sel_complete, lemma_sel_empty,
    lemma_sel_ext, lemma_sel_push,
    lemma_sel_sel, lemma_sel_sub, lemma_sel_ym_len, lemma_sel_year_len,
    lemma_sum_bound, lemma_sum_push, lemma_wf_take, month_pred, monthly_entry_matches, sel,
    sel_ym, sel_year, sum_of, wf_series, year_pred, yearly_entry_matches, ym_lt, ym_pred,
};

verus! {

/// Insert `x` into a strictly sorted vector, keeping it strictly sorted;
/// a value already present is not inserted twice.
fn insert_sorted_i32(v: &mut Vec<i32>, x: i32)
    requires
        forall|a: int, b: int|
            #![trigger old(v)@[a], old(v)@[b]]
            0 <= a < b < old(v)@.len() ==> old(v)@[a] < old(v)@[b],
    ensures
        forall|a: int, b: int|
            #![trigger final(v)@[a], final(v)@[b]]
            0 <= a < b < final(v)@.len() ==> final(v)@[a] < final(v)@[b],
        forall|e: i32| #[trigger] final(v)@.contains(e) <==> old(v)@.contains(e) || e == x,
{
    let n = v.len();
    let mut j: usize = 0;
    while j < n && v[j] < x
        invariant
            j <= n,
            n == v@.len(),
            v@ == old(v)@,
            forall|k: int| 0 <= k < j ==> v@[k] < x,
        decreases n - j,
    {
        j += 1;
    }
    if j < n && v[j] == x {
        proof {
            assert(old(v)@.contains(x));
        }
        return ;
    }
    let ghost pre = v@;
    v.insert(j, x);
    proof {
        pre.insert_ensures(j as int, x);
        assert forall|a: int, b: int|
            #![trigger v@[a], v@[b]]
            0 <= a < b < v@.len() implies v@[a] < v@[b] by {
            let jj = j as int;
            if b < jj {
                assert(v@[a] == pre[a] && v@[b] == pre[b]);
            } else if b == jj {
                assert(v@[a] == pre[a] && v@[b] == x);
            } else if a < jj {
                assert(v@[a] == pre[a] && v@[b] == pre[b - 1]);
                if jj < b - 1 {
                    assert(pre[jj] < pre[b - 1]);
                }
            } else if a == jj {
                assert(v@[a] == x && v@[b] == pre[b - 1]);
                if jj < b - 1 {
                    assert(pre[jj] < pre[b - 1]);
                }
            } else {
                assert(v@[a] == pre[a - 1] && v@[b] == pre[b - 1]);
            }
        }
        assert forall|e: i32| #[trigger] v@.contains(e) implies pre.contains(e) || e == x by {
            let idx = choose|idx: int| 0 <= idx < v@.len() && v@[idx] == e;
            if idx < j as int {
                assert(pre[idx] == e);
            } else if idx > j as int {
                assert(pre[idx - 1] == e);
            }
        }
        assert forall|e: i32| pre.contains(e) || e == x implies #[trigger] v@.contains(e) by {
            if e == x {
                assert(v@[j as int] == e);
            } else {
                let idx = choose|idx: int| 0 <= idx < pre.len() && pre[idx] == e;
                if idx < j as int {
                    assert(v@[idx] == e);
                } else {
                    assert(v@[idx + 1] == e);
                }
            }
        }
    }
}

/// As `insert_sorted_i32`, for month numbers.
fn insert_sorted_u32(v: &mut Vec<u32>, x: u32)
    requires
        forall|a: int, b: int|
            #![trigger old(v)@[a], old(v)@[b]]
            0 <= a < b < old(v)@.len() ==> old(v)@[a] < old(v)@[b],
    ensures
        forall|a: int, b: int|
            #![trigger final(v)@[a], final(v)@[b]]
            0 <= a < b < final(v)@.len() ==> final(v)@[a] < final(v)@[b],
        forall|e: u32| #[trigger] final(v)@.contains(e) <==> old(v)@.contains(e) || e == x,
{
    let n = v.len();
    let mut j: usize = 0;
    while j < n && v[j] < x
        invariant
            j <= n,
            n == v@.len(),
            v@ == old(v)@,
            forall|k: int| 0 <= k < j ==> v@[k] < x,
        decreases n - j,
    {
        j += 1;
    }
    if j < n && v[j] == x {
        proof {
            assert(old(v)@.contains(x));
        }
        return ;
    }
    let ghost pre = v@;
    v.insert(j, x);
    proof {
        pre.insert_ensures(j as int, x);
        assert forall|a: int, b: int|
            #![trigger v@[a], v@[b]]
            0 <= a < b < v@.len() implies v@[a] < v@[b] by {
            let jj = j as int;
            if b < jj {
                assert(v@[a] == pre[a] && v@[b] == pre[b]);
            } else if b == jj {
                assert(v@[a] == pre[a] && v@[b] == x);
            } else if a < jj {
                assert(v@[a] == pre[a] && v@[b] == pre[b - 1]);
                if jj < b - 1 {
                    assert(pre[jj] < pre[b - 1]);
                }
            } else if a == jj {
                assert(v@[a] == x && v@[b] == pre[b - 1]);
                if jj < b - 1 {
                    assert(pre[jj] < pre[b - 1]);
                }
            } else {
                assert(v@[a] == pre[a - 1] && v@[b] == pre[b - 1]);
            }
        }
        assert forall|e: u32| #[trigger] v@.contains(e) implies pre.contains(e) || e == x by {
            let idx = choose|idx: int| 0 <= idx < v@.len() && v@[idx] == e;
            if idx < j as int {
                assert(pre[idx] == e);
            } else if idx > j as int {
                assert(pre[idx - 1] == e);
            }
        }
        assert forall|e: u32| pre.contains(e) || e == x implies #[trigger] v@.contains(e) by {
            if e == x {
                assert(v@[j as int] == e);
            } else {
                let idx = choose|idx: int| 0 <= idx < pre.len() && pre[idx] == e;
                if idx < j as int {
                    assert(v@[idx] == e);
                } else {
                    assert(v@[idx + 1] == e);
                }
            }
        }
    }
}

/// Roll up all records of one year of a well-formed series.
fn year_total(s: &Vec<DailyCase>, year: i32) -> (r: YearlyCase)
    requires
        wf_series(s@),
    ensures
        r.year == year,
        r.positive == sum_of(sel_year(s@, year as int), f_positive()),
        r.recovered == sum_of(sel_year(s@, year as int), f_recovered()),
        r.deaths == sum_of(sel_year(s@, year as int), f_deaths()),
        r.active == sum_of(sel_year(s@, year as int), f_active()),
{
    let n = s.len();
    let mut pos: i64 = 0;
    let mut rec: i64 = 0;
    let mut dea: i64 = 0;
    let mut act: i64 = 0;
    let mut i: usize = 0;
    while i < n
        invariant
            i <= n,
            n == s@.len(),
            wf_series(s@),
            pos == sum_of(sel_year(s@.take(i as int), year as int), f_positive()),
            rec == sum_of(sel_year(s@.take(i as int), year as int), f_recovered()),
            dea == sum_of(sel_year(s@.take(i as int), year as int), f_deaths()),
            act == sum_of(sel_year(s@.take(i as int), year as int), f_active()),
        decreases n - i,
    {
        let c = s[i];
        proof {
            let pre = s@.take(i as int);
            let g = sel_year(pre, year as int);
            assert(s@.take(i as int + 1) =~= pre.push(s@[i as int]));
            lemma_sel_push(pre, year_pred(year as int), s@[i as int]);
            lemma_sum_push(g, f_positive(), s@[i as int]);
            lemma_sum_push(g, f_recovered(), s@[i as int]);
            lemma_sum_push(g, f_deaths(), s@[i as int]);
            lemma_sum_push(g, f_active(), s@[i as int]);
            lemma_wf_take(s@, i as int);
            lemma_sel_year_len(pre, year as int);
            lemma_sum_bound(g, f_positive(), 0x8000_0000);
            lemma_sum_bound(g, f_recovered(), 0x8000_0000);
            lemma_sum_bound(g, f_deaths(), 0x8000_0000);
            lemma_sum_bound(g, f_active(), 0x8000_0000);
        }
        if c.year == year {
            pos = pos + c.positive as i64;
            rec = rec + c.recovered as i64;
            dea = dea + c.deaths as i64;
            act = act + c.active as i64;
        }
        i += 1;
    }
    proof {
        assert(s@.take(n as int) =~= s@);
    }
    YearlyCase { year, positive: pos, recovered: rec, deaths: dea, active: act }
}

/// Roll up all records of one month of one year of a well-formed series.
fn month_total(s: &Vec<DailyCase>, year: i32, month: u32) -> (r: MonthlyCase)
    requires
        wf_series(s@),
    ensures
        r.year == year,
        r.month == month,
        r.positive == sum_of(sel_ym(s@, year as int, month as int), f_positive()),
        r.recovered == sum_of(sel_ym(s@, year as int, month as int), f_recovered()),
        r.deaths == sum_of(sel_ym(s@, year as int, month as int), f_deaths()),
        r.active == sum_of(sel_ym(s@, year as int, month as int), f_active()),
{
    let n = s.len();
    let mut pos: i64 = 0;
    let mut rec: i64 = 0;
    let mut dea: i64 = 0;
    let mut act: i64 = 0;
    let mut i: usize = 0;
    while i < n
        invariant
            i <= n,
            n == s@.len(),
            wf_series(s@),
            pos == sum_of(sel_ym(s@.take(i as int), year as int, month as int), f_positive()),
            rec == sum_of(sel_ym(s@.take(i as int), year as int, month as int), f_recovered()),
            dea == sum_of(sel_ym(s@.take(i as int), year as int, month as int), f_deaths()),
            act == sum_of(sel_ym(s@.take(i as int), year as int, month as int), f_active()),
        decreases n - i,
    {
        let c = s[i];
        proof {
            let pre = s@.take(i as int);
            let g = sel_ym(pre, year as int, month as int);
            assert(s@.take(i as int + 1) =~= pre.push(s@[i as int]));
            lemma_sel_push(pre, ym_pred(year as int, month as int), s@[i as int]);
            lemma_sum_push(g, f_positive(), s@[i as int]);
            lemma_sum_push(g, f_recovered(), s@[i as int]);
            lemma_sum_push(g, f_deaths(), s@[i as int]);
            lemma_sum_push(g, f_active(), s@[i as int]);
            lemma_wf_take(s@, i as int);
            lemma_sel_ym_len(pre, year as int, month as int);
            lemma_sum_bound(g, f_positive(), 0x8000_0000);
            lemma_sum_bound(g, f_recovered(), 0x8000_0000);
            lemma_sum_bound(g, f_deaths(), 0x8000_0000);
            lemma_sum_bound(g, f_active(), 0x8000_0000);
        }
        if c.year == year && c.month == month {
            pos = pos + c.positive as i64;
            rec = rec + c.recovered as i64;
            dea = dea + c.deaths as i64;
            act = act + c.active as i64;
        }
        i += 1;
    }
    proof {
        assert(s@.take(n as int) =~= s@);
    }
    MonthlyCase { year, month, positive: pos, recovered: rec, deaths: dea, active: act }
}

impl DailyCases {
    /// All records of the given year, in order; `Err` exactly when the
    /// year has no records.
    pub fn get_all_days_in_a_year(self, year: i32) -> (r: Result<DailyCases, String>)
        ensures
            r is Ok <==> sel_year(self@, year as int).len() > 0,
            r matches Ok(d) ==> d@ == sel_year(self@, year as int),
            r matches Err(m) ==> m@ == "Year not found"@,
    {
        let s = self.0;
        let ghost sq = s@;
        let n = s.len();
        let mut filtered: Vec<DailyCase> = Vec::new();
        let mut i: usize = 0;
        while i < n
            invariant
                i <= n,
                n == sq.len(),
                s@ == sq,
                filtered@ == sel_year(sq.take(i as int), year as int),
            decreases n - i,
        {
            let c = s[i];
            proof {
                assert(sq.take(i as int + 1) =~= sq.take(i as int).push(sq[i as int]));
                lemma_sel_push(sq.take(i as int), year_pred(year as int), sq[i as int]);
            }
            if c.year == year {
                filtered.push(c);
            }
            i += 1;
        }
        proof {
            assert(sq.take(n as int) =~= sq);
        }
        if filtered.len() == 0 {
            Err("Year not found".to_owned())
        } else {
            Ok(DailyCases(filtered))
        }
    }

    /// All records of the given month of the given year, in order. `Err`
    /// exactly when the group is empty: "Year not found" when the whole
    /// year is absent, "Month not found" otherwise.
    pub fn get_all_daily_cases_in_a_month(self, year: i32, month: i32) -> (r: Result<
        DailyCases,
        String,
    >)
        ensures
            r is Ok <==> sel_ym(self@, year as int, (month as u32) as int).len() > 0,
            r matches Ok(d) ==> d@ == sel_ym(self@, year as int, (month as u32) as int),
            sel_year(self@, year as int).len() == 0 ==> (r matches Err(m) && m@
                == "Year not found"@),
            sel_year(self@, year as int).len() > 0 && sel_ym(
                self@,
                year as int,
                (month as u32) as int,
            ).len() == 0 ==> (r matches Err(m) && m@ == "Month not found"@),
    {
        let ghost sq = self@;
        let ghost y = year as int;
        let ghost mu = (month as u32) as int;
        proof {
            lemma_sel_sel(sq, year_pred(y), month_pred(mu));
            lemma_sel_ext(sq, and_pred(year_pred(y), month_pred(mu)), ym_pred(y, mu));
            lemma_sel_empty(sq, year_pred(y));
            lemma_sel_empty(sq, ym_pred(y, mu));
        }
        let in_year = match self.get_all_days_in_a_year(year) {
            Ok(d) => d,
            Err(m) => {
                proof {
                    lemma_sel_empty(sel_year(sq, y), month_pred(mu));
                }
                return Err(m);
            },
        };
        let s = in_year.0;
        let ghost yq = s@;
        let n = s.len();
        let mut filtered: Vec<DailyCase> = Vec::new();
        let mut i: usize = 0;
        while i < n
            invariant
                i <= n,
                n == yq.len(),
                s@ == yq,
                filtered@ == sel(yq.take(i as int), month_pred(mu)),
                mu == (month as u32) as int,
            decreases n - i,
        {
            let c = s[i];
            proof {
                assert(yq.take(i as int + 1) =~= yq.take(i as int).push(yq[i as int]));
                lemma_sel_push(yq.take(i as int), month_pred(mu), yq[i as int]);
            }
            if c.month == month as u32 {
                filtered.push(c);
            }
            i += 1;
        }
        proof {
            assert(yq.take(n as int) =~= yq);
        }
        if filtered.len() == 0 {
            Err("Month not found".to_owned())
        } else {
            Ok(DailyCases(filtered))
        }
    }

    /// Distinct years present in the series, strictly ascending.
    fn get_distinct_years(&self) -> (r: Vec<i32>)
        ensures
            forall|a: int, b: int|
                #![trigger r@[a], r@[b]]
                0 <= a < b < r@.len() ==> r@[a] < r@[b],
            forall|e: i32| #[trigger] r@.contains(e) <==> exists|k: int|
                0 <= k < self@.len() && (#[trigger] self@[k]).year == e,
    {
        let s = &self.0;
        let n = s.len();
        let mut years: Vec<i32> = Vec::new();
        let mut i: usize = 0;
        while i < n
            invariant
                i <= n,
                n == s@.len(),
                s@ == self@,
                forall|a: int, b: int|
                    #![trigger years@[a], years@[b]]
                    0 <= a < b < years@.len() ==> years@[a] < years@[b],
                forall|e: i32| #[trigger] years@.contains(e) <==> exists|k: int|
                    0 <= k < i && (#[trigger] s@[k]).year == e,
            decreases n - i,
        {
            let ghost pre_years = years@;
            insert_sorted_i32(&mut years, s[i].year);
            proof {
                assert forall|e: i32| #[trigger] years@.contains(e) implies (exists|k: int|
                    0 <= k < i + 1 && (#[trigger] s@[k]).year == e) by {
                    if pre_years.contains(e) {
                        let k = choose|k: int| 0 <= k < i && (#[trigger] s@[k]).year == e;
                        assert(0 <= k < i + 1 && s@[k].year == e);
                    } else {
                        assert(e == s@[i as int].year);
                    }
                }
                assert forall|e: i32| (exists|k: int|
                    0 <= k < i + 1 && (#[trigger] s@[k]).year == e) implies #[trigger] years@.contains(
                    e,
                ) by {
                    let k = choose|k: int| 0 <= k < i + 1 && (#[trigger] s@[k]).year == e;
                    if k < i {
                        assert(exists|k2: int| 0 <= k2 < i && (#[trigger] s@[k2]).year == e);
                        assert(pre_years.contains(e));
                    }
                }
            }
            i += 1;
        }
        years
    }

    /// Distinct months of the given year present in the series, strictly
    /// ascending.
    fn get_distinct_months(&self, year: i32) -> (r: Vec<u32>)
        ensures
            forall|a: int, b: int|
                #![trigger r@[a], r@[b]]
                0 <= a < b < r@.len() ==> r@[a] < r@[b],
            forall|e: u32| #[trigger] r@.contains(e) <==> exists|k: int|
                0 <= k < self@.len() && (#[trigger] self@[k]).year == year && self@[k].month == e,
    {
        let s = &self.0;
        let n = s.len();
        let mut months: Vec<u32> = Vec::new();
        let mut i: usize = 0;
        while i < n
            invariant
                i <= n,
                n == s@.len(),
                s@ == self@,
                forall|a: int, b: int|
                    #![trigger months@[a], months@[b]]
                    0 <= a < b < months@.len() ==> months@[a] < months@[b],
                forall|e: u32| #[trigger] months@.contains(e) <==> exists|k: int|
                    0 <= k < i && (#[trigger] s@[k]).year == year && s@[k].month == e,
            decreases n - i,
        {
            let c = s[i];
            let ghost pre_months = months@;
            if c.year == year {
                insert_sorted_u32(&mut months, c.month);
            }
            proof {
                assert forall|e: u32| #[trigger] months@.contains(e) implies (exists|k: int|
                    0 <= k < i + 1 && (#[trigger] s@[k]).year == year && s@[k].month == e) by {
                    if pre_months.contains(e) {
                        let k = choose|k: int|
                            0 <= k < i && (#[trigger] s@[k]).year == year && s@[k].month == e;
                        assert(0 <= k < i + 1 && s@[k].year == year && s@[k].month == e);
                    } else {
                        assert(s@[i as int].year == year && e == s@[i as int].month);
                    }
                }
                assert forall|e: u32| (exists|k: int|
                    0 <= k < i + 1 && (#[trigger] s@[k]).year == year && s@[k].month
                        == e) implies #[trigger] months@.contains(e) by {
                    let k = choose|k: int|
                        0 <= k < i + 1 && (#[trigger] s@[k]).year == year && s@[k].month == e;
                    if k < i {
                        assert(exists|k2: int|
                            0 <= k2 < i && (#[trigger] s@[k2]).year == year && s@[k2].month == e);
                        assert(pre_months.contains(e));
                    }
                }
            }
            i += 1;
        }
        months
    }

    /// The yearly roll-up of a well-formed series: one entry per year
    /// present, ascending, each the sum of its year's records.
    pub fn to_yearly(&self) -> (r: YearlyCases)
        requires
            self.wf(),
        ensures
            is_yearly_rollup(self@, r@),
    {
        let years = self.get_distinct_years();
        let ghost ys = years@;
        let m = years.len();
        let mut out: Vec<YearlyCase> = Vec::new();
        let mut a: usize = 0;
        while a < m
            invariant
                a <= m,
                m == ys.len(),
                years@ == ys,
                wf_series(self@),
                out@.len() == a,
                forall|i: int| 0 <= i < a ==> (#[trigger] out@[i]).year == ys[i],
                forall|i: int| 0 <= i < a ==> yearly_entry_matches(self@, #[trigger] out@[i]),
                forall|x: int, b: int|
                    #![trigger ys[x], ys[b]]
                    0 <= x < b < ys.len() ==> ys[x] < ys[b],
                forall|e: i32| #[trigger] ys.contains(e) <==> exists|k: int|
                    0 <= k < self@.len() && (#[trigger] self@[k]).year == e,
            decreases m - a,
        {
            let y = years[a];
            let yc = year_total(&self.0, y);
            proof {
                assert(ys.contains(ys[a as int]));
                let k = choose|k: int| 0 <= k < self@.len() && (#[trigger] self@[k]).year == y;
                assert(year_pred(y as int)(self@[k]));
                lemma_sel_complete(self@, year_pred(y as int));
                assert(sel_year(self@, y as int).contains(self@[k]));
            }
            out.push(yc);
            a += 1;
        }
        proof {
            assert forall|k: int| 0 <= k < self@.len() implies has_year_entry(
                out@,
                (#[trigger] self@[k]).year as int,
            ) by {
                assert(ys.contains(self@[k].year));
                let i = choose|i: int| 0 <= i < ys.len() && ys[i] == self@[k].year;
                assert(0 <= i < out@.len() && out@[i].year == self@[k].year);
            }
        }
        YearlyCases(out)
    }

    /// The monthly roll-up of one year of a well-formed series: one entry
    /// per month of that year present, ascending by month.
    fn months_for_year(&self, year: i32) -> (r: Vec<MonthlyCase>)
        requires
            self.wf(),
        ensures
            is_months_of_year(self@, year as int, r@),
    {
        let months = self.get_distinct_months(year);
        let ghost ms = months@;
        let m = months.len();
        let mut out: Vec<MonthlyCase> = Vec::new();
        let mut a: usize = 0;
        while a < m
            invariant
                a <= m,
                m == ms.len(),
                months@ == ms,
                wf_series(self@),
                out@.len() == a,
                forall|i: int|
                    0 <= i < a ==> (#[trigger] out@[i]).year == year && out@[i].month == ms[i],
                forall|i: int| 0 <= i < a ==> monthly_entry_matches(self@, #[trigger] out@[i]),
                forall|x: int, b: int|
                    #![trigger ms[x], ms[b]]
                    0 <= x < b < ms.len() ==> ms[x] < ms[b],
                forall|e: u32| #[trigger] ms.contains(e) <==> exists|k: int|
                    0 <= k < self@.len() && (#[trigger] self@[k]).year == year && self@[k].month
                        == e,
            decreases m - a,
        {
            let mo = months[a];
            let mc = month_total(&self.0, year, mo);
            proof {
                assert(ms.contains(ms[a as int]));
                let k = choose|k: int|
                    0 <= k < self@.len() && (#[trigger] self@[k]).year == year && self@[k].month
                        == mo;
                assert(ym_pred(year as int, mo as int)(self@[k]));
                lemma_sel_complete(self@, ym_pred(year as int, mo as int));
                assert(sel_ym(self@, year as int, mo as int).contains(self@[k]));
            }
            out.push(mc);
            a += 1;
        }
        proof {
            assert forall|k: int|
                0 <= k < self@.len() && (#[trigger] self@[k]).year == year as int implies has_month_entry(
                out@,
                year as int,
                self@[k].month as int,
            ) by {
                assert(ms.contains(self@[k].month));
                let i = choose|i: int| 0 <= i < ms.len() && ms[i] == self@[k].month;
                assert(0 <= i < out@.len() && out@[i].year == year && out@[i].month
                    == self@[k].month);
            }
        }
        out
    }

    /// The monthly roll-up of a well-formed series: one entry per
    /// (year, month) present, ascending by year then month, each the sum
    /// of its group's records.
    pub fn to_monthly(&self) -> (r: MonthlyCases)
        requires
            self.wf(),
        ensures
            is_monthly_rollup(self@, r@),
    {
        let years = self.get_distinct_years();
        let ghost ys = years@;
        let m = years.len();
        let mut out: Vec<MonthlyCase> = Vec::new();
        let mut a: usize = 0;
        while a < m
            invariant
                a <= m,
                m == ys.len(),
                years@ == ys,
                wf_series(self@),
                forall|x: int, b: int|
                    #![trigger ys[x], ys[b]]
                    0 <= x < b < ys.len() ==> ys[x] < ys[b],
                forall|e: i32| #[trigger] ys.contains(e) <==> exists|k: int|
                    0 <= k < self@.len() && (#[trigger] self@[k]).year == e,
                forall|i: int, j: int|
                    #![trigger out@[i], out@[j]]
                    0 <= i < j < out@.len() ==> ym_lt(out@[i], out@[j]),
                forall|i: int| 0 <= i < out@.len() ==> monthly_entry_matches(self@, #[trigger] out@[i]),
                forall|i: int|
                    0 <= i < out@.len() ==> exists|b: int|
                        0 <= b < a && (#[trigger] ys[b]) == (#[trigger] out@[i]).year,
                forall|b: int, k: int|
                    #![trigger ys[b], self@[k]]
                    0 <= b < a && 0 <= k < self@.len() && self@[k].year == ys[b]
                        ==> has_month_entry(out@, self@[k].year as int, self@[k].month as int),
            decreases m - a,
        {
            let y = years[a];
            let mut block = self.months_for_year(y);
            let ghost blockq = block@;
            let ghost outq = out@;
            out.append(&mut block);
            proof {
                let na = outq.len() as int;
                assert(out@ == outq + blockq);
                assert forall|i: int, j: int|
                    #![trigger out@[i], out@[j]]
                    0 <= i < j < out@.len() implies ym_lt(out@[i], out@[j]) by {
                    if j < na {
                        assert(out@[i] == outq[i] && out@[j] == outq[j]);
                    } else if i >= na {
                        assert(out@[i] == blockq[i - na] && out@[j] == blockq[j - na]);
                        assert(blockq[i - na].month < blockq[j - na].month);
                    } else {
                        assert(out@[i] == outq[i] && out@[j] == blockq[j - na]);
                        let b = choose|b: int|
                            0 <= b < a && (#[trigger] ys[b]) == (#[trigger] outq[i]).year;
                        assert(ys[b] < ys[a as int]);
                        assert(blockq[j - na].year == y);
                    }
                }
                assert forall|i: int| 0 <= i < out@.len() implies monthly_entry_matches(
                    self@,
                    #[trigger] out@[i],
                ) by {
                    if i < na {
                        assert(out@[i] == outq[i]);
                    } else {
                        assert(out@[i] == blockq[i - na]);
                    }
                }
                assert forall|i: int| 0 <= i < out@.len() implies exists|b: int|
                    0 <= b < a + 1 && (#[trigger] ys[b]) == (#[trigger] out@[i]).year by {
                    if i < na {
                        let b = choose|b: int|
                            0 <= b < a && (#[trigger] ys[b]) == (#[trigger] outq[i]).year;
                        assert(0 <= b < a + 1 && ys[b] == out@[i].year);
                    } else {
                        assert(out@[i] == blockq[i - na]);
                        assert(ys[a as int] == out@[i].year);
                    }
                }
                assert forall|b: int, k: int|
                    #![trigger ys[b], self@[k]]
                    0 <= b < a + 1 && 0 <= k < self@.len() && self@[k].year == ys[b]
                        implies has_month_entry(
                    out@,
                    self@[k].year as int,
                    self@[k].month as int,
                ) by {
                    if b < a {
                        assert(has_month_entry(outq, self@[k].year as int, self@[k].month as int));
                        let i = choose|i: int|
                            0 <= i < outq.len() && (#[trigger] outq[i]).year
                                == self@[k].year as int && outq[i].month == self@[k].month as int;
                        assert(out@[i] == outq[i]);
                    } else {
                        assert(self@[k].year == y);
                        assert(has_month_entry(blockq, y as int, self@[k].month as int));
                        let t = choose|t: int|
                            0 <= t < blockq.len() && (#[trigger] blockq[t]).year == y as int
                                && blockq[t].month == self@[k].month as int;
                        assert(out@[na + t] == blockq[t]);
                    }
                }
            }
            a += 1;
        }
        proof {
            assert forall|k: int| 0 <= k < self@.len() implies has_month_entry(
                out@,
                (#[trigger] self@[k]).year as int,
                self@[k].month as int,
            ) by {
                assert(ys.contains(self@[k].year));
                let b = choose|b: int| 0 <= b < ys.len() && ys[b] == self@[k].year;
                assert(ys[b] == self@[k].year);
            }
        }
        MonthlyCases(out)
    }

    /// The monthly roll-up entries of one year; `Err` exactly when the
    /// year has no records.
    pub fn get_all_months_in_a_year(&self, year: i32) -> (r: Result<MonthlyCases, String>)
        requires
            self.wf(),
        ensures
            r is Ok <==> sel_year(self@, year as int).len() > 0,
            r matches Ok(ms) ==> is_months_of_year(self@, year as int, ms@),
            r matches Err(m) ==> m@ == "Year not found"@,
    {
        let s = &self.0;
        let n = s.len();
        let mut found = false;
        let mut i: usize = 0;
        while i < n
            invariant
                i <= n,
                n == s@.len(),
                s@ == self@,
                found <==> exists|k: int| 0 <= k < i && (#[trigger] s@[k]).year == year,
            decreases n - i,
        {
            if s[i].year == year {
                found = true;
                proof {
                    assert(s@[i as int].year == year);
                }
            }
            i += 1;
        }
        if !found {
            proof {
                lemma_sel_empty(self@, year_pred(year as int));
                assert forall|k: int| 0 <= k < self@.len() implies !year_pred(year as int)(
                    #[trigger] self@[k],
                ) by {}
            }
            return Err("Year not found".to_owned());
        }
        proof {
            let k = choose|k: int| 0 <= k < self@.len() && (#[trigger] self@[k]).year == year;
            assert(year_pred(year as int)(self@[k]));
            lemma_sel_complete(self@, year_pred(year as int));
            assert(sel_year(self@, year as int).contains(self@[k]));
        }
        Ok(MonthlyCases(self.months_for_year(year)))
    }

    /// The monthly roll-up entry of one (year, month). `Err` exactly when
    /// the group is empty, naming the absent component.
    pub fn get_specific_month(self, year: i32, month: i32) -> (r: Result<MonthlyCase, String>)
        requires
            self.wf(),
        ensures
            r is Ok <==> sel_ym(self@, year as int, (month as u32) as int).len() > 0,
            r matches Ok(mc) ==> mc.year == year && mc.month == month as u32
                && monthly_entry_matches(self@, mc),
            sel_year(self@, year as int).len() == 0 ==> (r matches Err(m) && m@
                == "Year not found"@),
            sel_year(self@, year as int).len() > 0 && sel_ym(
                self@,
                year as int,
                (month as u32) as int,
            ).len() == 0 ==> (r matches Err(m) && m@ == "Month not found"@),
    {
        let ghost y = year as int;
        let ghost mu = (month as u32) as int;
        let s = &self.0;
        let n = s.len();
        let mut found_year = false;
        let mut found_month = false;
        let mut i: usize = 0;
        while i < n
            invariant
                i <= n,
                n == s@.len(),
                s@ == self@,
                found_year <==> exists|k: int| 0 <= k < i && (#[trigger] s@[k]).year == year,
                found_month <==> exists|k: int|
                    0 <= k < i && (#[trigger] s@[k]).year == year && s@[k].month == month as u32,
            decreases n - i,
        {
            if s[i].year == year {
                found_year = true;
                proof {
                    assert(s@[i as int].year == year);
                }
                if s[i].month == month as u32 {
                    found_month = true;
                    proof {
                        assert(s@[i as int].year == year && s@[i as int].month == month as u32);
                    }
                }
            }
            i += 1;
        }
        if !found_year {
            proof {
                lemma_sel_empty(self@, year_pred(y));
                lemma_sel_empty(self@, ym_pred(y, mu));
                assert forall|k: int| 0 <= k < self@.len() implies !year_pred(y)(
                    #[trigger] self@[k],
                ) && !ym_pred(y, mu)(self@[k]) by {}
            }
            return Err("Year not found".to_owned());
        }
        if !found_month {
            proof {
                lemma_sel_empty(self@, ym_pred(y, mu));
                assert forall|k: int| 0 <= k < self@.len() implies !ym_pred(y, mu)(
                    #[trigger] self@[k],
                ) by {}
                let k = choose|k: int| 0 <= k < self@.len() && (#[trigger] self@[k]).year == year;
                assert(year_pred(y)(self@[k]));
                lemma_sel_complete(self@, year_pred(y));
                assert(sel_year(self@, y).contains(self@[k]));
            }
            return Err("Month not found".to_owned());
        }
        proof {
            let k = choose|k: int|
                0 <= k < self@.len() && (#[trigger] self@[k]).year == year && self@[k].month
                    == month as u32;
            assert(ym_pred(y, mu)(self@[k]));
            assert(year_pred(y)(self@[k]));
            lemma_sel_complete(self@, ym_pred(y, mu));
            lemma_sel_complete(self@, year_pred(y));
            assert(sel_ym(self@, y, mu).contains(self@[k]));
            assert(sel_year(self@, y).contains(self@[k]));
        }
        Ok(month_total(&self.0, year, month as u32))
    }

    /// The yearly roll-up entry of one year; `Err` exactly when the year
    /// has no records.
    pub fn to_specific_yearly(&self, year: i32) -> (r: Result<YearlyCase, String>)
        requires
            self.wf(),
        ensures
            r is Ok <==> sel_year(self@, year as int).len() > 0,
            r matches Ok(yc) ==> yc.year == year && yearly_entry_matches(self@, yc),
            r matches Err(m) ==> m@ == "Year not found"@,
    {
        let s = &self.0;
        let n = s.len();
        let mut found = false;
        let mut i: usize = 0;
        while i < n
            invariant
                i <= n,
                n == s@.len(),
                s@ == self@,
                found <==> exists|k: int| 0 <= k < i && (#[trigger] s@[k]).year == year,
            decreases n - i,
        {
            if s[i].year == year {
                found = true;
                proof {
                    assert(s@[i as int].year == year);
                }
            }
            i += 1;
        }
        if !found {
            proof {
                lemma_sel_empty(self@, year_pred(year as int));
                assert forall|k: int| 0 <= k < self@.len() implies !year_pred(year as int)(
                    #[trigger] self@[k],
                ) by {}
            }
            return Err("Year not found".to_owned());
        }
        proof {
            let k = choose|k: int| 0 <= k < self@.len() && (#[trigger] self@[k]).year == year;
            assert(year_pred(year as int)(self@[k]));
            lemma_sel_complete(self@, year_pred(year as int));
            assert(sel_year(self@, year as int).contains(self@[k]));
        }
        Ok(year_total(&self.0, year))
    }

    /// The single record of the given calendar day. `Err` exactly when no
    /// record falls on it, naming the innermost absent component.
    pub fn get_specific_day(self, year: i32, month: i32, day: i32) -> (r: Result<
        DailyCase,
        String,
    >)
        ensures
            r is Ok <==> exists|k: int|
                0 <= k < self@.len() && (#[trigger] self@[k]).year == year && self@[k].month
                    == month as u32 && self@[k].day == day as u32,
            r matches Ok(c) ==> self@.contains(c) && c.year == year && c.month == month as u32
                && c.day == day as u32,
            sel_year(self@, year as int).len() == 0 ==> (r matches Err(m) && m@
                == "Year not found"@),
            sel_year(self@, year as int).len() > 0 && sel_ym(
                self@,
                year as int,
                (month as u32) as int,
            ).len() == 0 ==> (r matches Err(m) && m@ == "Month not found"@),
            sel_ym(self@, year as int, (month as u32) as int).len() > 0 && (forall|k: int|
                0 <= k < self@.len() ==> !((#[trigger] self@[k]).year == year && self@[k].month
                    == month as u32 && self@[k].day == day as u32)) ==> (r matches Err(m) && m@
                == "Day not found"@),
    {
        let ghost sq = self@;
        let ghost y = year as int;
        let ghost mu = (month as u32) as int;
        proof {
            lemma_sel_sub(sq, ym_pred(y, mu));
            lemma_sel_complete(sq, ym_pred(y, mu));
        }
        let in_month = match self.get_all_daily_cases_in_a_month(year, month) {
            Ok(d) => d,
            Err(m) => {
                proof {
                    assert forall|k: int|
                        0 <= k < sq.len() && (#[trigger] sq[k]).year == year && sq[k].month
                            == month as u32 implies false by {
                        assert(ym_pred(y, mu)(sq[k]));
                        assert(sel_ym(sq, y, mu).contains(sq[k]));
                    }
                }
                return Err(m);
            },
        };
        let s = in_month.0;
        let n = s.len();
        let mut i: usize = 0;
        let mut hit: Option<DailyCase> = None;
        while i < n
            invariant
                i <= n,
                n == s@.len(),
                hit is None ==> forall|j: int| 0 <= j < i ==> (#[trigger] s@[j]).day != day as u32,
                hit matches Some(c) ==> (exists|j: int|
                    0 <= j < i && (#[trigger] s@[j]) == c && c.day == day as u32),
            decreases n - i,
        {
            let c = s[i];
            if hit.is_none() && c.day == day as u32 {
                hit = Some(c);
            }
            i += 1;
        }
        match hit {
            Some(c) => {
                proof {
                    lemma_sel_sub(sq, ym_pred(y, mu));
                    let j = choose|j: int|
                        0 <= j < s@.len() && (#[trigger] s@[j]) == c && c.day == day as u32;
                    assert(ym_pred(y, mu)(s@[j]));
                    assert(sq.contains(s@[j]));
                    let k = choose|k: int| 0 <= k < sq.len() && sq[k] == c;
                    assert(sq[k].year == year && sq[k].month == month as u32 && sq[k].day
                        == day as u32);
                }
                Ok(c)
            },
            None => {
                proof {
                    lemma_sel_sub(sq, ym_pred(y, mu));
                    lemma_sel_complete(sq, ym_pred(y, mu));
                    assert forall|k: int|
                        0 <= k < sq.len() implies !((#[trigger] sq[k]).year == year && sq[k].month
                        == month as u32 && sq[k].day == day as u32) by {
                        if sq[k].year == year && sq[k].month == month as u32 {
                            assert(ym_pred(y, mu)(sq[k]));
                            assert(sel_ym(sq, y, mu).contains(sq[k]));
                            let j = choose|j: int| 0 <= j < s@.len() && s@[j] == sq[k];
                            assert(s@[j].day != day as u32);
                        }
                    }
                }
                Err("Day not found".to_owned())
            },
        }
    }
}

} // verus!
