//! Parsing of `since`/`upto` date-boundary strings: dash-delimited numeric
//! strings at year, year-month and year-month-day granularity, validated
//! against the real calendar.

use vstd::prelude::*;
use crate::calendar::{days_in_month, last_day_of_month};

verus! {

pub open spec fn is_digit(c: char) -> bool {
    '0' <= c && c <= '9'
}

pub open spec fn digit_val(c: char) -> int {
    c as int - '0' as int
}

pub open spec fn all_digits(s: Seq<char>) -> bool {
    forall|i: int| 0 <= i < s.len() ==> is_digit(#[trigger] s[i])
}

/// Value of a string of decimal digits, most significant first.
pub open spec fn digits_val(s: Seq<char>) -> int
    decreases s.len(),
{
    if s.len() == 0 {
        0
    } else {
        digits_val(s.drop_last()) * 10 + digit_val(s.last())
    }
}

/// Indices of the dash delimiters, ascending.
pub open spec fn dash_positions(s: Seq<char>) -> Seq<int>
    decreases s.len(),
{
    if s.len() == 0 {
        Seq::empty()
    } else {
        let rest = dash_positions(s.drop_last());
        if s.last() == '-' {
            rest.push(s.len() - 1)
        } else {
            rest
        }
    }
}

/// A year segment: digits denoting a positive value that fits an `i32`.
pub open spec fn valid_year_seg(s: Seq<char>) -> bool {
    s.len() > 0 && all_digits(s) && 1 <= digits_val(s) <= 0x7fff_ffff
}

/// A month segment: digits denoting a month between 1 and 12.
pub open spec fn valid_month_seg(s: Seq<char>) -> bool {
    s.len() > 0 && all_digits(s) && 1 <= digits_val(s) <= 12
}

/// A day segment: digits denoting a real day of month `m` of year `y`.
pub open spec fn valid_day_seg(s: Seq<char>, y: int, m: int) -> bool {
    s.len() > 0 && all_digits(s) && 1 <= digits_val(s) <= days_in_month(y, m)
}

/// A year-granularity boundary string: no delimiter, one year segment.
pub open spec fn valid_year_str(s: Seq<char>) -> bool {
    dash_positions(s).len() == 0 && valid_year_seg(s)
}

pub open spec fn year_str_val(s: Seq<char>) -> int {
    digits_val(s)
}

/// A year-month boundary string: exactly one delimiter, year then month.
pub open spec fn valid_ym_str(s: Seq<char>) -> bool {
    let dp = dash_positions(s);
    &&& dp.len() == 1
    &&& valid_year_seg(s.subrange(0, dp[0]))
    &&& valid_month_seg(s.subrange(dp[0] + 1, s.len() as int))
}

pub open spec fn ym_year(s: Seq<char>) -> int {
    digits_val(s.subrange(0, dash_positions(s)[0]))
}

pub open spec fn ym_month(s: Seq<char>) -> int {
    digits_val(s.subrange(dash_positions(s)[0] + 1, s.len() as int))
}

/// A year-month-day boundary string: exactly two delimiters, the day
/// checked against the leap-aware calendar.
pub open spec fn valid_ymd_str(s: Seq<char>) -> bool {
    let dp = dash_positions(s);
    &&& dp.len() == 2
    &&& valid_year_seg(s.subrange(0, dp[0]))
    &&& valid_month_seg(s.subrange(dp[0] + 1, dp[1]))
    &&& valid_day_seg(
        s.subrange(dp[1] + 1, s.len() as int),
        digits_val(s.subrange(0, dp[0])),
        digits_val(s.subrange(dp[0] + 1, dp[1])),
    )
}

pub open spec fn ymd_year(s: Seq<char>) -> int {
    digits_val(s.subrange(0, dash_positions(s)[0]))
}

pub open spec fn ymd_month(s: Seq<char>) -> int {
    digits_val(s.subrange(dash_positions(s)[0] + 1, dash_positions(s)[1]))
}

pub open spec fn ymd_day(s: Seq<char>) -> int {
    digits_val(s.subrange(dash_positions(s)[1] + 1, s.len() as int))
}

/// A digit string's value is nonnegative.
pub proof fn lemma_digits_val_nonneg(s: Seq<char>)
    requires
        all_digits(s),
    ensures
        digits_val(s) >= 0,
    decreases s.len(),
{
    if s.len() > 0 {
        assert(forall|i: int| 0 <= i < s.drop_last().len() ==> s.drop_last()[i] == s[i]);
        lemma_digits_val_nonneg(s.drop_last());
        assert(is_digit(s[s.len() - 1]));
    }
}

/// Extending a digit string cannot decrease its value.
pub proof fn lemma_digits_val_take_le(s: Seq<char>, k: int)
    requires
        all_digits(s),
        0 <= k <= s.len(),
    ensures
        digits_val(s.take(k)) <= digits_val(s),
    decreases s.len(),
{
    if k < s.len() {
        assert(forall|i: int| 0 <= i < s.drop_last().len() ==> s.drop_last()[i] == s[i]);
        assert(s.take(k) =~= s.drop_last().take(k));
        lemma_digits_val_take_le(s.drop_last(), k);
        lemma_digits_val_nonneg(s.drop_last());
        assert(is_digit(s[s.len() - 1]));
    } else {
        assert(s.take(k) =~= s);
    }
}

/// Appending a digit multiplies the value by ten and adds the digit.
pub proof fn lemma_digits_push(t: Seq<char>, c: char)
    ensures
        digits_val(t.push(c)) == digits_val(t) * 10 + digit_val(c),
{
    assert(t.push(c).drop_last() =~= t);
    assert(t.push(c).last() == c);
}

/// Appending one character to the scanned prefix extends its dash list
/// exactly when the character is a dash.
pub proof fn lemma_dash_push(t: Seq<char>, c: char)
    ensures
        dash_positions(t.push(c)) == if c == '-' {
            dash_positions(t).push(t.len() as int)
        } else {
            dash_positions(t)
        },
{
    assert(t.push(c).drop_last() =~= t);
    assert(t.push(c).last() == c);
}

/// Dash positions index dashes of the string, ascending.
pub proof fn lemma_dash_positions_props(s: Seq<char>)
    ensures
        forall|k: int|
            0 <= k < dash_positions(s).len() ==> 0 <= #[trigger] dash_positions(s)[k] < s.len()
                && s[dash_positions(s)[k]] == '-',
        forall|a: int, b: int|
            #![trigger dash_positions(s)[a], dash_positions(s)[b]]
            0 <= a < b < dash_positions(s).len() ==> dash_positions(s)[a] < dash_positions(s)[b],
    decreases s.len(),
{
    if s.len() > 0 {
        lemma_dash_positions_props(s.drop_last());
        let rest = dash_positions(s.drop_last());
        assert(forall|i: int| 0 <= i < s.drop_last().len() ==> s.drop_last()[i] == s[i]);
        if s.last() == '-' {
            assert forall|k: int| 0 <= k < dash_positions(s).len() implies 0
                <= #[trigger] dash_positions(s)[k] < s.len() && s[dash_positions(s)[k]]
                == '-' by {
                if k < rest.len() {
                    assert(dash_positions(s)[k] == rest[k]);
                } else {
                    assert(dash_positions(s)[k] == s.len() - 1);
                }
            }
        }
    }
}

/// Collect the dash positions of a boundary string.
fn dash_positions_exec(s: &str) -> (r: Vec<usize>)
    ensures
        r@.len() == dash_positions(s@).len(),
        forall|k: int| 0 <= k < r@.len() ==> #[trigger] r@[k] as int == dash_positions(s@)[k],
{
    let n = s.unicode_len();
    let mut out: Vec<usize> = Vec::new();
    let mut i: usize = 0;
    while i < n
        invariant
            i <= n,
            n == s@.len(),
            out@.len() == dash_positions(s@.take(i as int)).len(),
            forall|k: int|
                0 <= k < out@.len() ==> #[trigger] out@[k] as int == dash_positions(
                    s@.take(i as int),
                )[k],
        decreases n - i,
    {
        let c = s.get_char(i);
        proof {
            assert(s@.take(i as int + 1) =~= s@.take(i as int).push(s@[i as int]));
            lemma_dash_push(s@.take(i as int), s@[i as int]);
        }
        if c == '-' {
            out.push(i);
        }
        i += 1;
    }
    proof {
        assert(s@.take(n as int) =~= s@);
    }
    out
}

/// Parse the digit segment `[from, to)` of a boundary string; `None`
/// exactly when it is empty, holds a non-digit, or exceeds `i32`.
fn parse_num_seg(s: &str, from: usize, to: usize) -> (r: Option<i32>)
    requires
        from <= to <= s@.len(),
    ensures
        r is Some <==> (from < to && all_digits(s@.subrange(from as int, to as int))
            && digits_val(s@.subrange(from as int, to as int)) <= 0x7fff_ffff),
        r matches Some(v) ==> 0 <= v && v as int == digits_val(
            s@.subrange(from as int, to as int),
        ),
{
    let ghost seg = s@.subrange(from as int, to as int);
    if from == to {
        return None;
    }
    let mut acc: i64 = 0;
    let mut i: usize = from;
    while i < to
        invariant
            from <= i <= to <= s@.len(),
            seg == s@.subrange(from as int, to as int),
            all_digits(seg.take(i - from)),
            0 <= acc <= 0x7fff_ffff,
            acc as int == digits_val(seg.take(i - from)),
        decreases to - i,
    {
        let c = s.get_char(i);
        if !('0' <= c && c <= '9') {
            proof {
                assert(seg[i - from] == s@[i as int]);
                assert(!is_digit(seg[i - from]));
            }
            return None;
        }
        let d = (c as u32) - ('0' as u32);
        acc = acc * 10 + (d as i64);
        proof {
            assert(seg.take(i - from + 1) =~= seg.take(i - from).push(seg[i - from]));
            assert(seg[i - from] == s@[i as int]);
            assert(is_digit(seg[i - from]));
            lemma_digits_push(seg.take(i - from), seg[i - from]);
            assert(digit_val(seg[i - from]) == d as int);
            assert forall|k: int| 0 <= k < seg.take(i - from + 1).len() implies is_digit(
                #[trigger] seg.take(i - from + 1)[k],
            ) by {
                if k < i - from {
                    assert(seg.take(i - from + 1)[k] == seg.take(i - from)[k]);
                } else {
                    assert(seg.take(i - from + 1)[k] == seg[i - from]);
                }
            }
        }
        if acc > 0x7fff_ffff {
            proof {
                if all_digits(seg) {
                    lemma_digits_val_take_le(seg, i - from + 1);
                }
            }
            return None;
        }
        i += 1;
    }
    proof {
        assert(seg.take(to - from) =~= seg);
    }
    Some(acc as i32)
}

/// A calendar day used as a range boundary.
#[derive(Clone, Copy, Debug, PartialEq, Eq, Structural)]
pub struct YearMonthDay {
    pub year: i32,
    pub month: u32,
    pub day: u32,
}

/// A calendar month used as a range boundary.
#[derive(Clone, Copy, Debug, PartialEq, Eq, Structural)]
pub struct YearMonth {
    pub year: i32,
    pub month: u32,
}

/// Parse a `YYYY-MM-DD` boundary; `None` exactly when the string is not a
/// valid day-granularity boundary.
pub fn parse_day_boundary(s: &str) -> (r: Option<YearMonthDay>)
    ensures
        r is Some <==> valid_ymd_str(s@),
        r matches Some(b) ==> b.year as int == ymd_year(s@) && b.month as int == ymd_month(s@)
            && b.day as int == ymd_day(s@),
        r matches Some(b) ==> 1 <= b.year && 1 <= b.month <= 12 && 1 <= b.day && b.day as int
            <= days_in_month(b.year as int, b.month as int),
{
    proof {
        lemma_dash_positions_props(s@);
    }
    let n = s.unicode_len();
    let dp = dash_positions_exec(s);
    if dp.len() != 2 {
        return None;
    }
    let p1 = dp[0];
    let p2 = dp[1];
    proof {
        assert(dash_positions(s@)[0] < s@.len() && dash_positions(s@)[1] < s@.len());
        assert(dash_positions(s@)[0] < dash_positions(s@)[1]);
    }
    let year = match parse_num_seg(s, 0, p1) {
        Some(v) => v,
        None => {
            return None;
        },
    };
    if year < 1 {
        return None;
    }
    let month = match parse_num_seg(s, p1 + 1, p2) {
        Some(v) => v,
        None => {
            return None;
        },
    };
    if month < 1 || month > 12 {
        return None;
    }
    let day = match parse_num_seg(s, p2 + 1, n) {
        Some(v) => v,
        None => {
            return None;
        },
    };
    if day < 1 || day > last_day_of_month(year, month as u32) as i32 {
        return None;
    }
    Some(YearMonthDay { year, month: month as u32, day: day as u32 })
}

/// Parse a `YYYY-MM` boundary; `None` exactly when the string is not a
/// valid month-granularity boundary.
pub fn parse_month_boundary(s: &str) -> (r: Option<YearMonth>)
    ensures
        r is Some <==> valid_ym_str(s@),
        r matches Some(b) ==> b.year as int == ym_year(s@) && b.month as int == ym_month(s@),
        r matches Some(b) ==> 1 <= b.year && 1 <= b.month <= 12,
{
    proof {
        lemma_dash_positions_props(s@);
    }
    let n = s.unicode_len();
    let dp = dash_positions_exec(s);
    if dp.len() != 1 {
        return None;
    }
    let p1 = dp[0];
    proof {
        assert(dash_positions(s@)[0] < s@.len());
    }
    let year = match parse_num_seg(s, 0, p1) {
        Some(v) => v,
        None => {
            return None;
        },
    };
    if year < 1 {
        return None;
    }
    let month = match parse_num_seg(s, p1 + 1, n) {
        Some(v) => v,
        None => {
            return None;
        },
    };
    if month < 1 || month > 12 {
        return None;
    }
    Some(YearMonth { year, month: month as u32 })
}

/// Parse a `YYYY` boundary; `None` exactly when the string is not a valid
/// year-granularity boundary.
pub fn parse_year_boundary(s: &str) -> (r: Option<i32>)
    ensures
        r is Some <==> valid_year_str(s@),
        r matches Some(y) ==> y as int == year_str_val(s@) && 1 <= y,
{
    let dp = dash_positions_exec(s);
    if dp.len() != 0 {
        return None;
    }
    let year = match parse_num_seg(s, 0, s.unicode_len()) {
        Some(v) => v,
        None => {
            proof {
                assert(s@.subrange(0, s@.len() as int) =~= s@);
            }
            return None;
        },
    };
    proof {
        assert(s@.subrange(0, s@.len() as int) =~= s@);
    }
    if year < 1 {
        return None;
    }
    Some(year)
}

/// The boundary a day-granularity string denotes, if it is valid.
pub open spec fn spec_day_boundary(s: Seq<char>) -> Option<YearMonthDay> {
    if valid_ymd_str(s) {
        Some(
            YearMonthDay {
                year: ymd_year(s) as i32,
                month: ymd_month(s) as u32,
                day: ymd_day(s) as u32,
            },
        )
    } else {
        None
    }
}

/// The boundary a month-granularity string denotes, if it is valid.
pub open spec fn spec_month_boundary(s: Seq<char>) -> Option<YearMonth> {
    if valid_ym_str(s) {
        Some(YearMonth { year: ym_year(s) as i32, month: ym_month(s) as u32 })
    } else {
        None
    }
}

/// The boundary a year-granularity string denotes, if it is valid.
pub open spec fn spec_year_boundary(s: Seq<char>) -> Option<i32> {
    if valid_year_str(s) {
        Some(year_str_val(s) as i32)
    } else {
        None
    }
}

/// A validated boundary string: a year, year-month or year-month-day form.
#[derive(Debug, PartialEq)]
pub struct DateConstraintString(String);

impl View for DateConstraintString {
    type V = Seq<char>;

    closed spec fn view(&self) -> Seq<char> {
        self.0@
    }
}

impl DateConstraintString {
    /// Validate a raw boundary string at any of the three granularities;
    /// `Err` returns the rejected input unchanged.
    pub fn parse(value: String) -> (r: Result<DateConstraintString, String>)
        ensures
            r is Ok <==> (valid_year_str(value@) || valid_ym_str(value@) || valid_ymd_str(
                value@,
            )),
            r matches Ok(d) ==> d@ == value@,
            r matches Err(e) ==> e@ == value@,
    {
        let ok = parse_year_boundary(value.as_str()).is_some() || parse_month_boundary(
            value.as_str(),
        ).is_some() || parse_day_boundary(value.as_str()).is_some();
        if ok {
            Ok(DateConstraintString(value))
        } else {
            Err(value)
        }
    }
}

} // verus!
