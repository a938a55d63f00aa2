//! Upstream feed shapes and their normalization into the canonical daily
//! series: each per-day record's RFC 3339 timestamp is parsed into a
//! calendar date and its counters are mapped one to one.

use vstd::prelude::*;
use crate::calendar::days_in_month;
use crate::cases::{DailyCase, DailyCases, same_date, valid_case, wf_series};

verus! {

/// A nested upstream counter object.
pub struct HarianKeyValue {
    pub value: i32,
}

/// One per-day record of the upstream feed.
pub struct Harian {
    pub key_as_string: String,
    pub key: u64,
    pub doc_count: u32,
    pub jumlah_meninggal: HarianKeyValue,
    pub jumlah_sembuh: HarianKeyValue,
    pub jumlah_positif: HarianKeyValue,
    pub jumlah_dirawat: HarianKeyValue,
    pub jumlah_positif_kum: HarianKeyValue,
    pub jumlah_sembuh_kum: HarianKeyValue,
    pub jumlah_meninggal_kum: HarianKeyValue,
    pub jumlah_dirawat_kum: HarianKeyValue,
}

/// The upstream running totals.
pub struct Total {
    pub jumlah_positif: u32,
    pub jumlah_dirawat: u32,
    pub jumlah_sembuh: u32,
    pub jumlah_meninggal: u32,
}

/// The upstream latest-day deltas.
pub struct Penambahan {
    pub jumlah_positif: i64,
    pub jumlah_meninggal: i64,
    pub jumlah_sembuh: i64,
    pub jumlah_dirawat: i64,
    pub tanggal: String,
    pub created: String,
}

/// The `update` object of the upstream payload.
pub struct Update {
    pub harian: Vec<Harian>,
    pub total: Total,
    pub penambahan: Penambahan,
}

/// The whole upstream payload.
pub struct SourceAPIResponse {
    pub update: Update,
}

/// The calendar date that chrono reads from an RFC 3339 timestamp string:
/// a function of the text alone.
pub uninterp spec fn timestamp_date(s: Seq<char>) -> Option<(int, int, int)>;

/// Relies on chrono::DateTime::parse_from_rfc3339 and the Datelike
/// accessors year, month and day: the parsed date is a function of the
/// input text alone; month ranges over 1 to 12 and day over 1 to the
/// month's length, since chrono only constructs real calendar dates.
#[verifier::external_body]
fn parse_timestamp(s: &str) -> (r: Option<(i32, u32, u32)>)
    ensures
        r is Some <==> timestamp_date(s@) is Some,
        r matches Some(t) ==> timestamp_date(s@) == Some((t.0 as int, t.1 as int, t.2 as int)),
        r matches Some(t) ==> 1 <= t.1 <= 12 && 1 <= t.2 && t.2 as int <= days_in_month(
            t.0 as int,
            t.1 as int,
        ),
{
    match chrono::DateTime::parse_from_rfc3339(s) {
        Ok(dt) => Some(
            (chrono::Datelike::year(&dt), chrono::Datelike::month(&dt), chrono::Datelike::day(&dt)),
        ),
        Err(_) => None,
    }
}

/// The record's timestamp denotes a date of the supported calendar range.
pub open spec fn record_date_ok(h: Harian) -> bool {
    match timestamp_date(h.key_as_string@) {
        Some(t) => 1 <= t.0,
        None => false,
    }
}

/// The canonical record that a good upstream record maps to.
pub open spec fn case_of(h: Harian) -> DailyCase {
    match timestamp_date(h.key_as_string@) {
        Some(t) => DailyCase {
            year: t.0 as i32,
            month: t.1 as u32,
            day: t.2 as u32,
            positive: h.jumlah_positif.value,
            recovered: h.jumlah_sembuh.value,
            deaths: h.jumlah_meninggal.value,
            active: h.jumlah_dirawat.value,
        },
        None => DailyCase { year: 0, month: 0, day: 0, positive: 0, recovered: 0, deaths: 0, active: 0 },
    }
}

impl SourceAPIResponse {
    /// Normalize the upstream per-day records, in upstream order. `Err`
    /// exactly when some timestamp does not denote a supported calendar
    /// date or two records fall on the same date: one bad record fails
    /// the whole call.
    pub fn to_daily(&self) -> (r: Result<DailyCases, String>)
        ensures
            r is Ok <==> ((forall|i: int|
                0 <= i < self.update.harian@.len() ==> record_date_ok(
                    #[trigger] self.update.harian@[i],
                )) && (forall|i: int, j: int|
                #![trigger self.update.harian@[i], self.update.harian@[j]]
                0 <= i < j < self.update.harian@.len() ==> !same_date(
                    case_of(self.update.harian@[i]),
                    case_of(self.update.harian@[j]),
                ))),
            r matches Ok(d) ==> d@.len() == self.update.harian@.len() && (forall|i: int|
                0 <= i < d@.len() ==> #[trigger] d@[i] == case_of(self.update.harian@[i]))
                && wf_series(d@),
            r matches Err(m) ==> (m@ == "Invalid timestamp in upstream data"@ && (exists|i: int|
                0 <= i < self.update.harian@.len() && !record_date_ok(
                    #[trigger] self.update.harian@[i],
                ))) || (m@ == "Duplicate date in upstream data"@ && (exists|i: int, j: int|
                #![trigger self.update.harian@[i], self.update.harian@[j]]
                0 <= i < j < self.update.harian@.len() && same_date(
                    case_of(self.update.harian@[i]),
                    case_of(self.update.harian@[j]),
                ))),
    {
        let h = &self.update.harian;
        let n = h.len();
        let mut out: Vec<DailyCase> = Vec::new();
        let mut i: usize = 0;
        while i < n
            invariant
                i <= n,
                n == h@.len(),
                h@ == self.update.harian@,
                out@.len() == i,
                forall|k: int| 0 <= k < i ==> record_date_ok(#[trigger] h@[k]),
                forall|k: int| 0 <= k < i ==> #[trigger] out@[k] == case_of(h@[k]),
                forall|k: int| 0 <= k < i ==> valid_case(#[trigger] out@[k]),
                forall|a: int, b: int|
                    #![trigger out@[a], out@[b]]
                    0 <= a < b < i ==> !same_date(out@[a], out@[b]),
            decreases n - i,
        {
            let rec = &h[i];
            let (y, m, d) = match parse_timestamp(rec.key_as_string.as_str()) {
                Some(t) => t,
                None => {
                    proof {
                        assert(!record_date_ok(h@[i as int]));
                    }
                    return Err("Invalid timestamp in upstream data".to_owned());
                },
            };
            if y < 1 {
                proof {
                    assert(!record_date_ok(h@[i as int]));
                }
                return Err("Invalid timestamp in upstream data".to_owned());
            }
            let c = DailyCase {
                year: y,
                month: m,
                day: d,
                positive: rec.jumlah_positif.value,
                recovered: rec.jumlah_sembuh.value,
                deaths: rec.jumlah_meninggal.value,
                active: rec.jumlah_dirawat.value,
            };
            proof {
                assert(c == case_of(h@[i as int]));
                assert(valid_case(c));
            }
            let mut j: usize = 0;
            let mut dup = false;
            let m_out = out.len();
            while j < m_out
                invariant
                    j <= m_out,
                    m_out == out@.len(),
                    dup <==> exists|t: int| 0 <= t < j && same_date(#[trigger] out@[t], c),
                decreases m_out - j,
            {
                let o = &out[j];
                if o.year == c.year && o.month == c.month && o.day == c.day {
                    dup = true;
                    proof {
                        assert(same_date(out@[j as int], c));
                    }
                }
                j += 1;
            }
            if dup {
                proof {
                    let t = choose|t: int| 0 <= t < out@.len() && same_date(#[trigger] out@[t], c);
                    assert(same_date(case_of(h@[t]), case_of(h@[i as int])));
                }
                return Err("Duplicate date in upstream data".to_owned());
            }
            out.push(c);
            i += 1;
        }
        proof {
            assert forall|a: int, b: int|
                #![trigger self.update.harian@[a], self.update.harian@[b]]
                0 <= a < b < self.update.harian@.len() implies !same_date(
                case_of(self.update.harian@[a]),
                case_of(self.update.harian@[b]),
            ) by {
                assert(out@[a] == case_of(h@[a]));
                assert(out@[b] == case_of(h@[b]));
                assert(!same_date(out@[a], out@[b]));
            }
        }
        Ok(DailyCases(out))
    }
}

} // verus!
