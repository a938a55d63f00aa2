//! The root summary: the upstream running totals and latest-day deltas,
//! mapped one to one.

use vstd::prelude::*;
use crate::source::SourceAPIResponse;

verus! {

/// The summary of all daily cases served at the root path.
#[derive(Clone, Copy, Debug, PartialEq, Eq, Structural)]
pub struct CasesSummary {
    pub total_positive: u32,
    pub total_recovered: u32,
    pub total_deaths: u32,
    pub total_active: u32,
    pub new_positive: i64,
    pub new_recovered: i64,
    pub new_deaths: i64,
    pub new_active: i64,
}

/// How the root endpoint fails: only on an upstream failure.
#[derive(Debug)]
pub enum SlashEndpointError {
    UnexpectedError(String),
}

impl SlashEndpointError {
    /// The message carried by the error.
    pub fn message(self) -> (r: String)
        ensures
            self matches SlashEndpointError::UnexpectedError(m) ==> r@ == m@,
    {
        match self {
            SlashEndpointError::UnexpectedError(m) => m,
        }
    }
}

/// Map the upstream totals and deltas onto the summary, field by field.
pub fn daily_cases_summary(resp: &SourceAPIResponse) -> (r: CasesSummary)
    ensures
        r.total_positive == resp.update.total.jumlah_positif,
        r.total_recovered == resp.update.total.jumlah_sembuh,
        r.total_deaths == resp.update.total.jumlah_meninggal,
        r.total_active == resp.update.total.jumlah_dirawat,
        r.new_positive == resp.update.penambahan.jumlah_positif,
        r.new_recovered == resp.update.penambahan.jumlah_sembuh,
        r.new_deaths == resp.update.penambahan.jumlah_meninggal,
        r.new_active == resp.update.penambahan.jumlah_dirawat,
{
    CasesSummary {
        total_positive: resp.update.total.jumlah_positif,
        total_recovered: resp.update.total.jumlah_sembuh,
        total_deaths: resp.update.total.jumlah_meninggal,
        total_active: resp.update.total.jumlah_dirawat,
        new_positive: resp.update.penambahan.jumlah_positif,
        new_recovered: resp.update.penambahan.jumlah_sembuh,
        new_deaths: resp.update.penambahan.jumlah_meninggal,
        new_active: resp.update.penambahan.jumlah_dirawat,
    }
}

} // verus!
