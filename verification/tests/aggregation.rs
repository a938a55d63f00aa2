use rust_covid_api::cases::{DailyCase, DailyCases};

fn d(year: i32, month: u32, day: u32, positive: i32, recovered: i32, deaths: i32, active: i32) -> DailyCase {
    DailyCase { year, month, day, positive, recovered, deaths, active }
}

fn sample_series() -> DailyCases {
    DailyCases(vec![
        d(2020, 3, 2, 2, 0, 0, 2),
        d(2020, 3, 3, 5, 1, 0, 4),
        d(2020, 4, 1, 10, 2, 1, 7),
        d(2021, 1, 1, 100, 50, 5, 45),
        d(2021, 1, 2, 200, 180, 10, 10),
        d(2021, 2, 25, 8493, 8686, 264, -457),
    ])
}

#[test]
fn to_yearly_is_idempotent() {
    let cases = sample_series();
    let first = cases.to_yearly();
    let second = cases.to_yearly();
    assert_eq!(first.0, second.0);
}

#[test]
fn to_yearly_groups_and_sorts() {
    let cases = DailyCases(vec![
        d(2021, 5, 1, 7, 1, 0, 6),
        d(2020, 3, 2, 2, 0, 0, 2),
        d(2021, 6, 30, 3, 2, 1, 0),
    ]);
    let yearly = cases.to_yearly().0;
    assert_eq!(yearly.len(), 2);
    assert_eq!(yearly[0].year, 2020);
    assert_eq!(yearly[0].positive, 2);
    assert_eq!(yearly[1].year, 2021);
    assert_eq!(yearly[1].positive, 10);
    assert_eq!(yearly[1].recovered, 3);
    assert_eq!(yearly[1].deaths, 1);
    assert_eq!(yearly[1].active, 6);
}

#[test]
fn to_monthly_groups_and_sorts() {
    let cases = DailyCases(vec![
        d(2021, 1, 1, 100, 50, 5, 45),
        d(2020, 4, 1, 10, 2, 1, 7),
        d(2020, 3, 2, 2, 0, 0, 2),
        d(2021, 1, 2, 200, 180, 10, 10),
        d(2020, 3, 3, 5, 1, 0, 4),
    ]);
    let monthly = cases.to_monthly().0;
    assert_eq!(monthly.len(), 3);
    assert_eq!((monthly[0].year, monthly[0].month), (2020, 3));
    assert_eq!(monthly[0].positive, 7);
    assert_eq!((monthly[1].year, monthly[1].month), (2020, 4));
    assert_eq!(monthly[1].positive, 10);
    assert_eq!((monthly[2].year, monthly[2].month), (2021, 1));
    assert_eq!(monthly[2].positive, 300);
    assert_eq!(monthly[2].recovered, 230);
    assert_eq!(monthly[2].deaths, 15);
    assert_eq!(monthly[2].active, 55);
}

#[test]
fn specific_year_sums_its_days() {
    let cases = sample_series();
    let yc = cases.to_specific_yearly(2021).unwrap();
    assert_eq!(yc.year, 2021);
    assert_eq!(yc.positive, 100 + 200 + 8493);
    assert_eq!(yc.recovered, 50 + 180 + 8686);
    assert_eq!(yc.deaths, 5 + 10 + 264);
    assert_eq!(yc.active, 45 + 10 - 457);
}

#[test]
fn months_of_a_year_sum_to_its_yearly_entry() {
    let cases = sample_series();
    let months = cases.get_all_months_in_a_year(2020).unwrap().0;
    let yearly = cases.to_specific_yearly(2020).unwrap();
    assert_eq!(months.iter().map(|m| m.positive).sum::<i64>(), yearly.positive);
    assert_eq!(months.iter().map(|m| m.recovered).sum::<i64>(), yearly.recovered);
    assert_eq!(months.iter().map(|m| m.deaths).sum::<i64>(), yearly.deaths);
    assert_eq!(months.iter().map(|m| m.active).sum::<i64>(), yearly.active);
}

#[test]
fn returns_all_days_in_a_year() {
    let cases = sample_series();
    let days = cases.get_all_days_in_a_year(2020).unwrap().0;
    assert_eq!(days.len(), 3);
    assert!(days.iter().all(|c| c.year == 2020));
}

#[test]
fn daily_returns_404_given_invalid_year() {
    let cases = sample_series();
    let err = cases.get_all_days_in_a_year(2018).unwrap_err();
    assert_eq!(err, "Year not found");
}

#[test]
fn returns_all_days_in_a_month() {
    let cases = sample_series();
    let days = cases.get_all_daily_cases_in_a_month(2020, 3).unwrap().0;
    assert_eq!(days.len(), 2);
    assert!(days.iter().all(|c| c.year == 2020 && c.month == 3));
}

#[test]
fn daily_returns_404_given_invalid_month() {
    let cases = sample_series();
    let err = cases.get_all_daily_cases_in_a_month(2020, 7).unwrap_err();
    assert_eq!(err, "Month not found");
}

#[test]
fn returns_200_given_valid_day() {
    let cases = sample_series();
    let case = cases.get_specific_day(2021, 2, 25).unwrap();
    assert_eq!(case, d(2021, 2, 25, 8493, 8686, 264, -457));
}

#[test]
fn returns_404_given_invalid_day() {
    let cases = sample_series();
    let err = cases.get_specific_day(2021, 2, 30).unwrap_err();
    assert_eq!(err, "Day not found");
}

#[test]
fn monthly_returns_404_given_invalid_year() {
    let cases = sample_series();
    let err = cases.get_all_months_in_a_year(2018).unwrap_err();
    assert_eq!(err, "Year not found");
}

#[test]
fn returns_correct_data_given_valid_month() {
    let cases = sample_series();
    let mc = cases.get_specific_month(2020, 3).unwrap();
    assert_eq!((mc.year, mc.month), (2020, 3));
    assert_eq!(mc.positive, 7);
    assert_eq!(mc.recovered, 1);
    assert_eq!(mc.deaths, 0);
    assert_eq!(mc.active, 6);
}

#[test]
fn monthly_returns_404_given_invalid_month() {
    let cases = sample_series();
    let err = cases.get_specific_month(2021, 13).unwrap_err();
    assert_eq!(err, "Month not found");
}

#[test]
fn returns_correct_data_given_valid_year() {
    let cases = sample_series();
    let yc = cases.to_specific_yearly(2020).unwrap();
    assert_eq!(yc.year, 2020);
    assert_eq!(yc.positive, 17);
    assert_eq!(yc.recovered, 3);
    assert_eq!(yc.deaths, 1);
    assert_eq!(yc.active, 13);
}

#[test]
fn yearly_returns_404_given_invalid_year() {
    let cases = sample_series();
    let err = cases.to_specific_yearly(2018).unwrap_err();
    assert_eq!(err, "Year not found");
}
