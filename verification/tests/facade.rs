use rust_covid_api::cases::{DailyCase, DailyCases};
use rust_covid_api::routes::daily::{self, DailyQueryParams};
use rust_covid_api::routes::health::{ServiceStatus, service_health};
use rust_covid_api::routes::index::daily_cases_summary;
use rust_covid_api::routes::monthly::{self, MonthlyQueryParams};
use rust_covid_api::routes::yearly;
use rust_covid_api::source::{
    Harian, HarianKeyValue, Penambahan, SourceAPIResponse, Total, Update,
};

fn d(year: i32, month: u32, day: u32, positive: i32, recovered: i32, deaths: i32, active: i32) -> DailyCase {
    DailyCase { year, month, day, positive, recovered, deaths, active }
}

fn spring_2021_series() -> DailyCases {
    DailyCases(vec![
        d(2021, 2, 25, 1, 0, 0, 1),
        d(2021, 3, 2, 2, 0, 0, 2),
        d(2021, 3, 3, 3, 1, 0, 2),
        d(2021, 3, 20, 4, 2, 1, 1),
        d(2021, 4, 1, 5, 3, 0, 2),
        d(2021, 4, 2, 6, 4, 1, 1),
        d(2022, 1, 1, 7, 5, 0, 2),
    ])
}

fn harian(ts: &str, positive: i32, recovered: i32, deaths: i32, active: i32) -> Harian {
    Harian {
        key_as_string: ts.to_owned(),
        key: 0,
        doc_count: 1,
        jumlah_meninggal: HarianKeyValue { value: deaths },
        jumlah_sembuh: HarianKeyValue { value: recovered },
        jumlah_positif: HarianKeyValue { value: positive },
        jumlah_dirawat: HarianKeyValue { value: active },
        jumlah_positif_kum: HarianKeyValue { value: 0 },
        jumlah_sembuh_kum: HarianKeyValue { value: 0 },
        jumlah_meninggal_kum: HarianKeyValue { value: 0 },
        jumlah_dirawat_kum: HarianKeyValue { value: 0 },
    }
}

fn response_with(harian_records: Vec<Harian>) -> SourceAPIResponse {
    SourceAPIResponse {
        update: Update {
            harian: harian_records,
            total: Total {
                jumlah_positif: 6216621,
                jumlah_dirawat: 49048,
                jumlah_sembuh: 6010545,
                jumlah_meninggal: 157028,
            },
            penambahan: Penambahan {
                jumlah_positif: 5827,
                jumlah_meninggal: 24,
                jumlah_sembuh: 4564,
                jumlah_dirawat: 1239,
                tanggal: "2022-07-01".to_owned(),
                created: "2022-07-01T17:00:00.000Z".to_owned(),
            },
        },
    }
}

#[test]
fn range_bounds_are_inclusive_and_complete() {
    let params = DailyQueryParams::from_raw(
        &Some("2021-03-03".to_owned()),
        &Some("2021-04-01".to_owned()),
    );
    let days = daily::all_days(spring_2021_series(), &params).0;
    assert_eq!(
        days,
        vec![
            d(2021, 3, 3, 3, 1, 0, 2),
            d(2021, 3, 20, 4, 2, 1, 1),
            d(2021, 4, 1, 5, 3, 0, 2),
        ]
    );
}

#[test]
fn malformed_bound_returns_the_unfiltered_series() {
    let params = DailyQueryParams::from_raw(&Some("foo".to_owned()), &None);
    let days = daily::all_days(spring_2021_series(), &params).0;
    assert_eq!(days, spring_2021_series().0);

    let params = DailyQueryParams::from_raw(&Some("2021.13".to_owned()), &None);
    let days = daily::all_days(spring_2021_series(), &params).0;
    assert_eq!(days, spring_2021_series().0);
}

#[test]
fn returns_all_days() {
    let params = DailyQueryParams::from_raw(&None, &None);
    let days = daily::all_days(spring_2021_series(), &params).0;
    assert_eq!(days.len(), 7);
}

#[test]
fn daily_year_view_respects_bounds() {
    let params = DailyQueryParams::from_raw(&Some("2021-03-03".to_owned()), &None);
    let days = daily::all_days_in_a_year(spring_2021_series(), &params, 2021).unwrap().0;
    assert_eq!(days.len(), 4);
    assert!(days.iter().all(|c| c.year == 2021));

    let err = daily::all_days_in_a_year(spring_2021_series(), &params, 2018).unwrap_err();
    assert_eq!(err.message(), "Year not found");
}

#[test]
fn daily_month_view_errors_before_filtering() {
    let params = DailyQueryParams::from_raw(
        &Some("2021-04-02".to_owned()),
        &Some("2021-04-02".to_owned()),
    );
    let days = daily::all_days_in_a_month(spring_2021_series(), &params, 2021, 3).unwrap().0;
    assert!(days.is_empty());

    let err = daily::all_days_in_a_month(spring_2021_series(), &params, 2021, 7).unwrap_err();
    assert_eq!(err.message(), "Month not found");
}

#[test]
fn returns_all_months() {
    let params = MonthlyQueryParams::from_raw(
        &Some("2021-03".to_owned()),
        &Some("2021-04".to_owned()),
    );
    let months = monthly::all_months(spring_2021_series(), &params).0;
    assert_eq!(months.len(), 2);
    assert_eq!((months[0].year, months[0].month, months[0].positive), (2021, 3, 9));
    assert_eq!((months[1].year, months[1].month, months[1].positive), (2021, 4, 11));
}

#[test]
fn returns_all_months_in_a_year() {
    let params = MonthlyQueryParams::from_raw(&None, &None);
    let months = monthly::all_months_in_a_year(spring_2021_series(), &params, 2021).unwrap().0;
    assert_eq!(months.len(), 3);
    assert_eq!(months[0].month, 2);
    assert_eq!(months[1].month, 3);
    assert_eq!(months[2].month, 4);

    let err = monthly::all_months_in_a_year(spring_2021_series(), &params, 2018).unwrap_err();
    assert_eq!(err.message(), "Year not found");
}

#[test]
fn monthly_lookup_maps_absences_to_not_found() {
    let mc = monthly::specific_month(spring_2021_series(), 2021, 3).unwrap();
    assert_eq!((mc.year, mc.month, mc.positive, mc.active), (2021, 3, 9, 5));

    let err = monthly::specific_month(spring_2021_series(), 2021, 13).unwrap_err();
    assert_eq!(err.message(), "Month not found");
    let err = monthly::specific_month(spring_2021_series(), 2018, 1).unwrap_err();
    assert_eq!(err.message(), "Year not found");
}

#[test]
fn returns_all_years() {
    let all = yearly::all_years(spring_2021_series(), None, None).0;
    assert_eq!(all.len(), 2);
    assert_eq!((all[0].year, all[0].positive), (2021, 21));
    assert_eq!((all[1].year, all[1].positive), (2022, 7));

    let bounded = yearly::all_years(spring_2021_series(), Some(2022), None).0;
    assert_eq!(bounded.len(), 1);
    assert_eq!(bounded[0].year, 2022);

    let bounded = yearly::all_years(spring_2021_series(), None, Some(2021)).0;
    assert_eq!(bounded.len(), 1);
    assert_eq!(bounded[0].year, 2021);
}

#[test]
fn yearly_lookup_maps_absences_to_not_found() {
    let yc = yearly::specific_year(spring_2021_series(), 2022).unwrap();
    assert_eq!((yc.year, yc.positive, yc.recovered, yc.deaths, yc.active), (2022, 7, 5, 0, 2));

    let err = yearly::specific_year(spring_2021_series(), 2018).unwrap_err();
    assert_eq!(err.message(), "Year not found");
}

#[test]
fn single_upstream_record_flows_to_every_resolution() {
    let resp = response_with(vec![harian(
        "2020-03-02T00:00:00.000Z",
        2,
        0,
        0,
        2,
    )]);
    let cases = resp.to_daily().unwrap();
    let day = cases.get_specific_day(2020, 3, 2).unwrap();
    assert_eq!(day, d(2020, 3, 2, 2, 0, 0, 2));

    let cases = resp.to_daily().unwrap();
    let mc = monthly::specific_month(cases, 2020, 3).unwrap();
    assert_eq!(
        (mc.year, mc.month, mc.positive, mc.recovered, mc.deaths, mc.active),
        (2020, 3, 2, 0, 0, 2)
    );

    let cases = resp.to_daily().unwrap();
    let yc = yearly::specific_year(cases, 2020).unwrap();
    assert_eq!(
        (yc.year, yc.positive, yc.recovered, yc.deaths, yc.active),
        (2020, 2, 0, 0, 2)
    );
}

#[test]
fn normalization_keeps_upstream_order() {
    let resp = response_with(vec![
        harian("2020-03-02T00:00:00.000Z", 2, 0, 0, 2),
        harian("2020-03-03T00:00:00.000Z", 3, 1, 0, 2),
        harian("2020-03-04T00:00:00.000Z", 4, 2, 1, 1),
    ]);
    let cases = resp.to_daily().unwrap().0;
    assert_eq!(cases.len(), 3);
    assert_eq!(cases[0].day, 2);
    assert_eq!(cases[1].day, 3);
    assert_eq!(cases[2].day, 4);
}

#[test]
fn unparseable_timestamp_fails_the_whole_normalization() {
    let resp = response_with(vec![
        harian("2020-03-02T00:00:00.000Z", 2, 0, 0, 2),
        harian("not-a-timestamp", 3, 1, 0, 2),
    ]);
    let err = resp.to_daily().unwrap_err();
    assert_eq!(err, "Invalid timestamp in upstream data");
}

#[test]
fn duplicate_date_fails_the_whole_normalization() {
    let resp = response_with(vec![
        harian("2020-03-02T00:00:00.000Z", 2, 0, 0, 2),
        harian("2020-03-02T06:00:00.000Z", 3, 1, 0, 2),
    ]);
    let err = resp.to_daily().unwrap_err();
    assert_eq!(err, "Duplicate date in upstream data");
}

#[test]
fn has_valid_response_structure() {
    let resp = response_with(vec![]);
    let summary = daily_cases_summary(&resp);
    assert_eq!(summary.total_positive, 6216621);
    assert_eq!(summary.total_recovered, 6010545);
    assert_eq!(summary.total_deaths, 157028);
    assert_eq!(summary.total_active, 49048);
    assert_eq!(summary.new_positive, 5827);
    assert_eq!(summary.new_recovered, 4564);
    assert_eq!(summary.new_deaths, 24);
    assert_eq!(summary.new_active, 1239);
}

#[test]
fn health_reports_ok() {
    let health = service_health();
    assert_eq!(health.status, ServiceStatus::OK);
}
