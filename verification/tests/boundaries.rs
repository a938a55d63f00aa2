use rust_covid_api::boundary::{
    DateConstraintString, parse_day_boundary, parse_month_boundary, parse_year_boundary,
};
use rust_covid_api::routes::daily::DailyQueryParams;
use rust_covid_api::routes::monthly::MonthlyQueryParams;

#[test]
fn accepts_the_three_granularities() {
    assert!(DateConstraintString::parse("2021".to_owned()).is_ok());
    assert!(DateConstraintString::parse("2021-07".to_owned()).is_ok());
    assert!(DateConstraintString::parse("2021-07-10".to_owned()).is_ok());
}

#[test]
fn accepts_leap_day_only_in_leap_years() {
    assert!(DateConstraintString::parse("2020-02-29".to_owned()).is_ok());
    assert!(DateConstraintString::parse("2021-02-29".to_owned()).is_err());
    assert!(DateConstraintString::parse("2000-02-29".to_owned()).is_ok());
    assert!(DateConstraintString::parse("1900-02-29".to_owned()).is_err());
}

#[test]
fn rejects_malformed_strings_and_returns_them() {
    for raw in [
        "",
        "foo",
        "2021.07",
        "2021.07.10",
        "2021-13",
        "2021-00",
        "2021-02-30",
        "2021-04-31",
        "2021-07-10-01",
        "0",
        "-2021",
        "2021-",
        "-",
        "20 21",
        "99999999999",
    ] {
        let err = DateConstraintString::parse(raw.to_owned()).unwrap_err();
        assert_eq!(err, raw);
    }
}

#[test]
fn day_boundary_extracts_the_fields() {
    let b = parse_day_boundary("2021-03-03").unwrap();
    assert_eq!((b.year, b.month, b.day), (2021, 3, 3));
    let b = parse_day_boundary("0002021-003-0002").unwrap();
    assert_eq!((b.year, b.month, b.day), (2021, 3, 2));
}

#[test]
fn day_boundary_rejects_other_granularities() {
    assert!(parse_day_boundary("2021").is_none());
    assert!(parse_day_boundary("2021-03").is_none());
    assert!(parse_day_boundary("2021-03-03-01").is_none());
    assert!(parse_day_boundary("2021-3").is_none());
    assert!(parse_day_boundary("2021-02-30").is_none());
    assert!(parse_day_boundary("foo").is_none());
}

#[test]
fn month_boundary_extracts_the_fields() {
    let b = parse_month_boundary("2022-07").unwrap();
    assert_eq!((b.year, b.month), (2022, 7));
    assert!(parse_month_boundary("2022-13").is_none());
    assert!(parse_month_boundary("2022").is_none());
    assert!(parse_month_boundary("2022-07-01").is_none());
}

#[test]
fn year_boundary_extracts_the_value() {
    assert_eq!(parse_year_boundary("2020"), Some(2020));
    assert_eq!(parse_year_boundary("2147483647"), Some(2147483647));
    assert_eq!(parse_year_boundary("2147483648"), None);
    assert_eq!(parse_year_boundary("0"), None);
    assert_eq!(parse_year_boundary("2020-01"), None);
    assert_eq!(parse_year_boundary("twenty"), None);
}

#[test]
fn malformed_daily_params_degrade_to_no_bound() {
    let params = DailyQueryParams::from_raw(
        &Some("foo".to_owned()),
        &Some("2021.13".to_owned()),
    );
    assert!(params.since.is_none());
    assert!(params.upto.is_none());

    let params = DailyQueryParams::from_raw(&Some("2021-03-03".to_owned()), &None);
    let since = params.since.unwrap();
    assert_eq!((since.year, since.month, since.day), (2021, 3, 3));
    assert!(params.upto.is_none());
}

#[test]
fn malformed_monthly_params_degrade_to_no_bound() {
    let params = MonthlyQueryParams::from_raw(
        &Some("2021-03-03".to_owned()),
        &Some("2022-07".to_owned()),
    );
    assert!(params.since.is_none());
    let upto = params.upto.unwrap();
    assert_eq!((upto.year, upto.month), (2022, 7));
}
