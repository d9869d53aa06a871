use computerhardwaredb::date::Date;
use computerhardwaredb::date::DateError;
use computerhardwaredb::value::Value;

#[test]
fn t_unixtime_from_naivedate() {
    let t = |y, m, d| Date::new(y, m, d).unwrap().unixtime();
    assert_eq!(t(2024, 04, 01), 1711929600);
}

#[test]
fn unixtime_at_epoch() {
    assert_eq!(Date::new(1970, 1, 1).unwrap().unixtime(), 0);
}

#[test]
fn unixtime_before_epoch() {
    assert_eq!(Date::new(1969, 12, 31).unwrap().unixtime(), -86400);
    assert_eq!(Date::new(1900, 1, 1).unwrap().unixtime(), -2208988800);
}

#[test]
fn parse_long_form() {
    let d = Date::parse("August 7, 2019").unwrap();
    assert_eq!(d.year, 2019);
    assert_eq!(d.month, 8);
    assert_eq!(d.mday, 7);
}

#[test]
fn parse_slash_form() {
    let d = Date::parse("6/13/2023").unwrap();
    assert_eq!(d.year, 2023);
    assert_eq!(d.month, 6);
    assert_eq!(d.mday, 13);
}

#[test]
fn parse_quarter_short_year() {
    let d = Date::parse("Q1'20").unwrap();
    assert_eq!(d.year, 2020);
    assert_eq!(d.month, 2);
    assert_eq!(d.mday, 15);
}

#[test]
fn parse_quarter_full_year() {
    let d = Date::parse("Q4'2024").unwrap();
    assert_eq!(d.year, 2024);
    assert_eq!(d.month, 11);
    assert_eq!(d.mday, 15);
}

#[test]
fn parse_quarter_months() {
    assert_eq!(Date::parse("Q2'21").unwrap().month, 5);
    assert_eq!(Date::parse("Q3'21").unwrap().month, 8);
}

#[test]
fn parse_then_unixtime_is_stable() {
    for text in ["August 7, 2019", "6/13/2023", "Q1'20", "Q4'2024"] {
        let d1 = Date::parse(text).unwrap();
        let d2 = Date::parse(text).unwrap();
        assert_eq!(d1, d2);
        assert_eq!(d1.unixtime(), d2.unixtime());
        assert_eq!(d1.unixtime(), d1.unixtime());
    }
}

#[test]
fn parse_month_out_of_range() {
    let e = Date::parse("13/40/2020").unwrap_err();
    assert_eq!(e.kind, DateError::MonthOutOfRange);
    assert_eq!(e.input, "13/40/2020");
}

#[test]
fn parse_day_out_of_range() {
    let e = Date::parse("6/40/2020").unwrap_err();
    assert_eq!(e.kind, DateError::DayOutOfRange);
}

#[test]
fn parse_year_out_of_range() {
    assert_eq!(
        Date::parse("1/1/1899").unwrap_err().kind,
        DateError::YearOutOfRange
    );
    assert_eq!(
        Date::parse("1/1/2201").unwrap_err().kind,
        DateError::YearOutOfRange
    );
}

#[test]
fn parse_bad_slash_fields() {
    assert_eq!(
        Date::parse("a/1/2020").unwrap_err().kind,
        DateError::BadMonthField
    );
    assert_eq!(
        Date::parse("1//2020").unwrap_err().kind,
        DateError::BadDayField
    );
    assert_eq!(
        Date::parse("1/1/20x0").unwrap_err().kind,
        DateError::BadYearField
    );
}

#[test]
fn parse_bad_quarter() {
    assert_eq!(Date::parse("Q5'20").unwrap_err().kind, DateError::BadQuarter);
    assert_eq!(
        Date::parse("Q1'123").unwrap_err().kind,
        DateError::BadQuarterYear
    );
    assert_eq!(
        Date::parse("Q1'2x").unwrap_err().kind,
        DateError::BadQuarterYear
    );
}

#[test]
fn parse_unrecognized() {
    let e = Date::parse("hello").unwrap_err();
    assert_eq!(e.kind, DateError::UnrecognizedFormat);
    assert_eq!(e.input, "hello");
}

#[test]
fn parse_long_form_leap_check() {
    assert_eq!(
        Date::parse("February 29, 2019").unwrap_err().kind,
        DateError::DayOutOfRange
    );
    let d = Date::parse("February 29, 2020").unwrap();
    assert_eq!((d.year, d.month, d.mday), (2020, 2, 29));
}

#[test]
fn leap_century_rules() {
    assert!(Date::new(1900, 2, 29).is_err());
    assert!(Date::new(2000, 2, 29).is_ok());
    assert!(Date::new(2100, 2, 29).is_err());
}

#[test]
fn new_rejects_fields_in_order() {
    assert_eq!(Date::new(1899, 13, 40).unwrap_err(), DateError::YearOutOfRange);
    assert_eq!(Date::new(2000, 13, 40).unwrap_err(), DateError::MonthOutOfRange);
    assert_eq!(Date::new(2000, 12, 40).unwrap_err(), DateError::DayOutOfRange);
    assert_eq!(Date::new(2000, 0, 1).unwrap_err(), DateError::MonthOutOfRange);
    assert_eq!(Date::new(2000, 1, 0).unwrap_err(), DateError::DayOutOfRange);
}

#[test]
fn parse_value_lifts_to_present() {
    match Date::parse_value("Q1'20").unwrap() {
        Value::Present(d) => assert_eq!((d.year, d.month, d.mday), (2020, 2, 15)),
        _ => panic!("expected a present value"),
    }
    assert!(Date::parse_value("nope").is_err());
}
