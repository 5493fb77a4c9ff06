use calseg::date::{Date, DateDuration, DateDurationUnit, DateError, Iso, MonthCode};
use calseg::hebrew::Hebrew;

const TISHREI: u8 = 1;
const HESHVAN: u8 = 2;
const KISLEV: u8 = 3;
const TEVET: u8 = 4;
const SHEVAT: u8 = 5;
const ADAR: u8 = 6;
const NISAN: u8 = 7;
const IYYAR: u8 = 8;
const SIVAN: u8 = 9;
const TAMMUZ: u8 = 10;
const AV: u8 = 11;
const ELUL: u8 = 12;

// Sentinel value for Adar I: an out-of-range normalized month.
const ADARI: u8 = 13;

const LEAP_YEARS_IN_TESTS: [i32; 1] = [5782];

#[allow(clippy::type_complexity)]
const ISO_HEBREW_DATE_PAIRS: [((i32, u8, u8), (i32, u8, u8)); 48] = [
    ((2021, 1, 10), (5781, TEVET, 26)),
    ((2021, 1, 25), (5781, SHEVAT, 12)),
    ((2021, 2, 10), (5781, SHEVAT, 28)),
    ((2021, 2, 25), (5781, ADAR, 13)),
    ((2021, 3, 10), (5781, ADAR, 26)),
    ((2021, 3, 25), (5781, NISAN, 12)),
    ((2021, 4, 10), (5781, NISAN, 28)),
    ((2021, 4, 25), (5781, IYYAR, 13)),
    ((2021, 5, 10), (5781, IYYAR, 28)),
    ((2021, 5, 25), (5781, SIVAN, 14)),
    ((2021, 6, 10), (5781, SIVAN, 30)),
    ((2021, 6, 25), (5781, TAMMUZ, 15)),
    ((2021, 7, 10), (5781, AV, 1)),
    ((2021, 7, 25), (5781, AV, 16)),
    ((2021, 8, 10), (5781, ELUL, 2)),
    ((2021, 8, 25), (5781, ELUL, 17)),
    ((2021, 9, 10), (5782, TISHREI, 4)),
    ((2021, 9, 25), (5782, TISHREI, 19)),
    ((2021, 10, 10), (5782, HESHVAN, 4)),
    ((2021, 10, 25), (5782, HESHVAN, 19)),
    ((2021, 11, 10), (5782, KISLEV, 6)),
    ((2021, 11, 25), (5782, KISLEV, 21)),
    ((2021, 12, 10), (5782, TEVET, 6)),
    ((2021, 12, 25), (5782, TEVET, 21)),
    ((2022, 1, 10), (5782, SHEVAT, 8)),
    ((2022, 1, 25), (5782, SHEVAT, 23)),
    ((2022, 2, 10), (5782, ADARI, 9)),
    ((2022, 2, 25), (5782, ADARI, 24)),
    ((2022, 3, 10), (5782, ADAR, 7)),
    ((2022, 3, 25), (5782, ADAR, 22)),
    ((2022, 4, 10), (5782, NISAN, 9)),
    ((2022, 4, 25), (5782, NISAN, 24)),
    ((2022, 5, 10), (5782, IYYAR, 9)),
    ((2022, 5, 25), (5782, IYYAR, 24)),
    ((2022, 6, 10), (5782, SIVAN, 11)),
    ((2022, 6, 25), (5782, SIVAN, 26)),
    ((2022, 7, 10), (5782, TAMMUZ, 11)),
    ((2022, 7, 25), (5782, TAMMUZ, 26)),
    ((2022, 8, 10), (5782, AV, 13)),
    ((2022, 8, 25), (5782, AV, 28)),
    ((2022, 9, 10), (5782, ELUL, 14)),
    ((2022, 9, 25), (5782, ELUL, 29)),
    ((2022, 10, 10), (5783, TISHREI, 15)),
    ((2022, 10, 25), (5783, TISHREI, 30)),
    ((2022, 11, 10), (5783, HESHVAN, 16)),
    ((2022, 11, 25), (5783, KISLEV, 1)),
    ((2022, 12, 10), (5783, KISLEV, 16)),
    ((2022, 12, 25), (5783, TEVET, 1)),
];

#[test]
fn test_conversions() {
    for ((iso_y, iso_m, iso_d), (y, m, d)) in ISO_HEBREW_DATE_PAIRS.into_iter() {
        let iso_date = Date::try_new_iso(iso_y, iso_m, iso_d).unwrap();
        let month_code = if m == ADARI {
            MonthCode(*b"M05L")
        } else {
            MonthCode::new_normal(m).unwrap()
        };
        let hebrew_date = Date::try_new_from_codes(Some("am"), y, month_code, d, Hebrew)
            .expect("Date should parse");

        let iso_to_hebrew = iso_date.to_calendar(Hebrew);

        let hebrew_to_iso = hebrew_date.to_calendar(Iso);

        assert_eq!(
            hebrew_to_iso, iso_date,
            "Failed comparing to-ISO value for {hebrew_date:?} => {iso_date:?}"
        );
        assert_eq!(
            iso_to_hebrew, hebrew_date,
            "Failed comparing to-hebrew value for {iso_date:?} => {hebrew_date:?}"
        );

        let ordinal_month = if LEAP_YEARS_IN_TESTS.contains(&y) {
            if m == ADARI {
                ADAR
            } else if m >= ADAR {
                m + 1
            } else {
                m
            }
        } else {
            assert!(m != ADARI);
            m
        };

        let ordinal_hebrew_date = Date::try_new_hebrew(y, ordinal_month, d)
            .expect("Construction of date must succeed");

        assert_eq!(ordinal_hebrew_date, hebrew_date, "Hebrew date construction from codes and ordinals should work the same for {hebrew_date:?}");
    }
}

#[test]
fn test_icu_bug_22441() {
    let date = Date::try_new_hebrew(88369, 1, 1).unwrap();
    assert_eq!(Hebrew.days_in_year(&date.inner), 383);
}

#[test]
fn test_negative_era_years() {
    let greg_date = Date::try_new_iso(-5000, 1, 1).unwrap();
    // The extended year of the ISO date.
    assert_eq!(greg_date.inner.0.year, -5000);
    let hebr_date = greg_date.to_calendar(Hebrew);
    assert_eq!(hebr_date.inner.0.year, -1240);
    assert_eq!(hebr_date.year().standard_era().unwrap().0, "hebrew");
    // In Hebrew, there is no inverse era, so negative extended years are negative era years
    assert_eq!(hebr_date.year().era_year_or_extended(), -1240);
}

#[test]
fn test_weekdays() {
    let cal = Hebrew::new();
    let era = "am";
    let month_code = MonthCode(*b"M01\0");
    let dt = cal.date_from_codes(Some(era), 3760, month_code, 1).unwrap();

    // Should be Saturday
    assert_eq!(6, cal.day_of_week(&dt) as usize);
}

#[test]
fn year_lengths_are_keviyah_lengths() {
    for year in 5770..5800 {
        let date = Date::try_new_hebrew(year, 1, 1).unwrap();
        let len = Hebrew.days_in_year(&date.inner);
        assert!([353, 354, 355, 383, 384, 385].contains(&len), "{year}: {len}");
        let leap = Hebrew.is_in_leap_year(&date.inner);
        assert_eq!(leap, len > 355);
        assert_eq!(Hebrew.months_in_year(&date.inner), if leap { 13 } else { 12 });
    }
    let date = Date::try_new_hebrew(5782, 1, 1).unwrap();
    assert_eq!(Hebrew.days_in_year(&date.inner), 384);
    let date = Date::try_new_hebrew(5781, 1, 1).unwrap();
    assert_eq!(Hebrew.days_in_year(&date.inner), 353);
}

#[test]
fn adar_codes_in_a_leap_year() {
    let by_ordinal = Date::try_new_hebrew(5782, 6, 9).unwrap();
    let by_code = Date::try_new_from_codes(None, 5782, MonthCode(*b"M05L"), 9, Hebrew).unwrap();
    assert_eq!(by_ordinal, by_code);
    let month = by_ordinal.month();
    assert_eq!(month.ordinal, 6);
    assert_eq!(month.standard_code, MonthCode(*b"M05L"));
    assert_eq!(month.formatting_code, MonthCode(*b"M05L"));

    let seventh = Date::try_new_hebrew(5782, 7, 7).unwrap();
    let by_m06 = Date::try_new_from_codes(Some("hebrew"), 5782, MonthCode(*b"M06\0"), 7, Hebrew)
        .unwrap();
    let by_m06l = Date::try_new_from_codes(Some("hebrew"), 5782, MonthCode(*b"M06L"), 7, Hebrew)
        .unwrap();
    assert_eq!(seventh, by_m06);
    assert_eq!(seventh, by_m06l);
    let month = seventh.month();
    assert_eq!(month.ordinal, 7);
    assert_eq!(month.standard_code, MonthCode(*b"M06\0"));
    assert_eq!(month.formatting_code, MonthCode(*b"M06L"));

    let nisan = Date::try_new_hebrew(5782, 8, 1).unwrap().month();
    assert_eq!(nisan.standard_code, MonthCode(*b"M07\0"));
    assert_eq!(nisan.formatting_code, MonthCode(*b"M07\0"));
}

#[test]
fn codes_in_a_common_year() {
    let err = Date::try_new_from_codes(None, 5781, MonthCode(*b"M05L"), 1, Hebrew);
    assert_eq!(err, Err(DateError::UnknownMonthCode(MonthCode(*b"M05L"))));
    let err = Date::try_new_from_codes(None, 5781, MonthCode(*b"M06L"), 1, Hebrew);
    assert_eq!(err, Err(DateError::UnknownMonthCode(MonthCode(*b"M06L"))));
    let err = Date::try_new_from_codes(None, 5781, MonthCode(*b"M13\0"), 1, Hebrew);
    assert_eq!(err, Err(DateError::UnknownMonthCode(MonthCode(*b"M13\0"))));
    let adar = Date::try_new_from_codes(None, 5781, MonthCode(*b"M06\0"), 1, Hebrew).unwrap();
    assert_eq!(adar.inner.0.month, 6);
    assert_eq!(adar.month().standard_code, MonthCode(*b"M06\0"));
    assert_eq!(adar.month().formatting_code, MonthCode(*b"M06\0"));
}

#[test]
fn unknown_era_and_ranges() {
    let err = Date::try_new_from_codes(Some("gregory"), 5781, MonthCode(*b"M01\0"), 1, Hebrew);
    assert_eq!(err, Err(DateError::UnknownEra));
    let err = Date::try_new_from_codes(Some("am"), 5781, MonthCode(*b"M01\0"), 31, Hebrew);
    match err {
        Err(DateError::Range(e)) => {
            assert_eq!(e.field, "day");
            assert_eq!(e.max, 30);
        }
        other => panic!("unexpected {other:?}"),
    }
    let err = Date::try_new_hebrew(5781, 13, 1).unwrap_err();
    assert_eq!(err.field, "month");
    assert_eq!(err.max, 12);
    assert!(Date::try_new_hebrew(5782, 13, 29).is_ok());
    assert!(Date::try_new_hebrew(5782, 13, 30).is_err());
}

#[test]
fn day_of_year_and_month_lengths() {
    let date = Date::try_new_hebrew(5782, 3, 1).unwrap();
    // 5782 is regular: Tishrei has 30 days, Heshvan 29 and Kislev 30
    assert_eq!(Hebrew.day_of_year(&date.inner).0, 60);
    assert_eq!(Hebrew.days_in_month(&date.inner), 30);
    let date = Date::try_new_hebrew(5781, 3, 1).unwrap();
    // 5781 is deficient: Heshvan and Kislev have 29 days
    assert_eq!(Hebrew.day_of_year(&date.inner).0, 60);
    assert_eq!(Hebrew.days_in_month(&date.inner), 29);
    assert_eq!(Hebrew.day_of_month(&date.inner).0, 1);
    assert_eq!(Hebrew.debug_name(), "Hebrew");
}

#[test]
fn iso_dates() {
    assert!(Date::try_new_iso(2024, 2, 29).is_ok());
    assert!(Date::try_new_iso(2023, 2, 29).is_err());
    assert!(Date::try_new_iso(2000, 2, 29).is_ok());
    assert!(Date::try_new_iso(1900, 2, 29).is_err());
    assert_eq!(Date::try_new_iso(2023, 13, 1).unwrap_err().field, "month");
    let d = Date::try_new_iso(1, 1, 1).unwrap();
    assert_eq!(Iso::to_fixed(d), 1);
    assert_eq!(Iso::from_fixed(738886), Date::try_new_iso(2024, 1, 1).unwrap());
}

fn days(n: i32) -> DateDuration {
    DateDuration { years: 0, months: 0, weeks: 0, days: n }
}

#[test]
fn offset_by_days_crosses_months_and_years() {
    let mut d = Date::try_new_hebrew(5782, 13, 29).unwrap().inner;
    Hebrew.offset_date(&mut d, days(1));
    assert_eq!(d, Date::try_new_hebrew(5783, 1, 1).unwrap().inner);
    Hebrew.offset_date(&mut d, days(-1));
    assert_eq!(d, Date::try_new_hebrew(5782, 13, 29).unwrap().inner);
    let mut d = Date::try_new_hebrew(5781, 1, 1).unwrap().inner;
    Hebrew.offset_date(&mut d, DateDuration { years: 0, months: 0, weeks: 1, days: 3 });
    assert_eq!(d, Date::try_new_hebrew(5781, 1, 11).unwrap().inner);
    let mut d = Date::try_new_hebrew(5781, 1, 1).unwrap().inner;
    Hebrew.offset_date(&mut d, days(353));
    assert_eq!(d, Date::try_new_hebrew(5782, 1, 1).unwrap().inner);
}

#[test]
fn offset_by_months_and_years() {
    let mut d = Date::try_new_hebrew(5782, 12, 5).unwrap().inner;
    Hebrew.offset_date(&mut d, DateDuration { years: 0, months: 2, weeks: 0, days: 0 });
    assert_eq!(d, Date::try_new_hebrew(5783, 1, 5).unwrap().inner);
    let mut d = Date::try_new_hebrew(5782, 13, 10).unwrap().inner;
    Hebrew.offset_date(&mut d, DateDuration { years: 1, months: 0, weeks: 0, days: 0 });
    // 5783 has twelve months: the thirteenth becomes the last
    assert_eq!(d, Date::try_new_hebrew(5783, 12, 10).unwrap().inner);
    let mut d = Date::try_new_hebrew(5783, 1, 10).unwrap().inner;
    Hebrew.offset_date(&mut d, DateDuration { years: 0, months: -1, weeks: 0, days: 0 });
    assert_eq!(d, Date::try_new_hebrew(5782, 13, 10).unwrap().inner);
    let before = Date::try_new_hebrew(5782, 6, 30).unwrap().inner;
    let mut d = before;
    Hebrew.offset_date(&mut d, DateDuration::default());
    assert_eq!(d, before);
}

#[test]
fn until_subtracts_fields() {
    let a = Date::try_new_hebrew(5783, 2, 10).unwrap().inner;
    let b = Date::try_new_hebrew(5782, 7, 12).unwrap().inner;
    let r = Hebrew.until(&a, &b, &Hebrew, DateDurationUnit::Years, DateDurationUnit::Days);
    assert_eq!(r, DateDuration { years: 1, months: -5, weeks: 0, days: -2 });
}

#[test]
fn offset_by_large_durations() {
    let mut d = Date::try_new_hebrew(5782, 1, 1).unwrap().inner;
    Hebrew.offset_date(&mut d, DateDuration { years: 0, months: 0, weeks: 0, days: 100_000 });
    let mut back = d;
    Hebrew.offset_date(&mut back, days(-100_000));
    assert_eq!(back, Date::try_new_hebrew(5782, 1, 1).unwrap().inner);
    let mut d = Date::try_new_hebrew(5782, 1, 1).unwrap().inner;
    Hebrew.offset_date(&mut d, DateDuration { years: 0, months: 235, weeks: 0, days: 0 });
    // nineteen years hold 235 months
    assert_eq!(d, Date::try_new_hebrew(5801, 1, 1).unwrap().inner);
    let mut d = Date::try_new_hebrew(5782, 1, 1).unwrap().inner;
    Hebrew.offset_date(&mut d, DateDuration { years: -100_000, months: 0, weeks: 0, days: 0 });
    assert_eq!(d.0.year, 5782 - 100_000);
}

#[test]
fn era_year_is_extended_year() {
    for y in [-1240, 0, 1, 5782] {
        let info = Hebrew::year_as_hebrew(y);
        assert_eq!(info.extended_year, y);
        assert_eq!(info.era_year_or_extended(), y);
        assert_eq!(info.standard_era().unwrap().0, "hebrew");
    }
}
