//! The shape of a Hebrew year (its keviyah) and the year arithmetic of
//! `calendrical_calculations`, seen through plain values.
//!
//! A keviyah is held as its index `0..14` in the Four Gates table: indices
//! `0..7` are the common years and `7..14` the leap years.

use calendrical_calculations::hebrew_keviyah::{Keviyah, YearInfo};
use calendrical_calculations::rata_die::RataDie;
use vstd::prelude::*;

verus! {

/// The earliest fixed day that the Hebrew year arithmetic supports.
pub const HEBREW_MIN_RD: i64 = -784362951979;

/// The last day of the last Hebrew year that the arithmetic supports.
pub const HEBREW_MAX_RD: i64 = 784360204356;

/// Whether a keviyah index names a leap year.
pub open spec fn kv_is_leap(k: int) -> bool {
    7 <= k
}

/// The year type of a keviyah: -1 deficient, 0 regular, 1 complete.
pub open spec fn kv_year_type(k: int) -> int {
    if k == 0 || k == 5 || k == 7 || k == 10 || k == 12 {
        -1
    } else if k == 2 || k == 3 || k == 9 {
        0
    } else {
        1
    }
}

/// The number of months in a year of this keviyah.
pub open spec fn kv_months(k: int) -> int {
    if kv_is_leap(k) {
        13
    } else {
        12
    }
}

/// The number of days in a year of this keviyah.
pub open spec fn kv_year_length(k: int) -> int {
    (if kv_is_leap(k) {
        384int
    } else {
        354int
    }) + kv_year_type(k)
}

/// The length of an ordinal month (1 is Tishrei) in a year of this keviyah.
pub open spec fn kv_month_len(k: int, m: int) -> int {
    let number = if kv_is_leap(k) && m >= 6 {
        m - 1
    } else {
        m
    };
    29 + number % 2 + (if m == 2 && kv_year_type(k) == 1 {
        1int
    } else {
        0int
    }) - (if m == 3 && kv_year_type(k) == -1 {
        1int
    } else {
        0int
    })
}

/// The number of days in a year of this keviyah before an ordinal month.
pub open spec fn kv_days_preceding(k: int, m: int) -> int {
    let late = kv_is_leap(k) && m > 6;
    let number = if late {
        m - 1
    } else {
        m
    };
    29 * (m - 1) + number / 2 + (if late {
        1int
    } else {
        0int
    }) + (if m > 2 && kv_year_type(k) == 1 {
        1int
    } else {
        0int
    }) - (if m > 3 && kv_year_type(k) == -1 {
        1int
    } else {
        0int
    })
}

/// The keviyah index and the fixed day of new year of a Hebrew year, as the
/// molad arithmetic finds them.
pub uninterp spec fn hebrew_year_of(h_year: int) -> (int, int);

/// Whether the Hebrew year `h_year` holds the fixed day `rd`.
pub open spec fn year_holds(h_year: int, rd: int) -> bool {
    let (k, ny) = hebrew_year_of(h_year);
    ny <= rd < ny + kv_year_length(k)
}

/// Relies on `YearInfo::compute_for` and `YearInfo::new_year` of
/// calendrical_calculations: the keviyah of a year (as its table index) and
/// its first day. Every year lies within `HEBREW_MIN_RD..=HEBREW_MAX_RD`,
/// as those constants of the crate document, and each year begins the day
/// after the year before it ends (the crate's tests hold the new year that
/// one year's length predicts to the next year's).
#[verifier::external_body]
pub(crate) fn year_info_for(h_year: i32) -> (r: (u8, i64))
    ensures
        (r.0 as int, r.1 as int) == hebrew_year_of(h_year as int),
        r.0 < 14,
        HEBREW_MIN_RD <= r.1,
        r.1 + kv_year_length(r.0 as int) - 1 <= HEBREW_MAX_RD,
        h_year > i32::MIN ==> r.1 == hebrew_year_of(h_year - 1).1 + kv_year_length(
            hebrew_year_of(h_year - 1).0,
        ),
        h_year < i32::MAX ==> hebrew_year_of(h_year + 1).1 == r.1 + kv_year_length(r.0 as int),
{
    let info = YearInfo::compute_for(h_year);
    (info.keviyah as u8, info.new_year().to_i64_date())
}

/// Relies on `YearInfo::year_containing_rd` of calendrical_calculations: the
/// Hebrew year that holds a fixed day, with the keviyah and new year that
/// `YearInfo::compute_for` gives for it. Within the supported range that year
/// holds the day, and no other year does.
#[verifier::external_body]
pub(crate) fn year_containing(rd: i64) -> (r: (u8, i64, i32))
    requires
        HEBREW_MIN_RD <= rd <= HEBREW_MAX_RD,
    ensures
        (r.0 as int, r.1 as int) == hebrew_year_of(r.2 as int),
        r.0 < 14,
        year_holds(r.2 as int, rd as int),
        forall|h: i32| #[trigger] year_holds(h as int, rd as int) ==> h == r.2,
{
    let (info, h_year) = YearInfo::year_containing_rd(RataDie::new(rd));
    (info.keviyah as u8, info.new_year().to_i64_date(), h_year)
}

/// Relies on `Keviyah::month_len`: the length of an ordinal month.
#[verifier::external_body]
pub(crate) fn month_len(k: u8, ordinal_month: u8) -> (r: u8)
    requires
        k < 14,
        1 <= ordinal_month <= kv_months(k as int),
    ensures
        r == kv_month_len(k as int, ordinal_month as int),
{
    Keviyah::from_integer(k).month_len(ordinal_month)
}

/// Relies on `Keviyah::days_preceding`: the days of the year before an
/// ordinal month.
#[verifier::external_body]
pub(crate) fn days_preceding(k: u8, ordinal_month: u8) -> (r: u16)
    requires
        k < 14,
        1 <= ordinal_month <= kv_months(k as int) + 1,
    ensures
        r == kv_days_preceding(k as int, ordinal_month as int),
{
    Keviyah::from_integer(k).days_preceding(ordinal_month)
}

/// Relies on `Keviyah::month_day_for`: the ordinal month and day of a day of
/// the year.
#[verifier::external_body]
pub(crate) fn month_day_for(k: u8, day_of_year: u16) -> (r: (u8, u8))
    requires
        k < 14,
        1 <= day_of_year <= kv_year_length(k as int),
    ensures
        1 <= r.0 <= kv_months(k as int),
        kv_days_preceding(k as int, r.0 as int) < day_of_year <= kv_days_preceding(
            k as int,
            r.0 + 1,
        ),
        r.1 == day_of_year - kv_days_preceding(k as int, r.0 as int),
{
    Keviyah::from_integer(k).month_day_for(day_of_year)
}

/// Relies on `Keviyah::is_leap`: whether the year has thirteen months.
#[verifier::external_body]
pub(crate) fn is_leap(k: u8) -> (r: bool)
    requires
        k < 14,
    ensures
        r == kv_is_leap(k as int),
{
    Keviyah::from_integer(k).is_leap()
}

/// Relies on `Keviyah::year_length`: the number of days in the year.
#[verifier::external_body]
pub(crate) fn year_length(k: u8) -> (r: u16)
    requires
        k < 14,
    ensures
        r == kv_year_length(k as int),
{
    Keviyah::from_integer(k).year_length()
}

/// Relies on `Keviyah::last_month_day_in_year`: the last ordinal month and its
/// last day.
#[verifier::external_body]
pub(crate) fn last_month_day_in_year(k: u8) -> (r: (u8, u8))
    requires
        k < 14,
    ensures
        r.0 == kv_months(k as int),
        r.1 == 29,
{
    Keviyah::from_integer(k).last_month_day_in_year()
}

/// The days before each month add up: a month begins where the one before it
/// ends, and the days before the month after the last are the whole year.
pub proof fn lemma_days_preceding(k: int, m: int)
    requires
        0 <= k < 14,
        1 <= m <= kv_months(k),
    ensures
        kv_days_preceding(k, m + 1) == kv_days_preceding(k, m) + kv_month_len(k, m),
        1 <= kv_days_preceding(k, m) + 1,
        kv_days_preceding(k, 1) == 0,
        kv_days_preceding(k, kv_months(k) + 1) == kv_year_length(k),
        29 <= kv_month_len(k, m) <= 30,
{
}

/// The days before a month grow with the month.
pub proof fn lemma_days_preceding_monotone(k: int, m1: int, m2: int)
    requires
        0 <= k < 14,
        1 <= m1 <= m2 <= kv_months(k) + 1,
    ensures
        kv_days_preceding(k, m1) <= kv_days_preceding(k, m2),
        m1 < m2 ==> kv_days_preceding(k, m1) < kv_days_preceding(k, m2),
    decreases m2 - m1,
{
    if m1 < m2 {
        lemma_days_preceding(k, m2 - 1);
        lemma_days_preceding_monotone(k, m1, m2 - 1);
    }
}

} // verus!
