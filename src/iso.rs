//! The proleptic Gregorian (ISO) calendar and its fixed day count.

use calendrical_calculations::gregorian::{fixed_from_gregorian, gregorian_from_fixed};
use calendrical_calculations::helpers::I32CastError;
use calendrical_calculations::rata_die::RataDie;
use vstd::prelude::*;

verus! {

/// The fixed day of `i32::MIN`-01-01.
pub const ISO_MIN_RD: i64 = -784352296670;

/// The fixed day of `i32::MAX`-12-31.
pub const ISO_MAX_RD: i64 = 784352295939;

/// Whether an ISO year has 366 days.
pub open spec fn iso_is_leap(y: int) -> bool {
    y % 4 == 0 && (y % 100 != 0 || y % 400 == 0)
}

/// The number of days in an ISO month.
pub open spec fn iso_days_in_month(y: int, m: int) -> int {
    if m == 2 {
        if iso_is_leap(y) {
            29
        } else {
            28
        }
    } else if m == 4 || m == 6 || m == 9 || m == 11 {
        30
    } else {
        31
    }
}

/// The days of an ISO year before a month.
pub open spec fn iso_days_before_month(y: int, m: int) -> int {
    let leap: int = if iso_is_leap(y) && m > 2 {
        1
    } else {
        0
    };
    leap + if m <= 1 {
        0int
    } else if m == 2 {
        31
    } else if m == 3 {
        59
    } else if m == 4 {
        90
    } else if m == 5 {
        120
    } else if m == 6 {
        151
    } else if m == 7 {
        181
    } else if m == 8 {
        212
    } else if m == 9 {
        243
    } else if m == 10 {
        273
    } else if m == 11 {
        304
    } else {
        334
    }
}

/// The fixed day before January 1 of an ISO year (day 1 is 0001-01-01).
pub open spec fn iso_day_before_year(y: int) -> int {
    let p = y - 1;
    365 * p + p / 4 - p / 100 + p / 400
}

/// The fixed day of an ISO date.
pub open spec fn fixed_of_iso(y: int, m: int, d: int) -> int {
    iso_day_before_year(y) + iso_days_before_month(y, m) + d
}

/// Whether year, month and day name an ISO date.
pub open spec fn iso_valid(y: int, m: int, d: int) -> bool {
    1 <= m <= 12 && 1 <= d <= iso_days_in_month(y, m)
}

/// A fixed day outside the range of `i32` years.
#[derive(Debug, Clone, Copy, PartialEq, Eq)]
pub enum IsoRangeError {
    BelowMin,
    AboveMax,
}

/// Relies on `gregorian::fixed_from_gregorian` of calendrical_calculations:
/// the fixed day of a date.
#[verifier::external_body]
pub(crate) fn fixed_from_iso(year: i32, month: u8, day: u8) -> (r: i64)
    requires
        1 <= month <= 12,
    ensures
        r == fixed_of_iso(year as int, month as int, day as int),
{
    fixed_from_gregorian(year, month, day).to_i64_date()
}

/// Relies on `gregorian::gregorian_from_fixed` of calendrical_calculations:
/// the date of a fixed day, or which way its year leaves the range of `i32`.
#[verifier::external_body]
pub(crate) fn iso_from_fixed(rd: i64) -> (r: Result<(i32, u8, u8), IsoRangeError>)
    requires
        -0x7fff_ffff_ffff <= rd <= 0x7fff_ffff_ffff,
    ensures
        r is Ok ==> iso_valid(r->Ok_0.0 as int, r->Ok_0.1 as int, r->Ok_0.2 as int),
        r is Ok ==> fixed_of_iso(r->Ok_0.0 as int, r->Ok_0.1 as int, r->Ok_0.2 as int) == rd,
        rd < ISO_MIN_RD <==> (r is Err && r->Err_0 == IsoRangeError::BelowMin),
        rd > ISO_MAX_RD <==> (r is Err && r->Err_0 == IsoRangeError::AboveMax),
{
    match gregorian_from_fixed(RataDie::new(rd)) {
        Ok(t) => Ok(t),
        Err(I32CastError::BelowMin) => Err(IsoRangeError::BelowMin),
        Err(I32CastError::AboveMax) => Err(IsoRangeError::AboveMax),
    }
}

/// The day count grows by the year's length from one year to the next.
pub proof fn lemma_day_before_next_year(y: int)
    ensures
        iso_day_before_year(y + 1) == iso_day_before_year(y) + 365 + if iso_is_leap(y) {
            1int
        } else {
            0int
        },
{
    assert(y / 4 == (y - 1) / 4 + if y % 4 == 0 { 1int } else { 0int });
    assert(y / 100 == (y - 1) / 100 + if y % 100 == 0 { 1int } else { 0int });
    assert(y / 400 == (y - 1) / 400 + if y % 400 == 0 { 1int } else { 0int });
}

/// An ISO date's fixed day lies within its year.
pub proof fn lemma_fixed_within_year(y: int, m: int, d: int)
    requires
        iso_valid(y, m, d),
    ensures
        iso_day_before_year(y) < fixed_of_iso(y, m, d) <= iso_day_before_year(y + 1),
{
    lemma_day_before_next_year(y);
}

/// Later years begin later.
pub proof fn lemma_day_before_year_monotone(y1: int, y2: int)
    requires
        y1 < y2,
    ensures
        iso_day_before_year(y1 + 1) <= iso_day_before_year(y2),
    decreases y2 - y1,
{
    if y1 + 1 < y2 {
        lemma_day_before_year_monotone(y1, y2 - 1);
        lemma_day_before_next_year(y2 - 1);
    }
}

/// Two ISO dates with the same fixed day are the same date.
pub proof fn lemma_fixed_of_iso_injective(y1: int, m1: int, d1: int, y2: int, m2: int, d2: int)
    requires
        iso_valid(y1, m1, d1),
        iso_valid(y2, m2, d2),
        fixed_of_iso(y1, m1, d1) == fixed_of_iso(y2, m2, d2),
    ensures
        y1 == y2 && m1 == m2 && d1 == d2,
{
    lemma_fixed_within_year(y1, m1, d1);
    lemma_fixed_within_year(y2, m2, d2);
    if y1 < y2 {
        lemma_day_before_year_monotone(y1, y2);
    } else if y2 < y1 {
        lemma_day_before_year_monotone(y2, y1);
    }
}

} // verus!
