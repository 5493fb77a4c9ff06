//! Dates, their parts, and the errors of date construction, shared by the
//! calendars of this crate.

use crate::iso::{
    fixed_from_iso, fixed_of_iso, iso_days_in_month, iso_from_fixed, iso_is_leap, iso_valid,
    IsoRangeError, ISO_MAX_RD, ISO_MIN_RD,
};
use vstd::prelude::*;
use vstd::string::StrSliceExecFns;

verus! {

/// A value outside the range that a date field allows.
#[derive(Debug, Clone, Copy, PartialEq, Eq)]
pub struct RangeError {
    /// The name of the field.
    pub field: &'static str,
    /// The value given.
    pub value: i32,
    /// The least value allowed.
    pub min: i32,
    /// The greatest value allowed.
    pub max: i32,
}

/// A month code such as `M05L`: up to four ASCII bytes, padded with zeros.
#[derive(Debug, Clone, Copy, PartialEq, Eq, Hash)]
pub struct MonthCode(pub [u8; 4]);

impl MonthCode {
    /// The bytes of the code.
    pub open spec fn code_bytes(&self) -> Seq<u8> {
        self.0@
    }

    /// The code `Mnn` of a month number from 1 to 99.
    pub fn new_normal(number: u8) -> (r: Option<MonthCode>)
        ensures
            r is Some <==> 1 <= number <= 99,
            r is Some ==> r->0.code_bytes() == seq![77u8, (48 + number / 10) as u8, (48 + number % 10) as u8, 0u8],
    {
        if 1 <= number && number <= 99 {
            let code = MonthCode([77, 48 + number / 10, 48 + number % 10, 0]);
            assert(code.0@ =~= seq![77u8, (48 + number / 10) as u8, (48 + number % 10) as u8, 0u8]);
            Some(code)
        } else {
            None
        }
    }
}

/// Why a date could not be built from codes.
#[derive(Debug, Clone, Copy, PartialEq, Eq)]
pub enum DateError {
    /// A field out of its range.
    Range(RangeError),
    /// An era that the calendar does not have.
    UnknownEra,
    /// A month code that the year does not have.
    UnknownMonthCode(MonthCode),
}

/// The month of a date: its position in the year and its codes.
#[derive(Debug, Clone, Copy, PartialEq, Eq)]
pub struct MonthInfo {
    /// The 1-based position of the month in its year.
    pub ordinal: u8,
    /// The code that names the month in data and round trips.
    pub standard_code: MonthCode,
    /// The code to use when the month is shown to people.
    pub formatting_code: MonthCode,
}

/// The 1-based day of a month.
#[derive(Debug, Clone, Copy, PartialEq, Eq)]
pub struct DayOfMonth(pub u8);

/// The 1-based day of a year.
#[derive(Debug, Clone, Copy, PartialEq, Eq)]
pub struct DayOfYear(pub u16);

/// An era code.
#[derive(Debug, Clone, Copy, PartialEq, Eq)]
pub struct Era(pub &'static str);

/// How much of a year number a reader needs to see to know the year.
#[derive(Debug, Clone, Copy, PartialEq, Eq)]
pub enum YearAmbiguity {
    /// Two digits are enough.
    Unambiguous,
    /// The century must be shown.
    CenturyRequired,
    /// The era must be shown.
    EraRequired,
    /// Both century and era must be shown.
    EraAndCenturyRequired,
}

/// A year counted within an era.
#[derive(Debug, Clone, Copy, PartialEq, Eq)]
pub struct EraYear {
    /// The position of the era among the calendar's eras.
    pub formatting_era_index: u8,
    /// The era's abbreviation for display.
    pub formatting_era: &'static str,
    /// The era's code.
    pub standard_era: Era,
    /// The year within the era.
    pub era_year: i32,
    /// How the year may be abbreviated.
    pub ambiguity: YearAmbiguity,
}

/// The year of a date: the extended year and, where the calendar has eras,
/// the year within its era.
#[derive(Debug, Clone, Copy, PartialEq, Eq)]
pub struct YearInfo {
    /// The year counted without eras.
    pub extended_year: i32,
    /// The era and the year in it.
    pub era: Option<EraYear>,
}

impl YearInfo {
    /// The year within its era, or the extended year for a calendar without eras.
    pub fn era_year_or_extended(&self) -> (r: i32)
        ensures
            self.era is Some ==> r == self.era->0.era_year,
            self.era is None ==> r == self.extended_year,
    {
        match self.era {
            Some(e) => e.era_year,
            None => self.extended_year,
        }
    }

    /// The era's code, if the calendar has eras.
    pub fn standard_era(&self) -> (r: Option<Era>)
        ensures
            self.era is Some ==> r == Some(self.era->0.standard_era),
            self.era is None ==> r is None,
    {
        match self.era {
            Some(e) => Some(e.standard_era),
            None => None,
        }
    }

    /// The year within its era, if the calendar has eras.
    pub fn era_year(&self) -> (r: Option<i32>)
        ensures
            self.era is Some ==> r == Some(self.era->0.era_year),
            self.era is None ==> r is None,
    {
        match self.era {
            Some(e) => Some(e.era_year),
            None => None,
        }
    }
}

/// A year, a month and a day, with what the calendar knows of the year.
#[derive(Debug, Clone, Copy, PartialEq, Eq, Hash)]
pub struct ArithmeticDate<Y> {
    /// The extended year.
    pub year: i32,
    /// The 1-based ordinal month.
    pub month: u8,
    /// The 1-based day of the month.
    pub day: u8,
    /// What the calendar computed about the year.
    pub year_info: Y,
}

/// A span of time in years, months, weeks and days, each counted on its own.
#[derive(Debug, Clone, Copy, PartialEq, Eq, Default)]
pub struct DateDuration {
    pub years: i32,
    pub months: i32,
    pub weeks: i32,
    pub days: i32,
}

/// A unit of a date duration.
#[derive(Debug, Clone, Copy, PartialEq, Eq)]
pub enum DateDurationUnit {
    Years,
    Months,
    Weeks,
    Days,
}

/// A date of the calendar whose inner representation is `I`.
#[derive(Debug, Clone, Copy, PartialEq, Eq, Hash)]
pub struct Date<I> {
    /// The calendar's own representation of the date.
    pub inner: I,
}

/// The ISO calendar: the proleptic Gregorian calendar with years counted
/// without eras.
#[derive(Debug, Clone, Copy, PartialEq, Eq, Default)]
pub struct Iso;

/// An ISO date.
#[derive(Debug, Clone, Copy, PartialEq, Eq, Hash)]
pub struct IsoDateInner(pub ArithmeticDate<()>);

impl IsoDateInner {
    /// Whether the fields name a real ISO date.
    pub open spec fn wf(&self) -> bool {
        iso_valid(self.0.year as int, self.0.month as int, self.0.day as int)
    }

    /// The fixed day of this date.
    pub open spec fn spec_fixed(&self) -> int {
        fixed_of_iso(self.0.year as int, self.0.month as int, self.0.day as int)
    }
}

/// Whether `s` holds exactly the characters of `lit`.
pub fn str_eq(s: &str, lit: &str) -> (r: bool)
    ensures
        r == (s@ == lit@),
{
    let n = s.unicode_len();
    if n != lit.unicode_len() {
        return false;
    }
    let mut i: usize = 0;
    while i < n
        invariant
            n == s@.len() == lit@.len(),
            i <= n,
            s@.subrange(0, i as int) == lit@.subrange(0, i as int),
        decreases n - i,
    {
        if s.get_char(i) != lit.get_char(i) {
            assert(s@[i as int] != lit@[i as int]);
            return false;
        }
        assert(s@.subrange(0, i + 1) =~= s@.subrange(0, i as int).push(s@[i as int]));
        assert(lit@.subrange(0, i + 1) =~= lit@.subrange(0, i as int).push(lit@[i as int]));
        i = i + 1;
    }
    assert(s@ =~= s@.subrange(0, n as int));
    assert(lit@ =~= lit@.subrange(0, n as int));
    true
}

impl Iso {
    /// The number of days in an ISO month.
    pub fn days_in_month(year: i32, month: u8) -> (r: u8)
        requires
            1 <= month <= 12,
        ensures
            r == iso_days_in_month(year as int, month as int),
    {
        if month == 2 {
            // shifted by a multiple of 400 so that the remainders are taken of
            // a non-negative number
            let shifted: i64 = year as i64 + 2147484000;
            if shifted % 4 == 0 && (shifted % 100 != 0 || shifted % 400 == 0) {
                29
            } else {
                28
            }
        } else if month == 4 || month == 6 || month == 9 || month == 11 {
            30
        } else {
            31
        }
    }

    /// The fixed day of an ISO date.
    pub fn to_fixed(date: Date<IsoDateInner>) -> (r: i64)
        requires
            date.inner.wf(),
        ensures
            r == date.inner.spec_fixed(),
            ISO_MIN_RD <= r <= ISO_MAX_RD,
    {
        proof {
            crate::iso::lemma_fixed_within_year(
                date.inner.0.year as int,
                date.inner.0.month as int,
                date.inner.0.day as int,
            );
            lemma_iso_range(date.inner.0.year as int);
        }
        fixed_from_iso(date.inner.0.year, date.inner.0.month, date.inner.0.day)
    }

    /// The ISO date of a fixed day; days before the first or after the last
    /// date of `i32` years give that first or last date.
    pub fn from_fixed(rd: i64) -> (r: Date<IsoDateInner>)
        requires
            -0x7fff_ffff_ffff <= rd <= 0x7fff_ffff_ffff,
        ensures
            r.inner.wf(),
            ISO_MIN_RD <= rd <= ISO_MAX_RD ==> r.inner.spec_fixed() == rd,
            rd < ISO_MIN_RD ==> r.inner.0 == (ArithmeticDate { year: i32::MIN, month: 1, day: 1, year_info: () }),
            rd > ISO_MAX_RD ==> r.inner.0 == (ArithmeticDate { year: i32::MAX, month: 12, day: 31, year_info: () }),
    {
        let (year, month, day) = match iso_from_fixed(rd) {
            Ok(t) => t,
            Err(IsoRangeError::BelowMin) => (i32::MIN, 1, 1),
            Err(IsoRangeError::AboveMax) => (i32::MAX, 12, 31),
        };
        Date { inner: IsoDateInner(ArithmeticDate { year, month, day, year_info: () }) }
    }
}

/// The fixed days of the first and last dates of `i32` years.
pub proof fn lemma_iso_range(y: int)
    requires
        i32::MIN <= y <= i32::MAX,
    ensures
        ISO_MIN_RD == crate::iso::iso_day_before_year(i32::MIN as int) + 1,
        ISO_MAX_RD == crate::iso::iso_day_before_year(i32::MAX as int + 1),
        crate::iso::iso_day_before_year(i32::MIN as int) <= crate::iso::iso_day_before_year(y),
        crate::iso::iso_day_before_year(y + 1) <= crate::iso::iso_day_before_year(i32::MAX as int + 1),
{
    if (i32::MIN as int) < y {
        crate::iso::lemma_day_before_year_monotone(i32::MIN as int, y);
        crate::iso::lemma_day_before_next_year(i32::MIN as int);
    }
    if y < i32::MAX as int {
        crate::iso::lemma_day_before_year_monotone(y, i32::MAX as int + 1);
    }
}

impl Date<IsoDateInner> {
    /// An ISO date, when the month and day exist in that year.
    pub fn try_new_iso(year: i32, month: u8, day: u8) -> (r: Result<Date<IsoDateInner>, RangeError>)
        ensures
            r is Ok <==> iso_valid(year as int, month as int, day as int),
            r is Ok ==> r->Ok_0.inner.0 == (ArithmeticDate { year, month, day, year_info: () }),
            !(1 <= month <= 12) ==> r == Err::<Date<IsoDateInner>, RangeError>(RangeError { field: "month", value: month as i32, min: 1, max: 12 }),
    {
        if month < 1 || month > 12 {
            return Err(RangeError { field: "month", value: month as i32, min: 1, max: 12 });
        }
        let max_day = Iso::days_in_month(year, month);
        if day < 1 || day > max_day {
            return Err(RangeError { field: "day", value: day as i32, min: 1, max: max_day as i32 });
        }
        Ok(Date { inner: IsoDateInner(ArithmeticDate { year, month, day, year_info: () }) })
    }
}

} // verus!
