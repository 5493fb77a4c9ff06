//! The civil Hebrew calendar: a lunisolar calendar whose years start in
//! Tishrei and whose leap years insert Adar I before Adar.
//!
//! It has one era, `hebrew` (alias `am`), Anno Mundi. Common months have the
//! codes `M01`-`M12`; Adar I is `M05L`. Adar II keeps the standard code `M06`
//! and is shown with the formatting code `M06L`.

use crate::date::{
    str_eq, ArithmeticDate, Date, DateDuration, DateDurationUnit, DateError, DayOfMonth, DayOfYear, Era, EraYear, Iso,
    IsoDateInner, MonthCode, MonthInfo, RangeError, YearAmbiguity, YearInfo,
};
use crate::iso::{ISO_MAX_RD, ISO_MIN_RD};
use crate::keviyah::{
    days_preceding, hebrew_year_of, is_leap, kv_days_preceding, kv_is_leap, kv_month_len,
    kv_months, kv_year_length, last_month_day_in_year, lemma_days_preceding,
    lemma_days_preceding_monotone, month_day_for, month_len, year_containing, year_holds,
    year_info_for, year_length, HEBREW_MAX_RD, HEBREW_MIN_RD,
};
use vstd::prelude::*;

verus! {

/// The Hebrew calendar.
#[derive(Clone, Copy, Debug, Hash, Eq, PartialEq, PartialOrd, Ord, Default)]
pub struct Hebrew;

/// The keviyah of a Hebrew year and of the year before it, as table indices.
#[derive(Copy, Clone, Debug, Hash, Eq, PartialEq, PartialOrd, Ord)]
pub struct HebrewYearInfo {
    /// The keviyah of the year.
    pub keviyah: u8,
    /// The keviyah of the year before.
    pub prev_keviyah: u8,
}

/// A date of the Hebrew calendar.
#[derive(Copy, Clone, Debug, Hash, Eq, PartialEq)]
pub struct HebrewDateInner(pub ArithmeticDate<HebrewYearInfo>);

/// The keviyah index of a Hebrew year.
pub open spec fn keviyah_of(h_year: int) -> int {
    hebrew_year_of(h_year).0
}

/// The fixed day of the first day of a Hebrew year.
pub open spec fn new_year_of(h_year: int) -> int {
    hebrew_year_of(h_year).1
}

/// The year whose keviyah is kept beside a year's own: the year before, or
/// the year itself for the first `i32` year, which has none before it.
pub open spec fn prev_year(h_year: int) -> int {
    if h_year > i32::MIN {
        h_year - 1
    } else {
        h_year
    }
}

/// Whether the year after `y` begins the day after `y` ends.
pub open spec fn years_adjoin(y: int) -> bool {
    new_year_of(y + 1) == new_year_of(y) + kv_year_length(keviyah_of(y))
}

/// The fixed day of the first day of a month.
pub open spec fn month_start(y: int, m: int) -> int {
    new_year_of(y) + kv_days_preceding(keviyah_of(y), m)
}

/// The number of months from the start of year `y1` to the start of year
/// `y2` (negative when `y2` comes first).
pub open spec fn months_between(y1: int, y2: int) -> int
    decreases (if y2 >= y1 {
        y2 - y1
    } else {
        y1 - y2
    }),
{
    if y2 == y1 {
        0
    } else if y2 > y1 {
        months_between(y1, y2 - 1) + kv_months(keviyah_of(y2 - 1))
    } else {
        months_between(y1, y2 + 1) - kv_months(keviyah_of(y2))
    }
}

/// Whether moving `off` months from month `m1` of year `y1` reaches month
/// `m` of year `y`: the position `off + m1` counted from year `y1`, or the
/// last month of `y` where a forward move lands past it.
pub open spec fn month_reached(y1: int, m1: int, off: int, y: int, m: int) -> bool {
    let pos = off + m1 - months_between(y1, y);
    &&& 1 <= pos <= 13
    &&& m == if pos <= kv_months(keviyah_of(y)) {
        pos
    } else {
        kv_months(keviyah_of(y))
    }
    &&& pos > kv_months(keviyah_of(y)) ==> off > 0 && y > y1
}

impl HebrewYearInfo {
    /// Whether this is what the calendar computes for `h_year`.
    pub open spec fn is_for(&self, h_year: int) -> bool {
        &&& self.keviyah < 14
        &&& self.prev_keviyah < 14
        &&& self.keviyah == keviyah_of(h_year)
        &&& self.prev_keviyah == keviyah_of(prev_year(h_year))
    }

    /// The year information of a Hebrew year.
    fn compute(h_year: i32) -> (r: Self)
        ensures
            r.is_for(h_year as int),
            h_year > i32::MIN ==> years_adjoin(h_year - 1),
            h_year < i32::MAX ==> years_adjoin(h_year as int),
    {
        let (keviyah, _) = year_info_for(h_year);
        Self::compute_with_keviyah(keviyah, h_year)
    }

    /// The year information of a Hebrew year whose keviyah is known.
    fn compute_with_keviyah(keviyah: u8, h_year: i32) -> (r: Self)
        requires
            keviyah < 14,
            keviyah == keviyah_of(h_year as int),
        ensures
            r.is_for(h_year as int),
    {
        let prev = if h_year > i32::MIN {
            h_year - 1
        } else {
            h_year
        };
        let (prev_keviyah, _) = year_info_for(prev);
        Self { keviyah, prev_keviyah }
    }
}

/// The fixed day of a Hebrew year, month and day.
pub open spec fn hebrew_fixed(d: ArithmeticDate<HebrewYearInfo>) -> int {
    new_year_of(d.year as int) + kv_days_preceding(keviyah_of(d.year as int), d.month as int)
        + d.day - 1
}

/// The month code with a month number and an optional leap marker.
pub open spec fn code_seq(n: int, leap: bool) -> Seq<u8> {
    seq![77u8, (48 + n / 10) as u8, (48 + n % 10) as u8, if leap { 76u8 } else { 0u8 }]
}

/// The code given to an ordinal that no month has.
pub open spec fn undefined_code() -> Seq<u8> {
    seq![117u8, 110u8, 100u8, 0u8]
}

/// The month number and leap marker of a code of the form `Mnn` or `MnnL`.
pub open spec fn code_parts(c: Seq<u8>) -> Option<(int, bool)> {
    if c.len() == 4 && c[0] == 77 && 48 <= c[1] <= 57 && 48 <= c[2] <= 57 && (c[3] == 0 || c[3]
        == 76) {
        Some(((c[1] - 48) * 10 + (c[2] - 48), c[3] == 76))
    } else {
        None
    }
}

/// The ordinal month that a code names in a common or a leap year.
pub open spec fn ordinal_for_code(c: Seq<u8>, leap: bool) -> Option<int> {
    match code_parts(c) {
        Some((n, l)) => if leap {
            if 1 <= n <= 5 && !l {
                Some(n)
            } else if n == 5 && l {
                Some(6)
            } else if n == 6 {
                Some(7)
            } else if 7 <= n <= 12 && !l {
                Some(n + 1)
            } else {
                None
            }
        } else {
            if 1 <= n <= 12 && !l {
                Some(n)
            } else {
                None
            }
        },
        None => None,
    }
}

/// The standard code of an ordinal month.
pub open spec fn standard_code_for(m: int, leap: bool) -> Seq<u8> {
    if leap && m == 6 {
        code_seq(5, true)
    } else if leap && m == 7 {
        code_seq(6, false)
    } else {
        let n = if leap && m > 6 {
            m - 1
        } else {
            m
        };
        if 1 <= n <= 12 {
            code_seq(n, false)
        } else {
            undefined_code()
        }
    }
}

/// The formatting code of an ordinal month: Adar II is shown as `M06L`.
pub open spec fn formatting_code_for(m: int, leap: bool) -> Seq<u8> {
    if leap && m == 7 {
        code_seq(6, true)
    } else {
        standard_code_for(m, leap)
    }
}

impl HebrewDateInner {
    /// Whether the date exists: its year information is the year's own and
    /// its month and day lie within that year.
    pub open spec fn wf(&self) -> bool {
        let d = self.0;
        &&& d.year_info.is_for(d.year as int)
        &&& 1 <= d.month <= kv_months(d.year_info.keviyah as int)
        &&& 1 <= d.day <= kv_month_len(d.year_info.keviyah as int, d.month as int)
    }
}

/// The parts of a month code.
fn month_code_parts(code: &MonthCode) -> (r: Option<(u8, bool)>)
    ensures
        match code_parts(code.0@) {
            Some((n, l)) => r == Some((n as u8, l)),
            None => r is None,
        },
{
    let c = code.0;
    if c[0] == 77 && 48 <= c[1] && c[1] <= 57 && 48 <= c[2] && c[2] <= 57 && (c[3] == 0 || c[3]
        == 76) {
        Some(((c[1] - 48) * 10 + (c[2] - 48), c[3] == 76))
    } else {
        None
    }
}

/// A month code `Mnn` or `MnnL` for `1 <= n <= 12`.
fn make_code(n: u8, leap: bool) -> (r: MonthCode)
    requires
        1 <= n <= 12,
    ensures
        r.0@ == code_seq(n as int, leap),
{
    let r = MonthCode([77, 48 + n / 10, 48 + n % 10, if leap { 76 } else { 0 }]);
    assert(r.0@ =~= code_seq(n as int, leap));
    r
}

impl ArithmeticDate<HebrewYearInfo> {
    /// A Hebrew date from its year, ordinal month and day, checked against the
    /// year's months.
    pub fn new_from_ordinals_with_info(
        year: i32,
        month: u8,
        day: u8,
        info: HebrewYearInfo,
    ) -> (r: Result<Self, RangeError>)
        requires
            info.is_for(year as int),
        ensures
            r is Ok <==> (1 <= month <= kv_months(info.keviyah as int) && 1 <= day <= kv_month_len(
                info.keviyah as int,
                month as int,
            )),
            r is Ok ==> r->Ok_0 == (ArithmeticDate { year, month, day, year_info: info }),
            !(1 <= month <= kv_months(info.keviyah as int)) ==> r is Err && r->Err_0.field@
                == "month"@ && r->Err_0.value == month as i32 && r->Err_0.min == 1 && r->Err_0.max
                == kv_months(info.keviyah as int),
            1 <= month <= kv_months(info.keviyah as int) && !(1 <= day <= kv_month_len(
                info.keviyah as int,
                month as int,
            )) ==> r is Err && r->Err_0.field@ == "day"@ && r->Err_0.value == day as i32
                && r->Err_0.min == 1 && r->Err_0.max == kv_month_len(
                info.keviyah as int,
                month as int,
            ),
    {
        let max_month = Hebrew::months_for_every_year(year, info);
        if month < 1 || month > max_month {
            return Err(RangeError { field: "month", value: month as i32, min: 1, max: max_month as i32 });
        }
        let max_day = Hebrew::month_days(year, month, info);
        if day < 1 || day > max_day {
            return Err(RangeError { field: "day", value: day as i32, min: 1, max: max_day as i32 });
        }
        Ok(ArithmeticDate { year, month, day, year_info: info })
    }
}

impl Hebrew {
    /// The Hebrew calendar.
    pub fn new() -> (r: Self)
        ensures
            r == Hebrew,
    {
        Hebrew
    }

    /// The length of an ordinal month.
    pub fn month_days(h_year: i32, ordinal_month: u8, info: HebrewYearInfo) -> (r: u8)
        requires
            info.keviyah < 14,
            1 <= ordinal_month <= kv_months(info.keviyah as int),
        ensures
            r == kv_month_len(info.keviyah as int, ordinal_month as int),
    {
        month_len(info.keviyah, ordinal_month)
    }

    /// The number of months in the year: 13 in a leap year, else 12.
    pub fn months_for_every_year(h_year: i32, info: HebrewYearInfo) -> (r: u8)
        requires
            info.keviyah < 14,
        ensures
            r == kv_months(info.keviyah as int),
    {
        if is_leap(info.keviyah) {
            13
        } else {
            12
        }
    }

    /// The number of days in the year.
    pub fn days_in_provided_year(h_year: i32, info: HebrewYearInfo) -> (r: u16)
        requires
            info.keviyah < 14,
        ensures
            r == kv_year_length(info.keviyah as int),
    {
        year_length(info.keviyah)
    }

    /// Whether the year has thirteen months.
    pub fn is_leap_year(h_year: i32, info: HebrewYearInfo) -> (r: bool)
        requires
            info.keviyah < 14,
        ensures
            r == kv_is_leap(info.keviyah as int),
    {
        is_leap(info.keviyah)
    }

    /// The last ordinal month of the year and its last day.
    pub fn last_month_day_in_year(h_year: i32, info: HebrewYearInfo) -> (r: (u8, u8))
        requires
            info.keviyah < 14,
        ensures
            r.0 == kv_months(info.keviyah as int),
            r.1 == 29,
            r.1 == kv_month_len(info.keviyah as int, r.0 as int),
    {
        last_month_day_in_year(info.keviyah)
    }

    /// The date with an era, a year, a month code and a day.
    ///
    /// The era is `hebrew`, `am`, or none. In a leap year `M05L` is Adar I and
    /// both `M06` and `M06L` are Adar II; a common year has `M01`-`M12` only.
    pub fn date_from_codes(
        &self,
        era: Option<&str>,
        year: i32,
        month_code: MonthCode,
        day: u8,
    ) -> (r: Result<HebrewDateInner, DateError>)
        ensures
            ({
                let known_era = match era {
                    Some(e) => e@ == "hebrew"@ || e@ == "am"@,
                    None => true,
                };
                let k = keviyah_of(year as int);
                let ordinal = ordinal_for_code(month_code.0@, kv_is_leap(k));
                &&& !known_era ==> r == Err::<HebrewDateInner, DateError>(DateError::UnknownEra)
                &&& known_era && ordinal is None ==> r == Err::<HebrewDateInner, DateError>(
                    DateError::UnknownMonthCode(month_code),
                )
                &&& known_era && ordinal is Some ==> (r is Ok <==> 1 <= day <= kv_month_len(
                    k,
                    ordinal->0,
                ))
                &&& r is Ok ==> (r->Ok_0.wf() && r->Ok_0.0.year == year && r->Ok_0.0.month
                    == ordinal->0 && r->Ok_0.0.day == day)
                &&& known_era && ordinal is Some && !(1 <= day <= kv_month_len(k, ordinal->0))
                    ==> r is Err && r->Err_0 is Range && r->Err_0->Range_0.field@ == "day"@
                    && r->Err_0->Range_0.value == day as i32 && r->Err_0->Range_0.min == 1
                    && r->Err_0->Range_0.max == kv_month_len(k, ordinal->0)
            }),
    {
        match era {
            Some(e) => {
                if !(str_eq(e, "hebrew") || str_eq(e, "am")) {
                    return Err(DateError::UnknownEra);
                }
            },
            None => {},
        }
        let year_info = HebrewYearInfo::compute(year);
        let is_leap_year = is_leap(year_info.keviyah);
        let month_ordinal: u8 = match month_code_parts(&month_code) {
            Some((n, l)) => {
                if is_leap_year {
                    if 1 <= n && n <= 5 && !l {
                        n
                    } else if n == 5 && l {
                        6
                    } else if n == 6 {
                        7
                    } else if 7 <= n && n <= 12 && !l {
                        n + 1
                    } else {
                        return Err(DateError::UnknownMonthCode(month_code));
                    }
                } else {
                    if 1 <= n && n <= 12 && !l {
                        n
                    } else {
                        return Err(DateError::UnknownMonthCode(month_code));
                    }
                }
            },
            None => {
                return Err(DateError::UnknownMonthCode(month_code));
            },
        };
        match ArithmeticDate::new_from_ordinals_with_info(year, month_ordinal, day, year_info) {
            Ok(d) => Ok(HebrewDateInner(d)),
            Err(e) => Err(DateError::Range(e)),
        }
    }

    /// The Hebrew date of an ISO date.
    ///
    /// It is the one Hebrew date with the same fixed day.
    pub fn date_from_iso(&self, iso: Date<IsoDateInner>) -> (r: HebrewDateInner)
        requires
            iso.inner.wf(),
        ensures
            r.wf(),
            hebrew_fixed(r.0) == iso.inner.spec_fixed(),
            forall|h: HebrewDateInner| #[trigger] h.wf() && hebrew_fixed(h.0)
                == iso.inner.spec_fixed() ==> h == r,
    {
        let fixed_iso = Iso::to_fixed(iso);
        let (keviyah, new_year, h_year) = year_containing(fixed_iso);
        let day_of_year = (fixed_iso - new_year + 1) as u16;
        let year_info = HebrewYearInfo::compute_with_keviyah(keviyah, h_year);
        let (month, day) = month_day_for(keviyah, day_of_year);
        let r = HebrewDateInner(ArithmeticDate { year: h_year, month, day, year_info });
        proof {
            lemma_days_preceding(keviyah as int, month as int);
            assert forall|h: HebrewDateInner| #[trigger] h.wf() && hebrew_fixed(h.0)
                == iso.inner.spec_fixed() implies h == r by {
                lemma_date_in_year(h);
                lemma_unique_date(h, r);
            }
        }
        r
    }

    /// The ISO date of a Hebrew date: the one with the same fixed day, or the
    /// first or last ISO date where that day lies beyond `i32` years.
    pub fn date_to_iso(&self, date: &HebrewDateInner) -> (r: Date<IsoDateInner>)
        requires
            date.wf(),
        ensures
            r.inner.wf(),
            ISO_MIN_RD <= hebrew_fixed(date.0) <= ISO_MAX_RD ==> r.inner.spec_fixed()
                == hebrew_fixed(date.0),
            hebrew_fixed(date.0) < ISO_MIN_RD ==> r.inner.0 == (ArithmeticDate { year: i32::MIN, month: 1, day: 1, year_info: () }),
            hebrew_fixed(date.0) > ISO_MAX_RD ==> r.inner.0 == (ArithmeticDate { year: i32::MAX, month: 12, day: 31, year_info: () }),
    {
        let (_, new_year) = year_info_for(date.0.year);
        let preceding = days_preceding(date.0.year_info.keviyah, date.0.month);
        proof {
            lemma_days_preceding(date.0.year_info.keviyah as int, date.0.month as int);
        }
        Iso::from_fixed(new_year + preceding as i64 + date.0.day as i64 - 1)
    }

    /// The number of months in the date's year.
    pub fn months_in_year(&self, date: &HebrewDateInner) -> (r: u8)
        requires
            date.wf(),
        ensures
            r == kv_months(date.0.year_info.keviyah as int),
    {
        Self::months_for_every_year(date.0.year, date.0.year_info)
    }

    /// The number of days in the date's year: the length of its keviyah.
    pub fn days_in_year(&self, date: &HebrewDateInner) -> (r: u16)
        requires
            date.wf(),
        ensures
            r == kv_year_length(keviyah_of(date.0.year as int)),
            r == 353 || r == 354 || r == 355 || r == 383 || r == 384 || r == 385,
    {
        Self::days_in_provided_year(date.0.year, date.0.year_info)
    }

    /// The number of days in the date's month.
    pub fn days_in_month(&self, date: &HebrewDateInner) -> (r: u8)
        requires
            date.wf(),
        ensures
            r == kv_month_len(date.0.year_info.keviyah as int, date.0.month as int),
    {
        Self::month_days(date.0.year, date.0.month, date.0.year_info)
    }

    /// The name of the calendar.
    pub fn debug_name(&self) -> (r: &'static str)
        ensures
            r@ == "Hebrew"@,
    {
        "Hebrew"
    }

    /// The year of a date: Anno Mundi, with the era year equal to the
    /// extended year, negative years included.
    pub fn year(&self, date: &HebrewDateInner) -> (r: YearInfo)
        ensures
            r == Self::spec_year_as_hebrew(date.0.year),
    {
        Self::year_as_hebrew(date.0.year)
    }

    /// Whether the date's year has thirteen months.
    pub fn is_in_leap_year(&self, date: &HebrewDateInner) -> (r: bool)
        requires
            date.wf(),
        ensures
            r == kv_is_leap(date.0.year_info.keviyah as int),
    {
        Self::is_leap_year(date.0.year, date.0.year_info)
    }

    /// The ordinal month of a date with its standard and formatting codes.
    pub fn month(&self, date: &HebrewDateInner) -> (r: MonthInfo)
        requires
            date.wf(),
        ensures
            r.ordinal == date.0.month,
            r.standard_code.0@ == standard_code_for(
                date.0.month as int,
                kv_is_leap(date.0.year_info.keviyah as int),
            ),
            r.formatting_code.0@ == formatting_code_for(
                date.0.month as int,
                kv_is_leap(date.0.year_info.keviyah as int),
            ),
    {
        let mut ordinal = date.0.month;
        let is_leap_year = Self::is_leap_year(date.0.year, date.0.year_info);
        if is_leap_year {
            if ordinal == 6 {
                return MonthInfo {
                    ordinal,
                    standard_code: make_code(5, true),
                    formatting_code: make_code(5, true),
                };
            } else if ordinal == 7 {
                return MonthInfo {
                    ordinal,
                    standard_code: make_code(6, false),
                    formatting_code: make_code(6, true),
                };
            }
        }
        if is_leap_year && ordinal > 6 {
            ordinal -= 1;
        }
        let code = if 1 <= ordinal && ordinal <= 12 {
            make_code(ordinal, false)
        } else {
            let und = MonthCode([117, 110, 100, 0]);
            assert(und.0@ =~= undefined_code());
            und
        };
        MonthInfo { ordinal: date.0.month, standard_code: code, formatting_code: code }
    }

    /// The day of the month.
    pub fn day_of_month(&self, date: &HebrewDateInner) -> (r: DayOfMonth)
        ensures
            r.0 == date.0.day,
    {
        DayOfMonth(date.0.day)
    }

    /// The day of the year.
    pub fn day_of_year(&self, date: &HebrewDateInner) -> (r: DayOfYear)
        requires
            date.wf(),
        ensures
            r.0 == kv_days_preceding(date.0.year_info.keviyah as int, date.0.month as int)
                + date.0.day,
    {
        proof {
            lemma_days_preceding(date.0.year_info.keviyah as int, date.0.month as int);
        }
        DayOfYear(days_preceding(date.0.year_info.keviyah, date.0.month) + date.0.day as u16)
    }

    /// The day of the week, from 1 (Monday) to 7 (Sunday).
    pub fn day_of_week(&self, date: &HebrewDateInner) -> (r: u8)
        requires
            date.wf(),
        ensures
            1 <= r <= 7,
            r as int % 7 == hebrew_fixed(date.0) % 7,
    {
        let (_, new_year) = year_info_for(date.0.year);
        let preceding = days_preceding(date.0.year_info.keviyah, date.0.month);
        proof {
            lemma_days_preceding(date.0.year_info.keviyah as int, date.0.month as int);
        }
        let fixed = new_year + preceding as i64 + date.0.day as i64 - 1;
        // shifted by a multiple of 7 so that the remainder is taken of a
        // non-negative number
        let rem = ((fixed + 784362951979 * 7) % 7) as u8;
        if rem == 0 {
            7
        } else {
            rem
        }
    }

    /// The year of the calendar's single era.
    pub open spec fn spec_year_as_hebrew(civil_year: i32) -> YearInfo {
        YearInfo {
            extended_year: civil_year,
            era: Some(
                EraYear {
                    formatting_era_index: 0,
                    formatting_era: "AM",
                    standard_era: Era("hebrew"),
                    era_year: civil_year,
                    ambiguity: YearAmbiguity::CenturyRequired,
                },
            ),
        }
    }

    /// The year of the calendar's single era: the era year is the extended year.
    pub fn year_as_hebrew(civil_year: i32) -> (r: YearInfo)
        ensures
            r == Self::spec_year_as_hebrew(civil_year),
    {
        YearInfo {
            extended_year: civil_year,
            era: Some(
                EraYear {
                    formatting_era_index: 0,
                    formatting_era: "AM",
                    standard_era: Era("hebrew"),
                    era_year: civil_year,
                    ambiguity: YearAmbiguity::CenturyRequired,
                },
            ),
        }
    }
}

/// The most years that moving by `off` months can cross, with room for one
/// more step.
pub open spec fn month_drift(off: int) -> int {
    (if off < 0 {
        -off
    } else {
        off
    } + 14) / 12 + 1
}

/// The most years that moving by `off` days can cross, with room for one
/// more month step.
pub open spec fn day_drift(off: int) -> int {
    (if off < 0 {
        -off
    } else {
        off
    } + 29) / 29 + 3
}

/// The days that `offset_date` adds from the first day of the month reached.
pub open spec fn duration_days(offset: DateDuration, day: int) -> int {
    offset.days + 7 * offset.weeks + day - 1
}

/// Whether a date in year `year` can move by `offset` with every year it
/// passes through within `i32`.
pub open spec fn offset_fits(year: int, day: int, offset: DateDuration) -> bool {
    let d = duration_days(offset, day);
    let y1 = year + offset.years;
    &&& i32::MIN <= d <= i32::MAX
    &&& i32::MIN + month_drift(offset.months as int) + day_drift(d) <= y1 <= i32::MAX
        - month_drift(offset.months as int) - day_drift(d)
}

/// Whether a Hebrew year, month and day exist, with the year's own information.
pub open spec fn hebrew_valid(d: ArithmeticDate<HebrewYearInfo>) -> bool {
    HebrewDateInner(d).wf()
}

impl ArithmeticDate<HebrewYearInfo> {
    /// Moves the date by whole months, across years as needed; the day stays.
    /// A month that the year reached lacks becomes its last month.
    fn offset_months(&mut self, month_offset: i32)
        requires
            old(self).year_info.is_for(old(self).year as int),
            1 <= old(self).month <= kv_months(old(self).year_info.keviyah as int),
            i32::MIN + month_drift(month_offset as int) <= old(self).year <= i32::MAX
                - month_drift(month_offset as int),
        ensures
            final(self).year_info.is_for(final(self).year as int),
            1 <= final(self).month <= kv_months(final(self).year_info.keviyah as int),
            final(self).day == old(self).day,
            month_offset >= 0 ==> old(self).year <= final(self).year && 12 * (final(self).year
                - old(self).year) <= month_offset + 13,
            month_offset <= 0 ==> final(self).year <= old(self).year && 12 * (old(self).year
                - final(self).year) <= 13 - month_offset,
            month_offset == 0 ==> *final(self) == *old(self),
            month_reached(
                old(self).year as int,
                old(self).month as int,
                month_offset as int,
                final(self).year as int,
                final(self).month as int,
            ),
            final(self).year == old(self).year + 1 ==> years_adjoin(old(self).year as int),
            final(self).year == old(self).year - 1 ==> years_adjoin(final(self).year as int),
            month_offset == 1 ==> month_start(final(self).year as int, final(self).month as int)
                == month_start(old(self).year as int, old(self).month as int) + kv_month_len(
                keviyah_of(old(self).year as int),
                old(self).month as int,
            ),
            month_offset == -1 ==> month_start(old(self).year as int, old(self).month as int)
                == month_start(final(self).year as int, final(self).month as int) + kv_month_len(
                keviyah_of(final(self).year as int),
                final(self).month as int,
            ),
    {
        let ghost y0 = self.year as int;
        let ghost m0 = self.month as int;
        let ghost off0 = month_offset as int;
        let mut off = month_offset;
        loop
            invariant_except_break
                months_between(y0, self.year as int) + self.month - m0 + off == off0,
                off == 0 && self.month > kv_months(self.year_info.keviyah as int) ==> off0 > 0
                    && self.year > y0,
                off0 >= 0 ==> (y0 <= self.year && 12 * (self.year - y0) <= off0 - off && -13 <= off
                    <= off0),
                off0 < 0 ==> (self.year <= y0 && 12 * (y0 - self.year) <= off - off0 && off0 <= off
                    <= 13),
                off0 >= 0 && off < 0 ==> self.month + off >= 1,
                off0 < 0 && off > 0 ==> self.month + off <= kv_months(self.year_info.keviyah as int),
            invariant
                self.year_info.is_for(self.year as int),
                1 <= self.month <= 13,
                self.day == old(self).day,
                off0 == 0 ==> *self == *old(self),
                off0 == 0 ==> off == 0,
                off0 == month_offset,
                m0 == old(self).month,
                self.year == y0 + 1 ==> years_adjoin(y0),
                self.year == y0 - 1 ==> years_adjoin(y0 - 1),
                y0 == old(self).year,
                i32::MIN + month_drift(off0) <= y0 <= i32::MAX - month_drift(off0),
            ensures
                self.year_info.is_for(self.year as int),
                1 <= self.month <= 13,
                self.day == old(self).day,
                off0 >= 0 ==> (y0 <= self.year && 12 * (self.year - y0) <= off0 + 13),
                off0 < 0 ==> (self.year <= y0 && 12 * (y0 - self.year) <= 13 - off0),
                off0 == 0 ==> *self == *old(self),
                self.month == off0 + m0 - months_between(y0, self.year as int),
                self.month > kv_months(self.year_info.keviyah as int) ==> off0 > 0 && self.year
                    > y0,
                self.year == y0 + 1 ==> years_adjoin(y0),
                self.year == y0 - 1 ==> years_adjoin(y0 - 1),
            decreases (if off == 0 {
                0
            } else if off0 >= 0 {
                off + 14
            } else {
                14 - off
            }),
        {
            if off == 0 {
                break;
            }
            let year_months = Hebrew::months_for_every_year(self.year, self.year_info) as i32;
            if self.month as i64 + off as i64 > year_months as i64 {
                self.year = self.year + 1;
                self.year_info = HebrewYearInfo::compute(self.year);
                off = off - year_months;
            } else if (self.month as i64) + (off as i64) < 1 {
                self.year = self.year - 1;
                self.year_info = HebrewYearInfo::compute(self.year);
                off = off + Hebrew::months_for_every_year(self.year, self.year_info) as i32;
            } else {
                self.month = (self.month as i32 + off) as u8;
                break;
            }
        }
        let year_months = Hebrew::months_for_every_year(self.year, self.year_info);
        if self.month > year_months {
            self.month = year_months;
        }
        proof {
            let k0 = keviyah_of(y0);
            let k = keviyah_of(self.year as int);
            if off0 == 1 || off0 == -1 {
                lemma_days_preceding(k0, m0);
                lemma_days_preceding(k, self.month as int);
                if self.year as int == y0 + 1 {
                    assert(months_between(y0, y0 + 1) == kv_months(k0));
                    lemma_days_preceding(k0, kv_months(k0));
                } else if self.year as int == y0 - 1 {
                    assert(months_between(y0, y0 - 1) == -kv_months(k));
                    lemma_days_preceding(k, kv_months(k));
                }
            }
        }
    }

    /// Moves the first day of a month by a number of days, month by month.
    fn offset_days(&mut self, day_offset: i32)
        requires
            hebrew_valid(*old(self)),
            old(self).day == 1,
            i32::MIN + day_drift(day_offset as int) <= old(self).year <= i32::MAX - day_drift(
                day_offset as int,
            ),
        ensures
            hebrew_valid(*final(self)),
            0 <= day_offset && day_offset + 1 <= kv_month_len(
                old(self).year_info.keviyah as int,
                old(self).month as int,
            ) ==> *final(self) == (ArithmeticDate { day: (day_offset + 1) as u8, ..*old(self) }),
            hebrew_fixed(*final(self)) == hebrew_fixed(*old(self)) + day_offset,
    {
        let ghost y0 = self.year as int;
        let ghost off0 = day_offset as int;
        let mut off = day_offset;
        loop
            invariant_except_break
                self.day == 1,
                hebrew_fixed(*self) + off == hebrew_fixed(*old(self)) + off0,
                off == off0 ==> *self == *old(self),
                0 <= off0 && off0 + 1 <= kv_month_len(
                    old(self).year_info.keviyah as int,
                    old(self).month as int,
                ) ==> off == off0,
                off0 >= 0 ==> (y0 <= self.year && 29 * (self.year - y0) <= off0 - off && 0 <= off
                    <= off0),
                off0 < 0 ==> (self.year <= y0 && 29 * (y0 - self.year) <= off - off0 && off0 <= off
                    <= 29),
                off0 < 0 && off >= 0 ==> off + 1 <= kv_month_len(
                    self.year_info.keviyah as int,
                    self.month as int,
                ),
            invariant
                hebrew_valid(*self),
                off0 == day_offset,
                y0 == old(self).year,
                i32::MIN + day_drift(off0) <= y0 <= i32::MAX - day_drift(off0),
            ensures
                hebrew_valid(*self),
                0 <= off0 && off0 + 1 <= kv_month_len(
                    old(self).year_info.keviyah as int,
                    old(self).month as int,
                ) ==> *self == (ArithmeticDate { day: (off0 + 1) as u8, ..*old(self) }),
                hebrew_fixed(*self) == hebrew_fixed(*old(self)) + off0,
            decreases (if off0 >= 0 {
                off + 1
            } else {
                31 - off
            }),
        {
            let month_days = Hebrew::month_days(self.year, self.month, self.year_info) as i32;
            if 1 + off as i64 > month_days as i64 {
                self.offset_months(1);
                off = off - month_days;
            } else if off < 0 {
                self.offset_months(-1);
                off = off + Hebrew::month_days(self.year, self.month, self.year_info) as i32;
            } else {
                self.day = (1 + off) as u8;
                break;
            }
        }
    }

    /// Moves the date by a duration: years first, then months, then weeks and
    /// days. A month that the new year lacks becomes its last month.
    pub fn offset_date(&mut self, offset: DateDuration)
        requires
            hebrew_valid(*old(self)),
            offset_fits(old(self).year as int, old(self).day as int, offset),
        ensures
            hebrew_valid(*final(self)),
            offset == (DateDuration { years: 0, months: 0, weeks: 0, days: 0 }) ==> *final(self)
                == *old(self),
            offset.years == 0 && offset.months == 0 ==> hebrew_fixed(*final(self)) == hebrew_fixed(
                *old(self),
            ) + offset.days + 7 * offset.weeks,
            ({
                let y1 = old(self).year + offset.years;
                let m1 = if offset.years == 0 || old(self).month <= kv_months(keviyah_of(y1)) {
                    old(self).month as int
                } else {
                    kv_months(keviyah_of(y1))
                };
                exists|y: int, m: int|
                    month_reached(y1, m1, offset.months as int, y, m) && #[trigger] month_start(y, m)
                        + old(self).day - 1 + offset.days + 7 * offset.weeks == hebrew_fixed(*final(self))
            }),
    {
        if offset.years != 0 {
            self.year = self.year + offset.years;
            self.year_info = HebrewYearInfo::compute(self.year);
            let months = Hebrew::months_for_every_year(self.year, self.year_info);
            if self.month > months {
                self.month = months;
            }
        }
        let ghost m1 = self.month as int;
        self.offset_months(offset.months);
        let day_offset = (offset.days as i64 + offset.weeks as i64 * 7 + self.day as i64 - 1) as i32;
        let ghost before_days = *self;
        self.day = 1;
        self.offset_days(day_offset);
        proof {
            let y1 = old(self).year + offset.years;
            assert(month_reached(y1, m1, offset.months as int, before_days.year as int, before_days.month as int));
            assert(month_start(before_days.year as int, before_days.month as int) + old(self).day - 1
                + offset.days + 7 * offset.weeks == hebrew_fixed(*self));
            if offset == (DateDuration { years: 0, months: 0, weeks: 0, days: 0 }) {
                assert(before_days == *old(self));
            }
        }
    }

    /// The difference of two dates, field by field.
    pub fn until(&self, date2: ArithmeticDate<HebrewYearInfo>) -> (r: DateDuration)
        requires
            i32::MIN <= self.year - date2.year <= i32::MAX,
        ensures
            r == (DateDuration {
                years: (self.year - date2.year) as i32,
                months: (self.month - date2.month) as i32,
                weeks: 0,
                days: (self.day - date2.day) as i32,
            }),
    {
        DateDuration {
            years: self.year - date2.year,
            months: self.month as i32 - date2.month as i32,
            weeks: 0,
            days: self.day as i32 - date2.day as i32,
        }
    }
}

impl Hebrew {
    /// Moves a date by a duration; see `ArithmeticDate::offset_date`.
    pub fn offset_date(&self, date: &mut HebrewDateInner, offset: DateDuration)
        requires
            old(date).wf(),
            offset_fits(old(date).0.year as int, old(date).0.day as int, offset),
        ensures
            final(date).wf(),
            offset == (DateDuration { years: 0, months: 0, weeks: 0, days: 0 }) ==> *final(date)
                == *old(date),
            offset.years == 0 && offset.months == 0 ==> hebrew_fixed(final(date).0) == hebrew_fixed(
                old(date).0,
            ) + offset.days + 7 * offset.weeks,
            ({
                let y1 = old(date).0.year + offset.years;
                let m1 = if offset.years == 0 || old(date).0.month <= kv_months(keviyah_of(y1)) {
                    old(date).0.month as int
                } else {
                    kv_months(keviyah_of(y1))
                };
                exists|y: int, m: int|
                    month_reached(y1, m1, offset.months as int, y, m) && #[trigger] month_start(y, m)
                        + old(date).0.day - 1 + offset.days + 7 * offset.weeks == hebrew_fixed(final(date).0)
            }),
    {
        date.0.offset_date(offset)
    }

    /// The difference of two dates, field by field; the units are not used.
    pub fn until(
        &self,
        date1: &HebrewDateInner,
        date2: &HebrewDateInner,
        calendar2: &Hebrew,
        largest_unit: DateDurationUnit,
        smallest_unit: DateDurationUnit,
    ) -> (r: DateDuration)
        requires
            i32::MIN <= date1.0.year - date2.0.year <= i32::MAX,
        ensures
            r == (DateDuration {
                years: (date1.0.year - date2.0.year) as i32,
                months: (date1.0.month - date2.0.month) as i32,
                weeks: 0,
                days: (date1.0.day - date2.0.day) as i32,
            }),
    {
        date1.0.until(date2.0)
    }
}

impl Date<HebrewDateInner> {
    /// A Hebrew date from its year, ordinal month and day.
    pub fn try_new_hebrew(year: i32, month: u8, day: u8) -> (r: Result<Date<HebrewDateInner>, RangeError>)
        ensures
            ({
                let k = keviyah_of(year as int);
                &&& r is Ok <==> (1 <= month <= kv_months(k) && 1 <= day <= kv_month_len(k, month as int))
                &&& r is Ok ==> r->Ok_0.inner.wf() && r->Ok_0.inner.0.year == year
                    && r->Ok_0.inner.0.month == month && r->Ok_0.inner.0.day == day
            }),
    {
        let year_info = HebrewYearInfo::compute(year);
        match ArithmeticDate::new_from_ordinals_with_info(year, month, day, year_info) {
            Ok(d) => Ok(Date { inner: HebrewDateInner(d) }),
            Err(e) => Err(e),
        }
    }

    /// A Hebrew date from an era, a year, a month code and a day; see
    /// `Hebrew::date_from_codes`.
    pub fn try_new_from_codes(
        era: Option<&str>,
        year: i32,
        month_code: MonthCode,
        day: u8,
        calendar: Hebrew,
    ) -> (r: Result<Date<HebrewDateInner>, DateError>)
        ensures
            ({
                let known_era = match era {
                    Some(e) => e@ == "hebrew"@ || e@ == "am"@,
                    None => true,
                };
                let k = keviyah_of(year as int);
                let ordinal = ordinal_for_code(month_code.0@, kv_is_leap(k));
                &&& !known_era ==> r == Err::<Date<HebrewDateInner>, DateError>(DateError::UnknownEra)
                &&& known_era && ordinal is None ==> r == Err::<Date<HebrewDateInner>, DateError>(
                    DateError::UnknownMonthCode(month_code),
                )
                &&& known_era && ordinal is Some ==> (r is Ok <==> 1 <= day <= kv_month_len(
                    k,
                    ordinal->0,
                ))
                &&& known_era && ordinal is Some && !(1 <= day <= kv_month_len(k, ordinal->0))
                    ==> r is Err && r->Err_0 is Range && r->Err_0->Range_0.field@ == "day"@
                    && r->Err_0->Range_0.value == day as i32 && r->Err_0->Range_0.min == 1
                    && r->Err_0->Range_0.max == kv_month_len(k, ordinal->0)
                &&& r is Ok ==> (r->Ok_0.inner.wf() && r->Ok_0.inner.0.year == year
                    && r->Ok_0.inner.0.month == ordinal->0 && r->Ok_0.inner.0.day == day)
            }),
    {
        match calendar.date_from_codes(era, year, month_code, day) {
            Ok(inner) => Ok(Date { inner }),
            Err(e) => Err(e),
        }
    }

    /// The ISO date with the same fixed day (clamped to `i32` years).
    pub fn to_calendar(&self, calendar: Iso) -> (r: Date<IsoDateInner>)
        requires
            self.inner.wf(),
        ensures
            r.inner.wf(),
            ISO_MIN_RD <= hebrew_fixed(self.inner.0) <= ISO_MAX_RD ==> r.inner.spec_fixed()
                == hebrew_fixed(self.inner.0),
    {
        Hebrew.date_to_iso(&self.inner)
    }

    /// The year of the date.
    pub fn year(&self) -> (r: YearInfo)
        ensures
            r == Hebrew::spec_year_as_hebrew(self.inner.0.year),
    {
        Hebrew.year(&self.inner)
    }

    /// The month of the date.
    pub fn month(&self) -> (r: MonthInfo)
        requires
            self.inner.wf(),
        ensures
            r.ordinal == self.inner.0.month,
            r.standard_code.0@ == standard_code_for(
                self.inner.0.month as int,
                kv_is_leap(self.inner.0.year_info.keviyah as int),
            ),
            r.formatting_code.0@ == formatting_code_for(
                self.inner.0.month as int,
                kv_is_leap(self.inner.0.year_info.keviyah as int),
            ),
    {
        Hebrew.month(&self.inner)
    }

    /// The day of the month.
    pub fn day_of_month(&self) -> (r: DayOfMonth)
        ensures
            r.0 == self.inner.0.day,
    {
        Hebrew.day_of_month(&self.inner)
    }
}

impl Date<IsoDateInner> {
    /// The Hebrew date with the same fixed day.
    pub fn to_calendar(&self, calendar: Hebrew) -> (r: Date<HebrewDateInner>)
        requires
            self.inner.wf(),
        ensures
            r.inner.wf(),
            hebrew_fixed(r.inner.0) == self.inner.spec_fixed(),
            forall|h: HebrewDateInner| #[trigger] h.wf() && hebrew_fixed(h.0)
                == self.inner.spec_fixed() ==> h == r.inner,
    {
        Date { inner: calendar.date_from_iso(*self) }
    }
}

/// From ISO to Hebrew and back: when `h` is the Hebrew date of the ISO date
/// `iso` (same fixed day) and `back` is the ISO date of `h`, then `back` is
/// `iso`.
pub proof fn lemma_iso_hebrew_iso(iso: IsoDateInner, h: HebrewDateInner, back: IsoDateInner)
    requires
        iso.wf(),
        h.wf(),
        hebrew_fixed(h.0) == iso.spec_fixed(),
        back.wf(),
        back.spec_fixed() == hebrew_fixed(h.0),
    ensures
        back == iso,
{
    crate::iso::lemma_fixed_of_iso_injective(
        iso.0.year as int,
        iso.0.month as int,
        iso.0.day as int,
        back.0.year as int,
        back.0.month as int,
        back.0.day as int,
    );
    assert(back.0.year_info == iso.0.year_info);
    assert(back.0 == iso.0);
}

/// Every Hebrew year has 353, 354, 355, 383, 384 or 385 days, 13 months when
/// it has more than 355 days and 12 otherwise, and its months add up to its
/// length.
pub proof fn lemma_year_lengths(k: int)
    requires
        0 <= k < 14,
    ensures
        ({
            let len = kv_year_length(k);
            len == 353 || len == 354 || len == 355 || len == 383 || len == 384 || len == 385
        }),
        kv_is_leap(k) <==> kv_year_length(k) > 355,
        kv_days_preceding(k, kv_months(k) + 1) == kv_year_length(k),
{
}

/// The month codes of a month lead back to it: in every year, the standard
/// code and the formatting code of an ordinal month both name that month.
pub proof fn lemma_month_code_round_trip(m: int, leap: bool)
    requires
        1 <= m <= if leap {
            13int
        } else {
            12int
        },
    ensures
        ordinal_for_code(standard_code_for(m, leap), leap) == Some(m),
        ordinal_for_code(formatting_code_for(m, leap), leap) == Some(m),
{
    let s = standard_code_for(m, leap);
    let f = formatting_code_for(m, leap);
    assert(s.len() == 4 && f.len() == 4);
}

/// In a leap year, Adar I is `M05L`, and Adar II answers to `M06` and to `M06L`,
/// with `M06` as its standard code and `M06L` as its formatting code.
pub proof fn lemma_adar_codes()
    ensures
        ordinal_for_code(code_seq(5, true), true) == Some(6int),
        ordinal_for_code(code_seq(6, false), true) == Some(7int),
        ordinal_for_code(code_seq(6, true), true) == Some(7int),
        ordinal_for_code(code_seq(5, true), false) is None,
        standard_code_for(6, true) == code_seq(5, true),
        standard_code_for(7, true) == code_seq(6, false),
        formatting_code_for(7, true) == code_seq(6, true),
{
}

/// The Hebrew calendar has no inverse era: every year, zero and negative
/// years included, is its own era year in the era `hebrew`, shown as `AM`
/// and needing its century.
pub proof fn lemma_no_inverse_era(civil_year: i32)
    ensures
        ({
            let info = Hebrew::spec_year_as_hebrew(civil_year);
            &&& info.extended_year == civil_year
            &&& info.era is Some
            &&& info.era->0.era_year == civil_year
            &&& info.era->0.standard_era.0@ == "hebrew"@
            &&& info.era->0.formatting_era_index == 0
            &&& info.era->0.formatting_era@ == "AM"@
            &&& info.era->0.ambiguity == YearAmbiguity::CenturyRequired
        }),
{
}

/// A well-formed Hebrew date lies in its own year.
pub proof fn lemma_date_in_year(h: HebrewDateInner)
    requires
        h.wf(),
    ensures
        year_holds(h.0.year as int, hebrew_fixed(h.0)),
{
    let k = h.0.year_info.keviyah as int;
    lemma_days_preceding(k, h.0.month as int);
    lemma_days_preceding_monotone(k, h.0.month as int + 1, kv_months(k) + 1);
    lemma_days_preceding(k, kv_months(k));
}

/// Two well-formed Hebrew dates of one year with the same fixed day are one date.
proof fn lemma_unique_date(h: HebrewDateInner, r: HebrewDateInner)
    requires
        h.wf(),
        r.wf(),
        hebrew_fixed(h.0) == hebrew_fixed(r.0),
        h.0.year == r.0.year,
    ensures
        h == r,
{
    let k = r.0.year_info.keviyah as int;
    lemma_days_preceding(k, h.0.month as int);
    lemma_days_preceding(k, r.0.month as int);
    if h.0.month < r.0.month {
        lemma_days_preceding_monotone(k, h.0.month as int + 1, r.0.month as int);
    } else if r.0.month < h.0.month {
        lemma_days_preceding_monotone(k, r.0.month as int + 1, h.0.month as int);
    }
}

} // verus!
