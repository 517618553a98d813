//! Conversion between the proleptic Gregorian (ISO) calendar and the
//! Umm al-Qura Hijri calendar, delegated to ICU4X's `icu_calendar`.

use vstd::prelude::*;

use icu_calendar::cal::Hijri;
use icu_calendar::types::Weekday;
use icu_calendar::Date;
use icu_calendar::Iso;

verus! {

/// A date in the Umm al-Qura Hijri calendar. `month` and `day` are 1-based.
#[derive(Debug, Clone, Copy, PartialEq, Eq, Structural)]
pub struct HijriDate {
    pub year: i32,
    pub month: u8,
    pub day: u8,
}

/// A proleptic Gregorian (ISO) date plus its weekday index (0 = Sunday .. 6 = Saturday).
#[derive(Debug, Clone, Copy, PartialEq, Eq, Structural)]
pub struct GregorianDate {
    pub year: i32,
    pub month: u8,
    pub day: u8,
    pub weekday: u8,
}

/// Errors the engine can surface.
#[derive(Debug, Clone, Copy, PartialEq, Eq, Structural)]
pub enum EngineError {
    /// The supplied (year, month, day) is not a real date in its calendar.
    InvalidDate { year: i32, month: u8, day: u8 },
}

/// Gregorian leap-year rule.
pub open spec fn is_leap_year(y: int) -> bool {
    y % 4 == 0 && (y % 100 != 0 || y % 400 == 0)
}

/// Number of days in a Gregorian month (`m` in 1..=12).
pub open spec fn days_in_iso_month(y: int, m: int) -> int {
    if m == 2 {
        if is_leap_year(y) { 29 } else { 28 }
    } else if m == 4 || m == 6 || m == 9 || m == 11 {
        30
    } else {
        31
    }
}

/// The dates ICU4X accepts as ISO dates: years -9999..=9999 and a real
/// month and day.
pub open spec fn is_valid_iso_date(y: int, m: int, d: int) -> bool {
    &&& -9999 <= y <= 9999
    &&& 1 <= m <= 12
    &&& 1 <= d <= days_in_iso_month(y, m)
}

/// Days of the year that come before the first day of month `m`.
pub open spec fn days_before_iso_month(y: int, m: int) -> int {
    let common = if m == 1 { 0int }
        else if m == 2 { 31 }
        else if m == 3 { 59 }
        else if m == 4 { 90 }
        else if m == 5 { 120 }
        else if m == 6 { 151 }
        else if m == 7 { 181 }
        else if m == 8 { 212 }
        else if m == 9 { 243 }
        else if m == 10 { 273 }
        else if m == 11 { 304 }
        else { 334 };
    if m >= 3 && is_leap_year(y) { common + 1 } else { common }
}

/// The day count of a Gregorian date, day 1 being 0001-01-01 (a Monday).
pub open spec fn iso_day_number(y: int, m: int, d: int) -> int {
    365 * (y - 1) + (y - 1) / 4 - (y - 1) / 100 + (y - 1) / 400 + days_before_iso_month(y, m) + d
}

/// Weekday index of a Gregorian date, 0 = Sunday .. 6 = Saturday.
pub open spec fn iso_weekday(y: int, m: int, d: int) -> int {
    iso_day_number(y, m, d) % 7
}

/// The era year ICU4X reports for an extended Hijri year: years after the
/// Hijra count up in the AH era, the others count up backwards in the BH era.
pub open spec fn era_year_of(extended_year: int) -> int {
    if extended_year > 0 { extended_year } else { 1 - extended_year }
}

/// What ICU4X's Umm al-Qura calendar makes of an ISO date: the extended
/// year, the era year, the month and the day of the Hijri date that falls on
/// the same day, or `None` when ICU4X rejects the ISO date.
pub uninterp spec fn umm_al_qura_of_iso(year: i32, month: u8, day: u8) -> Option<(i32, i32, u8, u8)>;

/// What ICU4X makes of an Umm al-Qura date given by extended year, month and
/// day: the ISO year, month, day and weekday of the same day, or `None` when
/// ICU4X rejects the Hijri date.
pub uninterp spec fn iso_of_umm_al_qura(year: i32, month: u8, day: u8) -> Option<(i32, u8, u8, u8)>;

/// Calls ICU4X's `Date::try_new_iso` and converts the date with
/// `Date::to_calendar(Hijri::new_umm_al_qura())`, reading back `era_year()`,
/// `month().ordinal` and `day_of_month()`.
///
/// Trusted claims: ICU4X accepts exactly the valid ISO dates of years
/// -9999..=9999 (its `from_year_month_day` range checks); the result is the
/// named `umm_al_qura_of_iso`; the era year is derived from the extended
/// year as in ICU4X's `year_info`; Hijri months are 1..=12 and have at most
/// 30 days; the extended Hijri year is at most 9999 (the last ISO day ICU4X
/// accepts, 9999-12-31, falls in the Hijri year 9666, lunar years being
/// shorter); and converting the Hijri date back (when its extended year is
/// within the constructor range) yields the same ISO date, since both
/// conversions go through the same day number. The Hijri date itself
/// (the Umm al-Qura month lengths) is not stated.
#[verifier::external_body]
fn icu_iso_to_hijri(year: i32, month: u8, day: u8) -> (res: Option<(i32, i32, u8, u8)>)
    ensures
        res == umm_al_qura_of_iso(year, month, day),
        res is Some <==> is_valid_iso_date(year as int, month as int, day as int),
        res matches Some((ext, era, hm, hd)) ==> {
            &&& era as int == era_year_of(ext as int)
            &&& ext <= 9999
            &&& 1 <= hm <= 12
            &&& 1 <= hd <= 30
            &&& (-9999 <= ext <= 9999 ==> iso_of_umm_al_qura(ext, hm, hd) == Some(
                (year, month, day, iso_weekday(year as int, month as int, day as int) as u8),
            ))
        },
{
    match Date::try_new_iso(year, month, day) {
        Ok(iso) => {
            let h = iso.to_calendar(Hijri::new_umm_al_qura());
            let ey = h.era_year();
            Some((ey.extended_year, ey.year, h.month().ordinal, h.day_of_month().0))
        },
        Err(_) => None,
    }
}

/// Calls ICU4X's `Date::try_new_hijri_with_calendar` with the Umm al-Qura
/// rules, converts the date with `to_calendar(Iso)` and reads its weekday.
///
/// Trusted claims: the result is the named `iso_of_umm_al_qura`; ICU4X
/// accepts only years -9999..=9999, months 1..=12 and days 1..=30, and
/// accepts every such date with a day up to 29 (every Umm al-Qura month has
/// 29 or 30 days); the ISO result is a real Gregorian date whose weekday is
/// the one its day number gives; and converting that ISO date back (when its
/// year is within ICU4X's ISO range) yields the same Hijri date. Whether a
/// given month has a 30th day is not stated.
#[verifier::external_body]
fn icu_hijri_to_iso(year: i32, month: u8, day: u8) -> (res: Option<(i32, u8, u8, u8)>)
    ensures
        res == iso_of_umm_al_qura(year, month, day),
        res is Some ==> -9999 <= year <= 9999 && 1 <= month <= 12 && 1 <= day <= 30,
        (-9999 <= year <= 9999 && 1 <= month <= 12 && 1 <= day <= 29) ==> res is Some,
        res matches Some((gy, gm, gd, wd)) ==> {
            &&& 1 <= gm <= 12
            &&& 1 <= gd <= days_in_iso_month(gy as int, gm as int)
            &&& wd as int == iso_weekday(gy as int, gm as int, gd as int)
            &&& (-9999 <= gy <= 9999 ==> umm_al_qura_of_iso(gy, gm, gd) == Some(
                (year, era_year_of(year as int) as i32, month, day),
            ))
        },
{
    match Date::try_new_hijri_with_calendar(year, month, day, Hijri::new_umm_al_qura()) {
        Ok(h) => {
            let g = h.to_calendar(Iso);
            let wd: u8 = match g.weekday() {
                Weekday::Sunday => 0, Weekday::Monday => 1, Weekday::Tuesday => 2,
                Weekday::Wednesday => 3, Weekday::Thursday => 4, Weekday::Friday => 5,
                Weekday::Saturday => 6,
            };
            Some((g.era_year().year, g.month().ordinal, g.day_of_month().0, wd))
        },
        Err(_) => None,
    }
}

/// Calls ICU4X's `Date::try_new_iso` and reads the date's `weekday()`.
///
/// Trusted claims: ICU4X accepts exactly the valid ISO dates of years
/// -9999..=9999, and the weekday is the day number modulo 7 (day 0 being a
/// Sunday), which is how ICU4X computes it.
#[verifier::external_body]
fn icu_iso_weekday(year: i32, month: u8, day: u8) -> (res: Option<u8>)
    ensures
        res is Some <==> is_valid_iso_date(year as int, month as int, day as int),
        res matches Some(wd) ==> wd as int == iso_weekday(year as int, month as int, day as int),
{
    match Date::try_new_iso(year, month, day) {
        Ok(iso) => Some(match iso.weekday() {
            Weekday::Sunday => 0, Weekday::Monday => 1, Weekday::Tuesday => 2,
            Weekday::Wednesday => 3, Weekday::Thursday => 4, Weekday::Friday => 5,
            Weekday::Saturday => 6,
        }),
        Err(_) => None,
    }
}

/// The result of converting a Gregorian date to Umm al-Qura.
pub open spec fn spec_gregorian_to_hijri(year: i32, month: u8, day: u8) -> Result<HijriDate, EngineError> {
    match umm_al_qura_of_iso(year, month, day) {
        Some((_ext, era, hm, hd)) => Ok(HijriDate { year: era, month: hm, day: hd }),
        None => Err(EngineError::InvalidDate { year, month, day }),
    }
}

/// The result of converting an Umm al-Qura date to Gregorian.
pub open spec fn spec_hijri_to_gregorian(year: i32, month: u8, day: u8) -> Result<GregorianDate, EngineError> {
    match iso_of_umm_al_qura(year, month, day) {
        Some((gy, gm, gd, wd)) => Ok(GregorianDate { year: gy, month: gm, day: gd, weekday: wd }),
        None => Err(EngineError::InvalidDate { year, month, day }),
    }
}

/// Whether ICU4X places a Gregorian date in the era after the Hijra (AH).
pub open spec fn after_hijra(year: i32, month: u8, day: u8) -> bool {
    umm_al_qura_of_iso(year, month, day) matches Some((ext, _era, _m, _d)) && ext >= 1
}

/// Convert a Gregorian (ISO) date to Umm al-Qura Hijri.
///
/// Dates after the Hijra fall in Hijri years up to 9999, and converting the
/// result back gives the Gregorian date again.
pub fn gregorian_to_hijri(year: i32, month: u8, day: u8) -> (res: Result<HijriDate, EngineError>)
    ensures
        res == spec_gregorian_to_hijri(year, month, day),
        res is Ok <==> is_valid_iso_date(year as int, month as int, day as int),
        res matches Ok(h) ==> h.year >= 1 && 1 <= h.month <= 12 && 1 <= h.day <= 30,
        res matches Ok(h) ==> (after_hijra(year, month, day) ==> h.year <= 9999),
        res matches Ok(h) ==> (after_hijra(year, month, day) ==> spec_hijri_to_gregorian(
            h.year,
            h.month,
            h.day,
        ) == Ok::<GregorianDate, EngineError>(
            GregorianDate {
                year,
                month,
                day,
                weekday: iso_weekday(year as int, month as int, day as int) as u8,
            },
        )),
{
    match icu_iso_to_hijri(year, month, day) {
        Some((_ext, era, hm, hd)) => Ok(HijriDate { year: era, month: hm, day: hd }),
        None => Err(EngineError::InvalidDate { year, month, day }),
    }
}

/// Convert an Umm al-Qura Hijri date (year counted from the Hijra) to
/// Gregorian, with the weekday of the day.
///
/// Converting the result back gives the Hijri date again, for years from
/// the Hijra on whose Gregorian year ICU4X accepts (-9999..=9999).
pub fn hijri_to_gregorian(year: i32, month: u8, day: u8) -> (res: Result<GregorianDate, EngineError>)
    ensures
        res == spec_hijri_to_gregorian(year, month, day),
        res matches Ok(g) ==> (year >= 1 && -9999 <= g.year <= 9999 ==> spec_gregorian_to_hijri(
            g.year,
            g.month,
            g.day,
        ) == Ok::<HijriDate, EngineError>(HijriDate { year, month, day })),
        res is Ok ==> -9999 <= year <= 9999 && 1 <= month <= 12 && 1 <= day <= 30,
        (-9999 <= year <= 9999 && 1 <= month <= 12 && 1 <= day <= 29) ==> res is Ok,
        res matches Ok(g) ==> {
            &&& 1 <= g.month <= 12
            &&& 1 <= g.day <= days_in_iso_month(g.year as int, g.month as int)
            &&& g.weekday as int == iso_weekday(g.year as int, g.month as int, g.day as int)
            &&& g.weekday < 7
        },
{
    match icu_hijri_to_iso(year, month, day) {
        Some((gy, gm, gd, wd)) => Ok(GregorianDate { year: gy, month: gm, day: gd, weekday: wd }),
        None => Err(EngineError::InvalidDate { year, month, day }),
    }
}

/// Weekday index (0 = Sunday .. 6 = Saturday) of a Gregorian date.
pub fn gregorian_weekday(year: i32, month: u8, day: u8) -> (res: Result<u8, EngineError>)
    ensures
        res is Ok <==> is_valid_iso_date(year as int, month as int, day as int),
        res matches Ok(wd) ==> wd as int == iso_weekday(year as int, month as int, day as int),
        res matches Err(e) ==> e == (EngineError::InvalidDate { year, month, day }),
{
    match icu_iso_weekday(year, month, day) {
        Some(wd) => Ok(wd),
        None => Err(EngineError::InvalidDate { year, month, day }),
    }
}

} // verus!
