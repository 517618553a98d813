//! The decisions of the `hijri` command: argument parsing helpers, the
//! choice of conversion direction, and what each command answers.

use vstd::prelude::*;

use crate::engine::{
    after_hijra, gregorian_to_hijri, gregorian_weekday, hijri_to_gregorian, iso_weekday, is_valid_iso_date,
    spec_gregorian_to_hijri, spec_hijri_to_gregorian, EngineError, GregorianDate, HijriDate,
};
use crate::names::{lemma_month_number_in_range, lemma_numerals_name_no_month, month_number, month_number_of, normalized, Lang};
use crate::parse::{is_digit, lemma_decimal_digits, lemma_split_three, lemma_zero_padded_reads_back, parse_decimal, parse_i32, parse_u8, split_dash_chars, split_dashes};
use crate::render::{
    date_line, date_line_text, events_list, month_grid, spec_events_list, spec_month_grid,
    spec_year_grid, year_grid, push_ymd, ymd_text,
};
use crate::text::{chars_of, decimal, lemma_plain_concat, plain, push_str, string_from_chars, str_equals, zero_padded};

verus! {

/// What parsing "YYYY-MM-DD" gives: the three numbers, or the message for
/// the first piece that is wrong.
pub open spec fn spec_parse_ymd(s: Seq<char>) -> Result<(i32, u8, u8), Seq<char>> {
    let parts = split_dashes(s);
    if parts.len() != 3 {
        Err("expected YYYY-MM-DD, got '"@ + s + "'"@)
    } else {
        match parse_decimal(parts[0], i32::MIN as int, i32::MAX as int) {
            None => Err("bad year in '"@ + s + "'"@),
            Some(y) => match parse_decimal(parts[1], 0, 255) {
                None => Err("bad month in '"@ + s + "'"@),
                Some(m) => match parse_decimal(parts[2], 0, 255) {
                    None => Err("bad day in '"@ + s + "'"@),
                    Some(d) => Ok((y as i32, m as u8, d as u8)),
                },
            },
        }
    }
}

fn message(prefix: &str, s: &str, suffix: &str) -> (res: String)
    ensures
        res@ == prefix@ + s@ + suffix@,
{
    let mut out: Vec<char> = Vec::new();
    push_str(&mut out, prefix);
    push_str(&mut out, s);
    push_str(&mut out, suffix);
    string_from_chars(&out)
}

fn parse_piece_i32(p: &Vec<char>) -> (res: Option<i32>)
    ensures
        res matches Some(v) ==> parse_decimal(p@, i32::MIN as int, i32::MAX as int) == Some(v as int),
        res is None ==> parse_decimal(p@, i32::MIN as int, i32::MAX as int) is None,
{
    let s = string_from_chars(p);
    parse_i32(s.as_str())
}

fn parse_piece_u8(p: &Vec<char>) -> (res: Option<u8>)
    ensures
        res matches Some(v) ==> parse_decimal(p@, 0, 255) == Some(v as int),
        res is None ==> parse_decimal(p@, 0, 255) is None,
{
    let s = string_from_chars(p);
    parse_u8(s.as_str())
}

/// Parse "YYYY-MM-DD" into (year, month, day).
pub fn parse_ymd(s: &str) -> (res: Result<(i32, u8, u8), String>)
    ensures
        res matches Ok(t) ==> spec_parse_ymd(s@) == Ok::<(i32, u8, u8), Seq<char>>(t),
        res matches Err(m) ==> spec_parse_ymd(s@) == Err::<(i32, u8, u8), Seq<char>>(m@),
{
    let cs = chars_of(s);
    let parts = split_dash_chars(&cs);
    let ghost pv = parts@.map_values(|v: Vec<char>| v@);
    if parts.len() != 3 {
        return Err(message("expected YYYY-MM-DD, got '", s, "'"));
    }
    assert(pv[0] == parts[0]@ && pv[1] == parts[1]@ && pv[2] == parts[2]@);
    let y = match parse_piece_i32(&parts[0]) {
        Some(y) => y,
        None => return Err(message("bad year in '", s, "'")),
    };
    let m = match parse_piece_u8(&parts[1]) {
        Some(m) => m,
        None => return Err(message("bad month in '", s, "'")),
    };
    let d = match parse_piece_u8(&parts[2]) {
        Some(d) => d,
        None => return Err(message("bad day in '", s, "'")),
    };
    Ok((y, m, d))
}

/// Reading back the `YYYY-MM-DD` text that date lines and error messages
/// print gives the same date, for years that are not negative (a negative
/// year adds a dash of its own).
pub proof fn lemma_parse_ymd_reads_ymd_text(y: i32, m: u8, d: u8)
    requires
        y >= 0,
    ensures
        spec_parse_ymd(ymd_text(y as int, m as int, d as int)) == Ok::<(i32, u8, u8), Seq<char>>((y, m, d)),
{
    let a = zero_padded(y as int, 4);
    let b = zero_padded(m as int, 2);
    let c = zero_padded(d as int, 2);
    lemma_zero_padded_reads_back(y as int, 4, i32::MIN as int, i32::MAX as int);
    lemma_zero_padded_reads_back(m as int, 2, 0, 255);
    lemma_zero_padded_reads_back(d as int, 2, 0, 255);
    lemma_split_three(a, b, c);
    assert(ymd_text(y as int, m as int, d as int) == a + seq!['-'] + b + seq!['-'] + c);
}

/// The language a `--lang` value selects: Arabic for "ar", else English.
pub open spec fn spec_parse_lang(s: Seq<char>) -> Lang {
    if s == "ar"@ { Lang::Ar } else { Lang::En }
}

/// Map a `--lang` value to a [`Lang`]: "ar" is Arabic, anything else English.
pub fn parse_lang(s: &str) -> (res: Lang)
    ensures
        res == spec_parse_lang(s@),
{
    if str_equals(s, "ar") {
        Lang::Ar
    } else {
        Lang::En
    }
}

/// A month given as a name, or as a number 1..=12.
pub open spec fn spec_parse_month(s: Seq<char>) -> Result<u8, Seq<char>> {
    match month_number_of(normalized(s)) {
        Some(m) => Ok(m),
        None => match parse_decimal(s, 0, 255) {
            Some(m) => if 1 <= m <= 12 {
                Ok(m as u8)
            } else {
                Err("'"@ + s + "' is not a month name or number (1-12)"@)
            },
            None => Err("'"@ + s + "' is not a month name or number (1-12)"@),
        },
    }
}

/// Parse a month given as a name (e.g. "ramadan", "muh") or a 1..=12 number.
pub fn parse_month(s: &str) -> (res: Result<u8, String>)
    ensures
        res matches Ok(m) ==> spec_parse_month(s@) == Ok::<u8, Seq<char>>(m),
        res matches Err(e) ==> spec_parse_month(s@) == Err::<u8, Seq<char>>(e@),
        res matches Ok(m) ==> 1 <= m <= 12,
{
    if let Some(m) = month_number(s) {
        return Ok(m);
    }
    match parse_u8(s) {
        Some(m) => {
            if 1 <= m && m <= 12 {
                Ok(m)
            } else {
                Err(message("'", s, "' is not a month name or number (1-12)"))
            }
        },
        None => Err(message("'", s, "' is not a month name or number (1-12)")),
    }
}

/// Which way a date is converted.
#[derive(Debug, Clone, Copy, PartialEq, Eq, Structural)]
pub enum Direction {
    FromGregorian,
    FromHijri,
}

/// A `--from`/`--to` calendar name: `true` for "hijri", `false` for
/// "gregorian", otherwise the message naming the flag.
pub open spec fn spec_parse_calendar(which: Seq<char>, value: Seq<char>) -> Result<bool, Seq<char>> {
    if value == "hijri"@ {
        Ok(true)
    } else if value == "gregorian"@ {
        Ok(false)
    } else {
        Err("invalid --"@ + which + " value '"@ + value + "' (expected 'gregorian' or 'hijri')"@)
    }
}

/// Validate a `--from`/`--to` calendar name, returning an error on anything
/// other than "gregorian" or "hijri".
pub fn parse_calendar(which: &str, value: &str) -> (res: Result<bool, String>)
    ensures
        res matches Ok(b) ==> spec_parse_calendar(which@, value@) == Ok::<bool, Seq<char>>(b),
        res matches Err(e) ==> spec_parse_calendar(which@, value@) == Err::<bool, Seq<char>>(e@),
{
    if str_equals(value, "hijri") {
        Ok(true)
    } else if str_equals(value, "gregorian") {
        Ok(false)
    } else {
        let mut out: Vec<char> = Vec::new();
        push_str(&mut out, "invalid --");
        push_str(&mut out, which);
        push_str(&mut out, " value '");
        push_str(&mut out, value);
        push_str(&mut out, "' (expected 'gregorian' or 'hijri')");
        assert(out@ =~= "invalid --"@ + which@ + " value '"@ + value@ + "' (expected 'gregorian' or 'hijri')"@);
        Err(string_from_chars(&out))
    }
}

/// The conversion direction: an explicit `--from` wins, then `--to`;
/// otherwise a year of 1700 or later is Gregorian, else Hijri.
pub open spec fn spec_resolve_direction(year: i32, from: Option<Seq<char>>, to: Option<Seq<char>>) -> Result<Direction, Seq<char>> {
    match from {
        Some(f) => match spec_parse_calendar("from"@, f) {
            Ok(true) => Ok(Direction::FromHijri),
            Ok(false) => Ok(Direction::FromGregorian),
            Err(e) => Err(e),
        },
        None => match to {
            Some(t) => match spec_parse_calendar("to"@, t) {
                Ok(true) => Ok(Direction::FromGregorian),
                Ok(false) => Ok(Direction::FromHijri),
                Err(e) => Err(e),
            },
            None => if year >= 1700 { Ok(Direction::FromGregorian) } else { Ok(Direction::FromHijri) },
        },
    }
}

/// The view of an optional text argument.
pub open spec fn opt_view(o: Option<&str>) -> Option<Seq<char>> {
    match o {
        Some(s) => Some(s@),
        None => None,
    }
}

/// Decide conversion direction. Explicit --from/--to win (and are validated);
/// otherwise a year >= 1700 is treated as Gregorian, else Hijri.
pub fn resolve_direction(year: i32, from: Option<&str>, to: Option<&str>) -> (res: Result<Direction, String>)
    ensures
        res matches Ok(d) ==> spec_resolve_direction(year, opt_view(from), opt_view(to)) == Ok::<Direction, Seq<char>>(d),
        res matches Err(e) ==> spec_resolve_direction(year, opt_view(from), opt_view(to)) == Err::<Direction, Seq<char>>(e@),
{
    if let Some(f) = from {
        let hijri = parse_calendar("from", f)?;
        return Ok(if hijri { Direction::FromHijri } else { Direction::FromGregorian });
    }
    if let Some(t) = to {
        let hijri = parse_calendar("to", t)?;
        return Ok(if hijri { Direction::FromGregorian } else { Direction::FromHijri });
    }
    Ok(if year >= 1700 { Direction::FromGregorian } else { Direction::FromHijri })
}

/// The user-facing message for an engine error.
pub open spec fn engine_error_text(e: EngineError) -> Seq<char> {
    match e {
        EngineError::InvalidDate { year, month, day } => "invalid date "@ + ymd_text(year as int, month as int, day as int),
    }
}

/// The user-facing message for an engine error, e.g. `invalid date 2026-13-99`.
pub fn fmt_engine_err(e: EngineError) -> (res: String)
    ensures
        res@ == engine_error_text(e),
{
    match e {
        EngineError::InvalidDate { year, month, day } => {
            let mut out: Vec<char> = Vec::new();
            push_str(&mut out, "invalid date ");
            push_ymd(&mut out, year, month, day);
            string_from_chars(&out)
        },
    }
}

/// The Hijri date and the Gregorian date (with weekday) of a Gregorian date.
pub open spec fn spec_both_from_gregorian(y: i32, m: u8, d: u8) -> Result<(HijriDate, GregorianDate), EngineError> {
    match spec_gregorian_to_hijri(y, m, d) {
        Ok(h) => Ok((h, GregorianDate { year: y, month: m, day: d, weekday: iso_weekday(y as int, m as int, d as int) as u8 })),
        Err(e) => Err(e),
    }
}

/// Resolve a Hijri date + matching Gregorian date for output.
pub fn both_from_gregorian(y: i32, m: u8, d: u8) -> (res: Result<(HijriDate, GregorianDate), EngineError>)
    ensures
        res == spec_both_from_gregorian(y, m, d),
        res is Ok <==> is_valid_iso_date(y as int, m as int, d as int),
        res matches Ok((h, g)) ==> 1 <= h.month <= 12 && g.weekday < 7,
{
    let h = gregorian_to_hijri(y, m, d)?;
    let weekday = gregorian_weekday(y, m, d)?;
    Ok((h, GregorianDate { year: y, month: m, day: d, weekday }))
}

/// The given Hijri date and the Gregorian date it falls on.
pub open spec fn spec_both_from_hijri(y: i32, m: u8, d: u8) -> Result<(HijriDate, GregorianDate), EngineError> {
    match spec_hijri_to_gregorian(y, m, d) {
        Ok(g) => Ok((HijriDate { year: y, month: m, day: d }, g)),
        Err(e) => Err(e),
    }
}

/// Resolve a Gregorian date + the given Hijri date for output.
pub fn both_from_hijri(y: i32, m: u8, d: u8) -> (res: Result<(HijriDate, GregorianDate), EngineError>)
    ensures
        res == spec_both_from_hijri(y, m, d),
        res matches Ok((h, g)) ==> 1 <= h.month <= 12 && g.weekday < 7,
        res matches Ok((h, g)) ==> h == (HijriDate { year: y, month: m, day: d }) && spec_hijri_to_gregorian(
            y,
            m,
            d,
        ) == Ok::<GregorianDate, EngineError>(g),
{
    let g = hijri_to_gregorian(y, m, d)?;
    Ok((HijriDate { year: y, month: m, day: d }, g))
}

/// Both conversions answer the date they were given, paired with the date
/// of the other calendar that it converts to: from Hijri, the Hijri date
/// is the one given and the Gregorian date is its conversion; from
/// Gregorian, the Gregorian date is the one given, with its weekday, and
/// the Hijri date is its conversion. Each succeeds exactly when its
/// conversion does.
pub proof fn lemma_conversions_answer_the_given_date(y: i32, m: u8, d: u8)
    ensures
        spec_both_from_hijri(y, m, d) is Ok <==> spec_hijri_to_gregorian(y, m, d) is Ok,
        spec_both_from_hijri(y, m, d) matches Ok((h, g)) ==> h.year == y && h.month == m && h.day == d
            && spec_hijri_to_gregorian(h.year, h.month, h.day) == Ok::<GregorianDate, EngineError>(g),
        spec_both_from_gregorian(y, m, d) is Ok <==> spec_gregorian_to_hijri(y, m, d) is Ok,
        spec_both_from_gregorian(y, m, d) matches Ok((h, g)) ==> g.year == y && g.month == m && g.day == d
            && g.weekday == iso_weekday(y as int, m as int, d as int) as u8
            && spec_gregorian_to_hijri(g.year, g.month, g.day) == Ok::<HijriDate, EngineError>(h),
{
}

/// A bare month name shows that month of the current Hijri year: the same
/// calendar as naming the month together with today's Hijri year.
pub proof fn lemma_bare_month_is_this_hijri_year(
    a: Seq<char>,
    today: (i32, u8, u8),
    lang: Lang,
    color: bool,
    h: HijriDate,
)
    requires
        month_number_of(normalized(a)) is Some,
        spec_gregorian_to_hijri(today.0, today.1, today.2) == Ok::<HijriDate, EngineError>(h),
        h.year >= 0,
    ensures
        spec_calendar_text(Some(a), None, today, lang, color) == spec_calendar_text(
            Some(a),
            Some(decimal(h.year as nat)),
            today,
            lang,
            color,
        ),
{
    crate::parse::lemma_zero_padded_reads_back(h.year as int, 0, i32::MIN as int, i32::MAX as int);
    assert(zero_padded(h.year as int, 0) == decimal(h.year as nat));
}

} // verus!

verus! {

/// The command-line arguments of `hijri`.
pub struct Cli {
    /// The subcommand, if any.
    pub command: Option<Command>,
    /// Shortcut: a bare Hijri year (e.g. `hijri 1448`) shows that whole year;
    /// a bare month name (e.g. `hijri ramadan`) shows that month of this year.
    pub target: Option<String>,
    /// Conversion method (only umm-al-qura is supported).
    pub method: String,
    /// Output as JSON.
    pub json: bool,
    /// Name language: en (transliteration) or ar (Arabic script).
    pub lang: String,
    /// Disable colored output (also auto-disabled when not writing to a terminal).
    pub no_color: bool,
}

/// The subcommands of `hijri`.
pub enum Command {
    /// Show today's Hijri date (default when no subcommand).
    Today,
    /// Show a Hijri calendar. No args: current month. One arg: a year (whole-year
    /// grid) or a month name (that month this year). Two args: <month> <year>.
    Cal { first: Option<String>, second: Option<String> },
    /// Convert a date (Gregorian <-> Hijri, auto-detected).
    Convert { date: String, from: Option<String>, to: Option<String> },
    /// List major Islamic events for a Hijri year.
    Events { year: Option<i32> },
}

/// What `hijri` writes to standard output on success.
pub enum Reply {
    /// Text to print as it is.
    Print(String),
    /// A date to print as JSON.
    Json { hijri: HijriDate, gregorian: GregorianDate, lang: Lang },
}

/// The content of a [`Reply`].
pub enum Outcome {
    Print(Seq<char>),
    Json(HijriDate, GregorianDate, Lang),
}

/// The content of a reply.
pub open spec fn reply_view(r: Reply) -> Outcome {
    match r {
        Reply::Print(s) => Outcome::Print(s@),
        Reply::Json { hijri, gregorian, lang } => Outcome::Json(hijri, gregorian, lang),
    }
}

/// The view of an optional string.
pub open spec fn opt_string_view(o: Option<String>) -> Option<Seq<char>> {
    match o {
        Some(s) => Some(s@),
        None => None,
    }
}

/// A rendering result with engine errors turned into messages.
pub open spec fn with_message(r: Result<Seq<char>, EngineError>) -> Result<Seq<char>, Seq<char>> {
    match r {
        Ok(t) => Ok(t),
        Err(e) => Err(engine_error_text(e)),
    }
}

/// The calendar view for `cal`, mirroring `cal`'s argument rules: no
/// argument is this Hijri month, one month name is that month this year, one
/// number is that whole year, and two arguments are `<month> <year>`.
pub open spec fn spec_calendar_text(
    first: Option<Seq<char>>,
    second: Option<Seq<char>>,
    today: (i32, u8, u8),
    lang: Lang,
    color: bool,
) -> Result<Seq<char>, Seq<char>> {
    match spec_gregorian_to_hijri(today.0, today.1, today.2) {
        Err(e) => Err(engine_error_text(e)),
        Ok(h) => {
            let tt = Some((h.year, h.month, h.day));
            match first {
                None => with_message(spec_month_grid(h.year, h.month, tt, lang, color)),
                Some(a) => match second {
                    None => match month_number_of(normalized(a)) {
                        Some(m) => with_message(spec_month_grid(h.year, m, tt, lang, color)),
                        None => match parse_decimal(a, i32::MIN as int, i32::MAX as int) {
                            Some(y) => with_message(spec_year_grid(y as i32, tt, lang, color)),
                            None => Err("'"@ + a + "' is not a month name or year"@),
                        },
                    },
                    Some(b) => match spec_parse_month(a) {
                        Err(e) => Err(e),
                        Ok(m) => match parse_decimal(b, i32::MIN as int, i32::MAX as int) {
                            None => Err("invalid year '"@ + b + "'"@),
                            Some(y) => with_message(spec_month_grid(y as i32, m, tt, lang, color)),
                        },
                    },
                },
            }
        },
    }
}

/// A month given by its number reads as that month.
pub proof fn lemma_parse_month_number(m: u8)
    requires
        1 <= m <= 12,
    ensures
        spec_parse_month(decimal(m as nat)) == Ok::<u8, Seq<char>>(m),
{
    let d = decimal(m as nat);
    lemma_decimal_digits(m as nat);
    lemma_numerals_name_no_month(d);
    assert(is_digit(d[0]));
}

/// `cal <month> <year>` shows the same calendar whether the month is given
/// by a name or by its number.
pub proof fn lemma_month_name_or_number(
    a: Seq<char>,
    b: Seq<char>,
    m: u8,
    today: (i32, u8, u8),
    lang: Lang,
    color: bool,
)
    requires
        month_number_of(normalized(a)) == Some(m),
    ensures
        spec_calendar_text(Some(a), Some(b), today, lang, color) == spec_calendar_text(
            Some(decimal(m as nat)),
            Some(b),
            today,
            lang,
            color,
        ),
{
    lemma_month_number_in_range(normalized(a));
    lemma_parse_month_number(m);
}

fn grid_or_message(r: Result<String, EngineError>) -> (res: Result<String, String>)
    ensures
        res matches Ok(t) ==> r matches Ok(u) && t@ == u@,
        res matches Err(m) ==> r matches Err(e) && m@ == engine_error_text(e),
{
    match r {
        Ok(t) => Ok(t),
        Err(e) => Err(fmt_engine_err(e)),
    }
}

/// Render a calendar, mirroring `cal`'s argument rules:
/// - no args        → current Hijri month
/// - one number     → whole-year grid for that Hijri year
/// - one month name → that month of the current Hijri year
/// - two args       → <month (name or number)> <year>
/// `today` is today's Gregorian date; it picks the current month and year and
/// the day to highlight.
pub fn calendar_text(
    first: Option<&str>,
    second: Option<&str>,
    today: (i32, u8, u8),
    lang: Lang,
    color: bool,
) -> (res: Result<String, String>)
    ensures
        res matches Ok(t) ==> spec_calendar_text(opt_view(first), opt_view(second), today, lang, color) == Ok::<
            Seq<char>,
            Seq<char>,
        >(t@),
        res matches Err(m) ==> spec_calendar_text(opt_view(first), opt_view(second), today, lang, color) == Err::<
            Seq<char>,
            Seq<char>,
        >(m@),
        res matches Ok(t) ==> (!color ==> plain(t@)),
        (second is None && is_valid_iso_date(today.0 as int, today.1 as int, today.2 as int) && after_hijra(
            today.0,
            today.1,
            today.2,
        ) && (first matches Some(a) ==> month_number_of(normalized(a@)) is Some)) ==> res is Ok,
{
    let (ty, tm, td) = today;
    let today_h = match gregorian_to_hijri(ty, tm, td) {
        Ok(h) => h,
        Err(e) => return Err(fmt_engine_err(e)),
    };
    let today_tuple = Some((today_h.year, today_h.month, today_h.day));
    match first {
        None => grid_or_message(month_grid(today_h.year, today_h.month, today_tuple, lang, color)),
        Some(a) => match second {
            None => {
                if let Some(m) = month_number(a) {
                    grid_or_message(month_grid(today_h.year, m, today_tuple, lang, color))
                } else if let Some(y) = parse_i32(a) {
                    grid_or_message(year_grid(y, today_tuple, lang, color))
                } else {
                    Err(message("'", a, "' is not a month name or year"))
                }
            },
            Some(b) => {
                let m = parse_month(a)?;
                let y = match parse_i32(b) {
                    Some(y) => y,
                    None => return Err(message("invalid year '", b, "'")),
                };
                grid_or_message(month_grid(y, m, today_tuple, lang, color))
            },
        },
    }
}

/// How a converted or looked-up date is answered: as JSON, or as the
/// one-line view followed by a line break.
pub open spec fn date_outcome(h: HijriDate, g: GregorianDate, lang: Lang, as_json: bool) -> Outcome {
    if as_json {
        Outcome::Json(h, g, lang)
    } else {
        Outcome::Print(date_line_text(h, g, lang) + seq!['\n'])
    }
}

/// A pair of dates answered as `date_outcome`, or the engine error's message.
pub open spec fn dates_outcome(
    r: Result<(HijriDate, GregorianDate), EngineError>,
    lang: Lang,
    as_json: bool,
) -> Result<Outcome, Seq<char>> {
    match r {
        Ok((h, g)) => Ok(date_outcome(h, g, lang, as_json)),
        Err(e) => Err(engine_error_text(e)),
    }
}

/// What `hijri` answers, given today's Gregorian date and whether standard
/// output is a terminal: the method must be umm-al-qura; a bare positional
/// argument is shorthand for `cal`, and no command at all means `today`.
pub open spec fn spec_respond(cli: Cli, today: (i32, u8, u8), stdout_is_terminal: bool) -> Result<Outcome, Seq<char>> {
    if cli.method@ != "umm-al-qura"@ {
        Err("unsupported method '"@ + cli.method@ + "' (only 'umm-al-qura')"@)
    } else {
        let lang = spec_parse_lang(cli.lang@);
        let color = !cli.no_color && stdout_is_terminal;
        let command = match cli.command {
            Some(c) => c,
            None => match cli.target {
                Some(t) => Command::Cal { first: Some(t), second: None },
                None => Command::Today,
            },
        };
        match command {
            Command::Today => dates_outcome(spec_both_from_gregorian(today.0, today.1, today.2), lang, cli.json),
            Command::Cal { first, second } => match spec_calendar_text(
                opt_string_view(first),
                opt_string_view(second),
                today,
                lang,
                color,
            ) {
                Ok(t) => Ok(Outcome::Print(t)),
                Err(e) => Err(e),
            },
            Command::Convert { date, from, to } => match spec_parse_ymd(date@) {
                Err(e) => Err(e),
                Ok((y, m, d)) => match spec_resolve_direction(y, opt_string_view(from), opt_string_view(to)) {
                    Err(e) => Err(e),
                    Ok(Direction::FromGregorian) => dates_outcome(spec_both_from_gregorian(y, m, d), lang, cli.json),
                    Ok(Direction::FromHijri) => dates_outcome(spec_both_from_hijri(y, m, d), lang, cli.json),
                },
            },
            Command::Events { year } => {
                let y = match year {
                    Some(y) => Ok(y),
                    None => match spec_gregorian_to_hijri(today.0, today.1, today.2) {
                        Ok(h) => Ok(h.year),
                        Err(e) => Err(engine_error_text(e)),
                    },
                };
                match y {
                    Err(e) => Err(e),
                    Ok(y) => match with_message(spec_events_list(y, lang)) {
                        Ok(t) => Ok(Outcome::Print(t)),
                        Err(e) => Err(e),
                    },
                }
            },
        }
    }
}

fn as_str_opt(o: &Option<String>) -> (res: Option<&str>)
    ensures
        opt_view(res) == opt_string_view(*o),
{
    match o {
        Some(s) => Some(s.as_str()),
        None => None,
    }
}

fn answer_dates(
    r: Result<(HijriDate, GregorianDate), EngineError>,
    lang: Lang,
    as_json: bool,
) -> (res: Result<Reply, String>)
    requires
        r matches Ok((h, g)) ==> 1 <= h.month <= 12 && g.weekday < 7,
    ensures
        res matches Ok(rep) ==> dates_outcome(r, lang, as_json) == Ok::<Outcome, Seq<char>>(reply_view(rep)),
        res matches Err(m) ==> dates_outcome(r, lang, as_json) == Err::<Outcome, Seq<char>>(m@),
        res matches Ok(Reply::Print(t)) ==> plain(t@),
{
    match r {
        Ok((h, g)) => {
            if as_json {
                Ok(Reply::Json { hijri: h, gregorian: g, lang })
            } else {
                let line = date_line(&h, &g, lang);
                let mut out = chars_of(line.as_str());
                out.push('\n');
                assert(out@ =~= date_line_text(h, g, lang) + seq!['\n']);
                proof {
                    assert(plain(seq!['\n']));
                    lemma_plain_concat(line@, seq!['\n']);
                }
                Ok(Reply::Print(string_from_chars(&out)))
            }
        },
        Err(e) => Err(fmt_engine_err(e)),
    }
}

/// Decide what `hijri` answers. `today` is today's Gregorian date and
/// `stdout_is_terminal` says whether color may be used. Returns the
/// user-facing message for any failure.
pub fn respond(cli: Cli, today: (i32, u8, u8), stdout_is_terminal: bool) -> (res: Result<Reply, String>)
    ensures
        res matches Ok(rep) ==> spec_respond(cli, today, stdout_is_terminal) == Ok::<Outcome, Seq<char>>(reply_view(rep)),
        res matches Err(m) ==> spec_respond(cli, today, stdout_is_terminal) == Err::<Outcome, Seq<char>>(m@),
        res matches Ok(Reply::Print(t)) ==> (cli.no_color || !stdout_is_terminal ==> plain(t@)),
{
    if !str_equals(cli.method.as_str(), "umm-al-qura") {
        return Err(message("unsupported method '", cli.method.as_str(), "' (only 'umm-al-qura')"));
    }
    let lang = parse_lang(cli.lang.as_str());
    let color = !cli.no_color && stdout_is_terminal;
    let as_json = cli.json;
    let command = match cli.command {
        Some(cmd) => cmd,
        None => match cli.target {
            Some(t) => Command::Cal { first: Some(t), second: None },
            None => Command::Today,
        },
    };
    match command {
        Command::Today => {
            let (ty, tm, td) = today;
            answer_dates(both_from_gregorian(ty, tm, td), lang, as_json)
        },
        Command::Cal { first, second } => {
            let text = calendar_text(as_str_opt(&first), as_str_opt(&second), today, lang, color)?;
            Ok(Reply::Print(text))
        },
        Command::Convert { date, from, to } => {
            let (y, m, d) = parse_ymd(date.as_str())?;
            let direction = resolve_direction(y, as_str_opt(&from), as_str_opt(&to))?;
            match direction {
                Direction::FromGregorian => answer_dates(both_from_gregorian(y, m, d), lang, as_json),
                Direction::FromHijri => answer_dates(both_from_hijri(y, m, d), lang, as_json),
            }
        },
        Command::Events { year } => {
            let y = match year {
                Some(y) => y,
                None => {
                    let (ty, tm, td) = today;
                    match gregorian_to_hijri(ty, tm, td) {
                        Ok(h) => h.year,
                        Err(e) => return Err(fmt_engine_err(e)),
                    }
                },
            };
            match events_list(y, lang) {
                Ok(t) => Ok(Reply::Print(t)),
                Err(e) => Err(fmt_engine_err(e)),
            }
        },
    }
}

} // verus!
