//! Human-readable output: the one-line date view, the `cal`-style month and
//! year grids, and the list of events of a year.

use vstd::prelude::*;

use crate::engine::{
    hijri_to_gregorian, spec_hijri_to_gregorian, EngineError, GregorianDate, HijriDate,
};
use crate::events::{event_table, events, events_in_month, events_of_month, Event};
use crate::names::{month_name, spec_month_name, spec_weekday_abbr, spec_weekday_name, weekday_abbr, weekday_name, Lang};
use crate::text::{lemma_plain_concat, plain, chars_of, decimal, int_text, pad_left, pad_right, push_chars, push_decimal, push_int, push_pad_left, push_pad_right, push_repeat, push_str, push_zero_padded, repeat_char, string_from_chars, zero_padded, decimal_chars};

verus! {

/// Visual width of one month block (7 cells of 2 chars + 6 single-space gaps).
pub const COLW: usize = 20;

/// ANSI escape character.
pub open spec fn esc() -> char {
    '\x1b'
}

/// Whether an ANSI escape sequence is still open after reading `s`.
pub open spec fn in_escape_after(s: Seq<char>) -> bool
    decreases s.len(),
{
    if s.len() == 0 {
        false
    } else if in_escape_after(s.drop_last()) {
        s.last() != 'm'
    } else {
        s.last() == esc()
    }
}

/// Number of visible characters of `s`: escape sequences (from `ESC` up to
/// and including the next `m`) take no room.
pub open spec fn visible_width(s: Seq<char>) -> nat
    decreases s.len(),
{
    if s.len() == 0 {
        0
    } else if in_escape_after(s.drop_last()) || s.last() == esc() {
        visible_width(s.drop_last())
    } else {
        visible_width(s.drop_last()) + 1
    }
}

/// `s` right-padded with spaces to `width` visible columns.
pub open spec fn padded_to(s: Seq<char>, width: nat) -> Seq<char> {
    if visible_width(s) >= width {
        s
    } else {
        s + repeat_char(' ', (width - visible_width(s)) as nat)
    }
}

/// `s` without its trailing spaces.
pub open spec fn trim_trailing_spaces(s: Seq<char>) -> Seq<char>
    decreases s.len(),
{
    if s.len() > 0 && s.last() == ' ' {
        trim_trailing_spaces(s.drop_last())
    } else {
        s
    }
}

fn width_of_chars(s: &Vec<char>) -> (res: usize)
    ensures
        res == visible_width(s@),
{
    let mut w: usize = 0;
    let mut in_esc = false;
    let mut i: usize = 0;
    while i < s.len()
        invariant
            0 <= i <= s.len(),
            w == visible_width(s@.take(i as int)),
            in_esc == in_escape_after(s@.take(i as int)),
            w <= i,
        decreases s.len() - i,
    {
        let c = s[i];
        proof {
            assert(s@.take(i + 1).drop_last() =~= s@.take(i as int));
            assert(s@.take(i + 1).last() == c);
        }
        if in_esc {
            if c == 'm' {
                in_esc = false;
            }
        } else if c == '\x1b' {
            in_esc = true;
        } else {
            w = w + 1;
        }
        i = i + 1;
    }
    assert(s@.take(i as int) =~= s@);
    w
}

/// Display width of `s`, ignoring ANSI CSI escape sequences (so a reverse-video
/// cell still measures as its visible characters). Counts Unicode scalars,
/// which equals column width for the ASCII digits/spaces used in the grid.
pub fn display_width(s: &str) -> (res: usize)
    ensures
        res == visible_width(s@),
{
    let v = chars_of(s);
    width_of_chars(&v)
}

fn pad_chars(s: &Vec<char>, width: usize) -> (res: Vec<char>)
    ensures
        res@ == padded_to(s@, width as nat),
{
    let w = width_of_chars(s);
    let mut out: Vec<char> = Vec::new();
    push_chars(&mut out, s);
    if w < width {
        push_repeat(&mut out, ' ', width - w);
    }
    out
}

/// Right-pad `s` with spaces to `width` visible columns (ANSI-aware).
pub fn pad_to(s: &str, width: usize) -> (res: String)
    ensures
        res@ == padded_to(s@, width as nat),
{
    let v = chars_of(s);
    let p = pad_chars(&v, width);
    string_from_chars(&p)
}

fn trim_chars(s: &Vec<char>) -> (res: Vec<char>)
    ensures
        res@ == trim_trailing_spaces(s@),
{
    let mut n: usize = s.len();
    assert(s@.take(s.len() as int) =~= s@);
    while n > 0 && s[n - 1] == ' '
        invariant
            0 <= n <= s.len(),
            trim_trailing_spaces(s@) == trim_trailing_spaces(s@.take(n as int)),
        decreases n,
    {
        proof {
            assert(s@.take(n as int).drop_last() =~= s@.take(n - 1));
        }
        n = n - 1;
    }
    let mut out: Vec<char> = Vec::new();
    let mut i: usize = 0;
    while i < n
        invariant
            0 <= i <= n <= s.len(),
            out@ == s@.take(i as int),
        decreases n - i,
    {
        out.push(s[i]);
        i = i + 1;
        assert(out@ =~= s@.take(i as int));
    }
    out
}

/// `{:04}-{:02}-{:02}` of a date.
pub open spec fn ymd_text(y: int, m: int, d: int) -> Seq<char> {
    zero_padded(y, 4) + seq!['-'] + zero_padded(m, 2) + seq!['-'] + zero_padded(d, 2)
}

/// Appends `ymd_text` of a date.
pub fn push_ymd(out: &mut Vec<char>, y: i32, m: u8, d: u8)
    ensures
        final(out)@ == old(out)@ + ymd_text(y as int, m as int, d as int),
{
    let ghost start = out@;
    push_zero_padded(out, y, 4);
    out.push('-');
    push_zero_padded(out, m as i32, 2);
    out.push('-');
    push_zero_padded(out, d as i32, 2);
    assert(out@ =~= start + ymd_text(y as int, m as int, d as int));
}

/// The one-line date view, e.g. `3 Muḥarram 1448 AH  (Thu, 2026-06-18)`.
pub open spec fn date_line_text(h: HijriDate, g: GregorianDate, lang: Lang) -> Seq<char> {
    decimal(h.day as nat) + seq![' '] + spec_month_name(h.month as int, lang) + seq![' ']
        + int_text(h.year as int) + " AH  ("@ + spec_weekday_name(g.weekday as int).take(3)
        + ", "@ + ymd_text(g.year as int, g.month as int, g.day as int) + ")"@
}

/// Format the one-line "today / converted date" view, e.g.
/// `3 Muḥarram 1448 AH  (Thu, 2026-06-18)`.
pub fn date_line(h: &HijriDate, g: &GregorianDate, lang: Lang) -> (res: String)
    requires
        1 <= h.month <= 12,
        g.weekday < 7,
    ensures
        res@ == date_line_text(*h, *g, lang),
        plain(res@),
{
    proof {
        lemma_date_line_plain(*h, *g, lang);
    }
    let mut out: Vec<char> = Vec::new();
    push_decimal(&mut out, h.day as u32);
    out.push(' ');
    push_str(&mut out, month_name(h.month, lang));
    out.push(' ');
    push_int(&mut out, h.year);
    push_str(&mut out, " AH  (");
    let wd = chars_of(weekday_name(g.weekday));
    proof {
        reveal_strlit("Sunday");
        reveal_strlit("Monday");
        reveal_strlit("Tuesday");
        reveal_strlit("Wednesday");
        reveal_strlit("Thursday");
        reveal_strlit("Friday");
        reveal_strlit("Saturday");
    }
    let mut k: usize = 0;
    while k < 3
        invariant
            0 <= k <= 3,
            wd@.len() >= 3,
            wd@ == spec_weekday_name(g.weekday as int),
            out@ == decimal(h.day as nat) + seq![' '] + spec_month_name(h.month as int, lang) + seq![' ']
                + int_text(h.year as int) + " AH  ("@ + wd@.take(k as int),
        decreases 3 - k,
    {
        out.push(wd[k]);
        k = k + 1;
        assert(out@ =~= decimal(h.day as nat) + seq![' '] + spec_month_name(h.month as int, lang) + seq![' ']
                + int_text(h.year as int) + " AH  ("@ + wd@.take(k as int));
    }
    push_str(&mut out, ", ");
    push_ymd(&mut out, g.year, g.month, g.day);
    push_str(&mut out, ")");
    assert(out@ =~= date_line_text(*h, *g, lang));
    string_from_chars(&out)
}


/// Days in a Hijri month as ICU4X reports them: 30 when the 30th converts,
/// otherwise 29.
pub open spec fn spec_days_in_hijri_month(year: i32, month: u8) -> u8 {
    if spec_hijri_to_gregorian(year, month, 30) is Ok { 30 } else { 29 }
}

/// Number of days in a Hijri month. ICU4X rejects an out-of-range day, so a
/// successful round-trip of day 30 proves the month has 30 days; otherwise 29.
pub fn days_in_hijri_month(year: i32, month: u8) -> (res: u8)
    ensures
        res == spec_days_in_hijri_month(year, month),
        res == 29 || res == 30,
{
    if hijri_to_gregorian(year, month, 30).is_ok() {
        30
    } else {
        29
    }
}

/// Weekday index (0 = Sunday) of the first day of a Hijri month, or the
/// conversion error.
pub open spec fn spec_first_weekday(year: i32, month: u8) -> Result<u8, EngineError> {
    match spec_hijri_to_gregorian(year, month, 1) {
        Ok(g) => Ok(g.weekday),
        Err(e) => Err(e),
    }
}

/// Weekday index (0 = Sunday) of the 1st of a Hijri month. Errors if the year
/// is outside the range ICU4X can convert.
pub fn first_weekday(year: i32, month: u8) -> (res: Result<u8, EngineError>)
    ensures
        res == spec_first_weekday(year, month),
        res matches Ok(w) ==> w < 7,
        res matches Ok(w) ==> spec_hijri_to_gregorian(year, month, 1) matches Ok(g) && w == g.weekday,
        res is Ok <==> (-9999 <= year <= 9999 && 1 <= month <= 12),
{
    let g = hijri_to_gregorian(year, month, 1)?;
    Ok(g.weekday)
}

/// Everything a month block is drawn from.
#[derive(Debug, Clone, Copy)]
pub struct MonthLayout {
    /// Hijri year and month shown.
    pub year: i32,
    pub month: u8,
    /// Weekday (0 = Sunday) of the first day of the month.
    pub lead: u8,
    /// Number of days in the month.
    pub total: u8,
    /// The day to highlight, if any.
    pub today: Option<(i32, u8, u8)>,
    /// Whether to highlight it with reverse video.
    pub color: bool,
    /// Whether to mark event days with `*`.
    pub marks: bool,
}

/// A layout fit for drawing.
pub open spec fn layout_ok(l: MonthLayout) -> bool {
    l.lead < 7 && 1 <= l.total <= 30
}

/// Whether an event of the table falls on `day` of `month`.
pub open spec fn is_event_day(month: int, day: int) -> bool {
    exists|k: int| 0 <= k < 6 && #[trigger] event_table()[k].month == month && event_table()[k].day == day
}

/// ANSI reverse video on.
pub open spec fn reverse_on() -> Seq<char> {
    "\x1b[7m"@
}

/// ANSI attributes off.
pub open spec fn reverse_off() -> Seq<char> {
    "\x1b[0m"@
}

/// A day's cell: the number right-aligned in two columns, wrapped in
/// reverse video when highlighted.
pub open spec fn day_cell(day: int, highlighted: bool) -> Seq<char> {
    let digits = pad_left(decimal(day as nat), 2, ' ');
    if highlighted { reverse_on() + digits + reverse_off() } else { digits }
}

/// Whether grid slot `p` (counted from Sunday of the first week) holds a day.
pub open spec fn slot_in_month(l: MonthLayout, p: int) -> bool {
    l.lead <= p < l.lead + l.total
}

/// The text of grid slot `p`.
pub open spec fn slot_text(l: MonthLayout, p: int) -> Seq<char> {
    if slot_in_month(l, p) {
        let d = p - l.lead + 1;
        day_cell(d, l.color && l.today == Some((l.year, l.month, d as u8)))
    } else {
        "  "@
    }
}

/// Whether grid slot `p` holds an event day that is marked.
pub open spec fn slot_marked(l: MonthLayout, p: int) -> bool {
    l.marks && slot_in_month(l, p) && is_event_day(l.month as int, p - l.lead + 1)
}

/// What follows slot `p` in column `j`: the event marker, or the single
/// space between columns (nothing after the last column).
pub open spec fn slot_gap(l: MonthLayout, p: int, j: int) -> Seq<char> {
    if slot_marked(l, p) { seq!['*'] } else if j < 6 { seq![' '] } else { seq![] }
}

/// The first `j` columns of week row `r`.
pub open spec fn row_prefix(l: MonthLayout, r: int, j: int) -> Seq<char>
    decreases j,
{
    if j <= 0 {
        seq![]
    } else {
        row_prefix(l, r, j - 1) + slot_text(l, 7 * r + j - 1) + slot_gap(l, 7 * r + j - 1, j - 1)
    }
}

/// Week row `r`, padded to the block width.
pub open spec fn week_line(l: MonthLayout, r: int) -> Seq<char> {
    padded_to(row_prefix(l, r, 7), COLW as nat)
}

/// Number of week rows of the month.
pub open spec fn week_count(l: MonthLayout) -> int {
    (l.lead + l.total + 6) / 7
}

/// A title centered (rounding left) in the block width.
pub open spec fn title_line(title: Seq<char>) -> Seq<char> {
    let pad: nat = if title.len() < COLW { ((COLW - title.len()) / 2) as nat } else { 0 };
    padded_to(repeat_char(' ', pad) + title, COLW as nat)
}

/// The weekday header of the grid: the two-letter names joined by spaces.
pub open spec fn weekday_header() -> Seq<char> {
    "Su Mo Tu We Th Fr Sa"@
}

/// The lines of a month block: title, weekday header, then the week rows.
pub open spec fn layout_lines(l: MonthLayout, title: Seq<char>) -> Seq<Seq<char>> {
    seq![title_line(title), weekday_header()] + Seq::new(week_count(l) as nat, |r: int| week_line(l, r))
}

fn event_day(month: u8, day: u8) -> (r: bool)
    ensures
        r == is_event_day(month as int, day as int),
{
    let table = events();
    let mut k: usize = 0;
    while k < 6
        invariant
            0 <= k <= 6,
            table@ == event_table(),
            forall|t: int| 0 <= t < k ==> !(#[trigger] event_table()[t].month == month && event_table()[t].day == day),
        decreases 6 - k,
    {
        if table[k].month == month && table[k].day == day {
            return true;
        }
        k = k + 1;
    }
    false
}

fn push_slot(out: &mut Vec<char>, l: &MonthLayout, p: usize)
    requires
        layout_ok(*l),
    ensures
        final(out)@ == old(out)@ + slot_text(*l, p as int),
{
    let ghost start = out@;
    let lead = l.lead as usize;
    let total = l.total as usize;
    if lead <= p && p < lead + total {
        let d: u8 = (p - lead + 1) as u8;
        let highlighted = l.color && match l.today {
            Some((ty, tm, td)) => ty == l.year && tm == l.month && td == d,
            None => false,
        };
        let digits = decimal_chars(d as u32);
        if highlighted {
            push_str(out, "\x1b[7m");
            push_pad_left(out, &digits, 2, ' ');
            push_str(out, "\x1b[0m");
        } else {
            push_pad_left(out, &digits, 2, ' ');
        }
        assert(out@ =~= start + slot_text(*l, p as int));
    } else {
        push_str(out, "  ");
    }
}

fn week_row(l: &MonthLayout, r: usize) -> (res: Vec<char>)
    requires
        layout_ok(*l),
        r < 7,
    ensures
        res@ == week_line(*l, r as int),
{
    let mut row: Vec<char> = Vec::new();
    let mut j: usize = 0;
    while j < 7
        invariant
            layout_ok(*l),
            r < 7,
            0 <= j <= 7,
            row@ == row_prefix(*l, r as int, j as int),
        decreases 7 - j,
    {
        let p = 7 * r + j;
        let ghost before = row@;
        push_slot(&mut row, l, p);
        let lead = l.lead as usize;
        let total = l.total as usize;
        let marked = l.marks && lead <= p && p < lead + total && event_day(l.month, (p - lead + 1) as u8);
        if marked {
            row.push('*');
        } else if j < 6 {
            row.push(' ');
        }
        assert(row@ =~= before + slot_text(*l, p as int) + slot_gap(*l, p as int, j as int));
        j = j + 1;
    }
    pad_chars(&row, COLW)
}

fn title_chars(title: &Vec<char>) -> (res: Vec<char>)
    ensures
        res@ == title_line(title@),
{
    let pad: usize = if title.len() < COLW { (COLW - title.len()) / 2 } else { 0 };
    let mut line: Vec<char> = Vec::new();
    push_repeat(&mut line, ' ', pad);
    push_chars(&mut line, title);
    pad_chars(&line, COLW)
}

fn header_chars() -> (res: Vec<char>)
    ensures
        res@ == weekday_header(),
{
    let mut line: Vec<char> = Vec::new();
    push_str(&mut line, weekday_abbr(0));
    let mut k: u8 = 1;
    while k < 7
        invariant
            1 <= k <= 7,
            line@ == abbr_join(k as int),
        decreases 7 - k,
    {
        line.push(' ');
        push_str(&mut line, weekday_abbr(k));
        k = k + 1;
    }
    proof {
        lemma_header_is_abbr_join();
    }
    line
}

/// The first `k` weekday abbreviations joined by spaces.
pub open spec fn abbr_join(k: int) -> Seq<char>
    decreases k,
{
    if k <= 1 {
        spec_weekday_abbr(0)
    } else {
        abbr_join(k - 1) + seq![' '] + spec_weekday_abbr(k - 1)
    }
}

proof fn lemma_header_is_abbr_join()
    ensures
        abbr_join(7) == weekday_header(),
{
    reveal_strlit("Su");
    reveal_strlit("Mo");
    reveal_strlit("Tu");
    reveal_strlit("We");
    reveal_strlit("Th");
    reveal_strlit("Fr");
    reveal_strlit("Sa");
    reveal_strlit("Su Mo Tu We Th Fr Sa");
    reveal_with_fuel(abbr_join, 8);
    assert(abbr_join(7) =~= weekday_header());
}

fn layout_chars(l: &MonthLayout, title: &Vec<char>) -> (res: Vec<Vec<char>>)
    requires
        layout_ok(*l),
    ensures
        res@.map_values(|v: Vec<char>| v@) == layout_lines(*l, title@),
{
    let mut lines: Vec<Vec<char>> = Vec::new();
    lines.push(title_chars(title));
    lines.push(header_chars());
    let rows: usize = (l.lead as usize + l.total as usize + 6) / 7;
    let mut r: usize = 0;
    while r < rows
        invariant
            layout_ok(*l),
            rows == week_count(*l),
            rows <= 6,
            0 <= r <= rows,
            lines@.map_values(|v: Vec<char>| v@) == seq![title_line(title@), weekday_header()]
                + Seq::new(r as nat, |i: int| week_line(*l, i)),
        decreases rows - r,
    {
        let row = week_row(l, r);
        let ghost prev = lines@;
        let ghost rv = row@;
        lines.push(row);
        assert(lines@ == prev.push(row));
        assert(lines@.map_values(|v: Vec<char>| v@) =~= prev.map_values(|v: Vec<char>| v@).push(rv));
        r = r + 1;
        assert(lines@.map_values(|v: Vec<char>| v@) =~= seq![title_line(title@), weekday_header()]
                + Seq::new(r as nat, |i: int| week_line(*l, i)));
    }
    lines
}


/// Title of a single-month grid: month name and year.
pub open spec fn month_title(year: i32, month: u8, lang: Lang) -> Seq<char> {
    spec_month_name(month as int, lang) + seq![' '] + int_text(year as int)
}

/// The lines of a month block. A single-month block (`single`) is titled
/// with the month and year and marks event days; a block of the year view
/// is titled with the month name alone and marks nothing.
pub open spec fn spec_block_lines(
    year: i32,
    month: u8,
    today: Option<(i32, u8, u8)>,
    lang: Lang,
    color: bool,
    single: bool,
) -> Result<Seq<Seq<char>>, EngineError> {
    match spec_first_weekday(year, month) {
        Ok(w) => Ok(layout_lines(
            block_layout(year, month, w, today, color, single),
            if single { month_title(year, month, lang) } else { spec_month_name(month as int, lang) },
        )),
        Err(e) => Err(e),
    }
}

/// The layout of a month whose first day falls on weekday `lead`.
pub open spec fn block_layout(
    year: i32,
    month: u8,
    lead: u8,
    today: Option<(i32, u8, u8)>,
    color: bool,
    single: bool,
) -> MonthLayout {
    MonthLayout { year, month, lead, total: spec_days_in_hijri_month(year, month), today, color, marks: single }
}

fn block_chars(
    year: i32,
    month: u8,
    today: Option<(i32, u8, u8)>,
    lang: Lang,
    color: bool,
    single: bool,
) -> (res: Result<Vec<Vec<char>>, EngineError>)
    ensures
        res matches Ok(v) ==> spec_block_lines(year, month, today, lang, color, single) == Ok::<
            Seq<Seq<char>>,
            EngineError,
        >(v@.map_values(|l: Vec<char>| l@)),
        res matches Err(e) ==> spec_block_lines(year, month, today, lang, color, single) == Err::<
            Seq<Seq<char>>,
            EngineError,
        >(e),
        res is Ok <==> (-9999 <= year <= 9999 && 1 <= month <= 12),
        res is Ok ==> (spec_first_weekday(year, month) matches Ok(w) && w < 7),
        res matches Ok(v) ==> (!color ==> lines_plain(v@.map_values(|l: Vec<char>| l@))),
{
    let lead = first_weekday(year, month)?;
    let total = days_in_hijri_month(year, month);
    let layout = MonthLayout { year, month, lead, total, today, color, marks: single };
    let mut title: Vec<char> = Vec::new();
    push_str(&mut title, month_name(month, lang));
    if single {
        title.push(' ');
        push_int(&mut title, year);
    }
    proof {
        assert(title@ =~= if single { month_title(year, month, lang) } else { spec_month_name(month as int, lang) });
        lemma_month_title_plain(year, month, lang);
    }
    let lines = layout_chars(&layout, &title);
    proof {
        if !color {
            let lv = lines@.map_values(|l: Vec<char>| l@);
            assert forall|i: int| 0 <= i < lv.len() implies plain(#[trigger] lv[i]) by {
                lemma_layout_lines_plain(layout, title@, i);
            }
        }
    }
    Ok(lines)
}

/// Every line holds no escape character.
pub open spec fn lines_plain(ls: Seq<Seq<char>>) -> bool {
    forall|i: int| 0 <= i < ls.len() ==> plain(#[trigger] ls[i])
}

fn strings_of(lines: &Vec<Vec<char>>) -> (res: Vec<String>)
    ensures
        res@.map_values(|s: String| s@) == lines@.map_values(|l: Vec<char>| l@),
{
    let mut out: Vec<String> = Vec::new();
    let mut i: usize = 0;
    while i < lines.len()
        invariant
            0 <= i <= lines.len(),
            out@.map_values(|s: String| s@) == lines@.take(i as int).map_values(|l: Vec<char>| l@),
        decreases lines.len() - i,
    {
        let s = string_from_chars(&lines[i]);
        let ghost prev = out@;
        let ghost sv = s@;
        out.push(s);
        assert(out@.map_values(|s: String| s@) =~= prev.map_values(|s: String| s@).push(sv));
        i = i + 1;
        assert(out@.map_values(|s: String| s@) =~= lines@.take(i as int).map_values(|l: Vec<char>| l@));
    }
    assert(lines@.take(lines.len() as int) =~= lines@);
    out
}

/// Build the lines of one month block: a centered title, the weekday header,
/// and the week rows — each padded to `COLW` visible columns. "Today" is
/// reverse-video when `color` is true, and event days carry a `*` in the gap
/// after the day. No event legend (callers add that).
///
/// The marker after a Saturday has no gap to stand in, so a week row whose
/// Saturday is an event day is one column wider than the block: its `*`
/// stands just past the block's right edge (`saturday_event`).
pub fn month_block(
    year: i32,
    month: u8,
    today: Option<(i32, u8, u8)>,
    lang: Lang,
    color: bool,
) -> (res: Result<Vec<String>, EngineError>)
    ensures
        res matches Ok(v) ==> spec_block_lines(year, month, today, lang, color, true) == Ok::<
            Seq<Seq<char>>,
            EngineError,
        >(v@.map_values(|s: String| s@)),
        res matches Err(e) ==> spec_block_lines(year, month, today, lang, color, true) == Err::<
            Seq<Seq<char>>,
            EngineError,
        >(e),
        res is Ok <==> (-9999 <= year <= 9999 && 1 <= month <= 12),
        res matches Ok(v) ==> {
            &&& month_title(year, month, lang).len() <= COLW ==> visible_width(v@[0]@) == COLW
            &&& visible_width(v@[1]@) == COLW
            &&& forall|i: int|
                2 <= i < v.len() ==> visible_width(#[trigger] v@[i]@) == COLW + (if saturday_event(year, month, i - 2) {
                    1int
                } else {
                    0
                })
            &&& !color ==> forall|i: int| 0 <= i < v.len() ==> plain(#[trigger] v@[i]@)
        },
{
    let lines = block_chars(year, month, today, lang, color, true)?;
    let v = strings_of(&lines);
    proof {
        let w = spec_first_weekday(year, month)->Ok_0;
        let l = block_layout(year, month, w, today, color, true);
        let title = month_title(year, month, lang);
        let ls = lines@.map_values(|x: Vec<char>| x@);
        assert(layout_ok(l));
        assert(ls == layout_lines(l, title));
        assert(v@.map_values(|s: String| s@).len() == v.len());
        assert(v.len() == ls.len());
        assert(ls.len() >= 2);
        assert(forall|i: int| 0 <= i < v.len() ==> v@[i]@ == #[trigger] ls[i]) by {
            assert forall|i: int| 0 <= i < v.len() implies v@[i]@ == #[trigger] ls[i] by {
                assert(v@.map_values(|s: String| s@)[i] == v@[i]@);
            }
        }
        lemma_month_title_plain(year, month, lang);
        assert(ls[0] == title_line(title));
        assert(ls[1] == weekday_header());
        if title.len() <= COLW {
            lemma_title_line_width(title);
        }
        reveal_strlit("Su Mo Tu We Th Fr Sa");
        lemma_plain_width(weekday_header());
        assert forall|i: int| 2 <= i < v.len() implies visible_width(#[trigger] v@[i]@) == COLW + (if saturday_event(year, month, i - 2) {
            1int
        } else {
            0
        }) by {
            lemma_week_line_width(l, i - 2);
            assert(ls[i] == week_line(l, i - 2));
        }
        if !color {
            assert forall|i: int| 0 <= i < v.len() implies plain(#[trigger] v@[i]@) by {
                lemma_layout_lines_plain(l, title, i);
            }
        }
    }
    Ok(v)
}

/// Whether the Saturday of week row `r` of a month is an event day (its
/// marker then takes one column past the block width).
pub open spec fn saturday_event(year: i32, month: u8, r: int) -> bool {
    match spec_first_weekday(year, month) {
        Ok(w) => {
            let d = 7 * r + 6 - w + 1;
            1 <= d <= spec_days_in_hijri_month(year, month) && is_event_day(month as int, d)
        },
        Err(_) => false,
    }
}

proof fn lemma_month_title_plain(year: i32, month: u8, lang: Lang)
    ensures
        plain(month_title(year, month, lang)),
        plain(spec_month_name(month as int, lang)),
{
    crate::names::lemma_month_name_plain(month as int, lang);
    crate::text::lemma_int_text_plain(year as int);
    lemma_plain_concat(spec_month_name(month as int, lang), seq![' ']);
    lemma_plain_concat(spec_month_name(month as int, lang) + seq![' '], int_text(year as int));
}

/// Lines each followed by a line break.
pub open spec fn lines_text(ls: Seq<Seq<char>>) -> Seq<char>
    decreases ls.len(),
{
    if ls.len() == 0 {
        seq![]
    } else {
        lines_text(ls.drop_last()) + ls.last() + seq!['\n']
    }
}

/// One line of a month's event legend.
pub open spec fn legend_line(e: Event, month: u8, lang: Lang) -> Seq<char> {
    "  "@ + decimal(e.day as nat) + seq![' '] + spec_month_name(month as int, lang) + " — "@ + e.name@
        + seq!['\n']
}

/// The event legend of a month.
pub open spec fn legend_text(evs: Seq<Event>, month: u8, lang: Lang) -> Seq<char>
    decreases evs.len(),
{
    if evs.len() == 0 {
        seq![]
    } else {
        legend_text(evs.drop_last(), month, lang) + legend_line(evs.last(), month, lang)
    }
}

/// The single-month view: the block's lines without trailing spaces, then
/// the month's events.
pub open spec fn spec_month_grid(
    year: i32,
    month: u8,
    today: Option<(i32, u8, u8)>,
    lang: Lang,
    color: bool,
) -> Result<Seq<char>, EngineError> {
    match spec_block_lines(year, month, today, lang, color, true) {
        Ok(ls) => Ok(
            lines_text(ls.map_values(|l: Seq<char>| trim_trailing_spaces(l))) + legend_text(
                events_of_month(event_table(), month),
                month,
                lang,
            ),
        ),
        Err(e) => Err(e),
    }
}

fn push_lines_trimmed(out: &mut Vec<char>, lines: &Vec<Vec<char>>)
    ensures
        final(out)@ == old(out)@ + lines_text(
            lines@.map_values(|l: Vec<char>| l@).map_values(|l: Seq<char>| trim_trailing_spaces(l)),
        ),
{
    let ghost start = out@;
    let ghost all = lines@.map_values(|l: Vec<char>| l@).map_values(|l: Seq<char>| trim_trailing_spaces(l));
    let mut i: usize = 0;
    while i < lines.len()
        invariant
            0 <= i <= lines.len(),
            all == lines@.map_values(|l: Vec<char>| l@).map_values(|l: Seq<char>| trim_trailing_spaces(l)),
            out@ == start + lines_text(all.take(i as int)),
        decreases lines.len() - i,
    {
        let t = trim_chars(&lines[i]);
        push_chars(out, &t);
        out.push('\n');
        proof {
            assert(all.take(i + 1).drop_last() =~= all.take(i as int));
            assert(all.take(i + 1).last() == t@);
        }
        i = i + 1;
        assert(out@ =~= start + lines_text(all.take(i as int)));
    }
    assert(all.take(lines.len() as int) =~= all);
}

fn push_legend(out: &mut Vec<char>, month: u8, lang: Lang)
    requires
        1 <= month <= 12,
    ensures
        final(out)@ == old(out)@ + legend_text(events_of_month(event_table(), month), month, lang),
{
    let ghost start = out@;
    let evs = events_in_month(month);
    let ghost evv = evs@.map_values(|e: &Event| *e);
    let name = month_name(month, lang);
    let mut i: usize = 0;
    while i < evs.len()
        invariant
            1 <= month <= 12,
            0 <= i <= evs.len(),
            evv == evs@.map_values(|e: &Event| *e),
            evv == events_of_month(event_table(), month),
            name@ == spec_month_name(month as int, lang),
            out@ == start + legend_text(evv.take(i as int), month, lang),
        decreases evs.len() - i,
    {
        let e = evs[i];
        let ghost before = out@;
        push_str(out, "  ");
        push_decimal(out, e.day as u32);
        out.push(' ');
        push_str(out, name);
        push_str(out, " — ");
        push_str(out, e.name);
        out.push('\n');
        proof {
            assert(evv[i as int] == *e);
            assert(out@ =~= before + legend_line(*e, month, lang));
            assert(evv.take(i + 1).drop_last() =~= evv.take(i as int));
        }
        i = i + 1;
    }
    assert(evv.take(evs.len() as int) =~= evv);
}

/// Render a `cal`-style grid for a single Hijri month, followed by the event
/// legend for that month. `today` highlights the current day (reverse-video
/// when `color`). Errors if the month/year is outside the convertible range.
pub fn month_grid(
    year: i32,
    month: u8,
    today: Option<(i32, u8, u8)>,
    lang: Lang,
    color: bool,
) -> (res: Result<String, EngineError>)
    ensures
        res matches Ok(s) ==> spec_month_grid(year, month, today, lang, color) == Ok::<Seq<char>, EngineError>(s@),
        res matches Err(e) ==> spec_month_grid(year, month, today, lang, color) == Err::<Seq<char>, EngineError>(e),
        res is Ok <==> (-9999 <= year <= 9999 && 1 <= month <= 12),
        res matches Ok(s) ==> (!color ==> plain(s@)),
{
    let lines = block_chars(year, month, today, lang, color, true)?;
    let mut out: Vec<char> = Vec::new();
    push_lines_trimmed(&mut out, &lines);
    push_legend(&mut out, month, lang);
    proof {
        if !color {
            let w = spec_first_weekday(year, month)->Ok_0;
            let l = block_layout(year, month, w, today, color, true);
            let title = month_title(year, month, lang);
            let ls = lines@.map_values(|x: Vec<char>| x@);
            assert(ls == layout_lines(l, title));
            lemma_month_title_plain(year, month, lang);
            let tl = ls.map_values(|x: Seq<char>| trim_trailing_spaces(x));
            assert forall|i: int| 0 <= i < tl.len() implies plain(#[trigger] tl[i]) by {
                lemma_layout_lines_plain(l, title, i);
                lemma_trim_plain(ls[i]);
            }
            lemma_lines_text_plain(tl);
            let evs = events_of_month(event_table(), month);
            lemma_legend_plain(month, lang, evs.len() as int);
            assert(evs.take(evs.len() as int) =~= evs);
            lemma_plain_concat(lines_text(tl), legend_text(evs, month, lang));
        }
    }
    Ok(string_from_chars(&out))
}


/// Width of the year view: three blocks and two gaps of two spaces.
pub open spec fn year_width() -> nat {
    (COLW * 3 + 2 * 2) as nat
}

/// The centered year header of the year view, followed by a blank line.
pub open spec fn year_header(year: i32) -> Seq<char> {
    let h = int_text(year as int);
    let pad: nat = if h.len() < year_width() { ((year_width() - h.len()) / 2) as nat } else { 0 };
    repeat_char(' ', pad) + h + "\n\n"@
}

/// Line `i` of a block, or a blank block-wide line past its end.
pub open spec fn block_line(b: Seq<Seq<char>>, i: int) -> Seq<char> {
    if 0 <= i < b.len() { b[i] } else { repeat_char(' ', COLW as nat) }
}

/// Line `i` of three blocks side by side.
pub open spec fn quarter_line(b0: Seq<Seq<char>>, b1: Seq<Seq<char>>, b2: Seq<Seq<char>>, i: int) -> Seq<char> {
    trim_trailing_spaces(
        padded_to(block_line(b0, i), COLW as nat) + "  "@ + padded_to(block_line(b1, i), COLW as nat) + "  "@
            + padded_to(block_line(b2, i), COLW as nat),
    )
}

/// The first `k` lines of three blocks side by side, each ending a line.
pub open spec fn quarter_lines(b0: Seq<Seq<char>>, b1: Seq<Seq<char>>, b2: Seq<Seq<char>>, k: int) -> Seq<char>
    decreases k,
{
    if k <= 0 {
        seq![]
    } else {
        quarter_lines(b0, b1, b2, k - 1) + quarter_line(b0, b1, b2, k - 1) + seq!['\n']
    }
}

/// Largest of three numbers.
pub open spec fn max3(a: int, b: int, c: int) -> int {
    if a >= b && a >= c { a } else if b >= c { b } else { c }
}

/// The block of a month in the year view (empty when it cannot be drawn).
pub open spec fn year_view_block(year: i32, month: u8, today: Option<(i32, u8, u8)>, lang: Lang, color: bool) -> Seq<Seq<char>> {
    match spec_block_lines(year, month, today, lang, color, false) {
        Ok(ls) => ls,
        Err(_) => seq![],
    }
}

/// Row `q` (0..4) of the year view: months 3q+1 to 3q+3 side by side, then a
/// blank line.
pub open spec fn quarter_text(year: i32, q: int, today: Option<(i32, u8, u8)>, lang: Lang, color: bool) -> Seq<char> {
    let b0 = year_view_block(year, (3 * q + 1) as u8, today, lang, color);
    let b1 = year_view_block(year, (3 * q + 2) as u8, today, lang, color);
    let b2 = year_view_block(year, (3 * q + 3) as u8, today, lang, color);
    quarter_lines(b0, b1, b2, max3(b0.len() as int, b1.len() as int, b2.len() as int)) + seq!['\n']
}

/// The first `k` rows of the year view.
pub open spec fn quarters_text(year: i32, today: Option<(i32, u8, u8)>, lang: Lang, color: bool, k: int) -> Seq<char>
    decreases k,
{
    if k <= 0 {
        seq![]
    } else {
        quarters_text(year, today, lang, color, k - 1) + quarter_text(year, k - 1, today, lang, color)
    }
}

/// The year view, or the error for the first month when the year cannot be
/// converted.
pub open spec fn spec_year_grid(year: i32, today: Option<(i32, u8, u8)>, lang: Lang, color: bool) -> Result<Seq<char>, EngineError> {
    if -9999 <= year <= 9999 {
        Ok(year_header(year) + quarters_text(year, today, lang, color, 4))
    } else {
        Err(EngineError::InvalidDate { year, month: 1, day: 1 })
    }
}

fn push_block_line(out: &mut Vec<char>, b: &Vec<Vec<char>>, i: usize)
    ensures
        final(out)@ == old(out)@ + padded_to(block_line(b@.map_values(|l: Vec<char>| l@), i as int), COLW as nat),
        lines_plain(b@.map_values(|l: Vec<char>| l@)) ==> plain(
            padded_to(block_line(b@.map_values(|l: Vec<char>| l@), i as int), COLW as nat),
        ),
{
    let ghost bv = b@.map_values(|l: Vec<char>| l@);
    proof {
        if lines_plain(bv) {
            if (i as int) < bv.len() {
                assert(plain(bv[i as int]));
            } else {
                lemma_repeat_plain(' ', COLW as nat);
            }
            lemma_padded_plain(block_line(bv, i as int), COLW as nat);
        }
    }
    if i < b.len() {
        let p = pad_chars(&b[i], COLW);
        push_chars(out, &p);
    } else {
        let mut blank: Vec<char> = Vec::new();
        push_repeat(&mut blank, ' ', COLW);
        let p = pad_chars(&blank, COLW);
        push_chars(out, &p);
    }
}

fn push_quarter(out: &mut Vec<char>, b0: &Vec<Vec<char>>, b1: &Vec<Vec<char>>, b2: &Vec<Vec<char>>)
    ensures
        final(out)@ == old(out)@ + quarter_lines(
            b0@.map_values(|l: Vec<char>| l@),
            b1@.map_values(|l: Vec<char>| l@),
            b2@.map_values(|l: Vec<char>| l@),
            max3(b0.len() as int, b1.len() as int, b2.len() as int),
        ) + seq!['\n'],
        plain(old(out)@) && lines_plain(b0@.map_values(|l: Vec<char>| l@)) && lines_plain(
            b1@.map_values(|l: Vec<char>| l@),
        ) && lines_plain(b2@.map_values(|l: Vec<char>| l@)) ==> plain(final(out)@),
{
    let ghost start = out@;
    let ghost v0 = b0@.map_values(|l: Vec<char>| l@);
    let ghost v1 = b1@.map_values(|l: Vec<char>| l@);
    let ghost v2 = b2@.map_values(|l: Vec<char>| l@);
    let mut max_lines = b0.len();
    if b1.len() > max_lines {
        max_lines = b1.len();
    }
    if b2.len() > max_lines {
        max_lines = b2.len();
    }
    assert(max_lines == max3(b0.len() as int, b1.len() as int, b2.len() as int));
    let mut i: usize = 0;
    while i < max_lines
        invariant
            0 <= i <= max_lines,
            v0 == b0@.map_values(|l: Vec<char>| l@),
            v1 == b1@.map_values(|l: Vec<char>| l@),
            v2 == b2@.map_values(|l: Vec<char>| l@),
            out@ == start + quarter_lines(v0, v1, v2, i as int),
            plain(start) && lines_plain(v0) && lines_plain(v1) && lines_plain(v2) ==> plain(out@),
        decreases max_lines - i,
    {
        let mut line: Vec<char> = Vec::new();
        push_block_line(&mut line, b0, i);
        push_str(&mut line, "  ");
        push_block_line(&mut line, b1, i);
        push_str(&mut line, "  ");
        push_block_line(&mut line, b2, i);
        let t = trim_chars(&line);
        proof {
            assert(line@ =~= padded_to(block_line(v0, i as int), COLW as nat) + "  "@ + padded_to(block_line(v1, i as int), COLW as nat) + "  "@
                + padded_to(block_line(v2, i as int), COLW as nat));
        }
        let ghost before = out@;
        push_chars(out, &t);
        out.push('\n');
        proof {
            if plain(start) && lines_plain(v0) && lines_plain(v1) && lines_plain(v2) {
                reveal_strlit("  ");
                let p0 = padded_to(block_line(v0, i as int), COLW as nat);
                let p1 = padded_to(block_line(v1, i as int), COLW as nat);
                let p2 = padded_to(block_line(v2, i as int), COLW as nat);
                lemma_plain_concat(p0, "  "@);
                lemma_plain_concat(p0 + "  "@, p1);
                lemma_plain_concat(p0 + "  "@ + p1, "  "@);
                lemma_plain_concat(p0 + "  "@ + p1 + "  "@, p2);
                lemma_trim_plain(line@);
                lemma_plain_concat(before, t@);
                lemma_plain_concat(before + t@, seq!['\n']);
                assert(out@ =~= before + t@ + seq!['\n']);
            }
        }
        i = i + 1;
        assert(out@ =~= start + quarter_lines(v0, v1, v2, i as int));
    }
    let ghost before = out@;
    out.push('\n');
    proof {
        if plain(start) && lines_plain(v0) && lines_plain(v1) && lines_plain(v2) {
            lemma_plain_concat(before, seq!['\n']);
            assert(out@ =~= before + seq!['\n']);
        }
    }
}

fn quarter_blocks(
    year: i32,
    q: u8,
    today: Option<(i32, u8, u8)>,
    lang: Lang,
    color: bool,
) -> (res: Result<(Vec<Vec<char>>, Vec<Vec<char>>, Vec<Vec<char>>), EngineError>)
    requires
        q < 4,
    ensures
        res is Ok <==> -9999 <= year <= 9999,
        res matches Err(e) ==> e == (EngineError::InvalidDate { year, month: (3 * q + 1) as u8, day: 1 }),
        res matches Ok((b0, b1, b2)) ==> (!color ==> lines_plain(b0@.map_values(|l: Vec<char>| l@)) && lines_plain(
            b1@.map_values(|l: Vec<char>| l@),
        ) && lines_plain(b2@.map_values(|l: Vec<char>| l@))),
        res matches Ok((b0, b1, b2)) ==> {
            &&& spec_block_lines(year, (3 * q + 1) as u8, today, lang, color, false) == Ok::<Seq<Seq<char>>, EngineError>(
                b0@.map_values(|l: Vec<char>| l@),
            )
            &&& spec_block_lines(year, (3 * q + 2) as u8, today, lang, color, false) == Ok::<Seq<Seq<char>>, EngineError>(
                b1@.map_values(|l: Vec<char>| l@),
            )
            &&& spec_block_lines(year, (3 * q + 3) as u8, today, lang, color, false) == Ok::<Seq<Seq<char>>, EngineError>(
                b2@.map_values(|l: Vec<char>| l@),
            )
        },
{
    let b0 = block_chars(year, 3 * q + 1, today, lang, color, false)?;
    let b1 = block_chars(year, 3 * q + 2, today, lang, color, false)?;
    let b2 = block_chars(year, 3 * q + 3, today, lang, color, false)?;
    Ok((b0, b1, b2))
}

proof fn lemma_quarter_step(
    year: i32,
    q: int,
    today: Option<(i32, u8, u8)>,
    lang: Lang,
    color: bool,
    v0: Seq<Seq<char>>,
    v1: Seq<Seq<char>>,
    v2: Seq<Seq<char>>,
)
    requires
        0 <= q < 4,
        spec_block_lines(year, (3 * q + 1) as u8, today, lang, color, false) == Ok::<Seq<Seq<char>>, EngineError>(v0),
        spec_block_lines(year, (3 * q + 2) as u8, today, lang, color, false) == Ok::<Seq<Seq<char>>, EngineError>(v1),
        spec_block_lines(year, (3 * q + 3) as u8, today, lang, color, false) == Ok::<Seq<Seq<char>>, EngineError>(v2),
    ensures
        quarters_text(year, today, lang, color, q + 1) == quarters_text(year, today, lang, color, q)
            + quarter_lines(v0, v1, v2, max3(v0.len() as int, v1.len() as int, v2.len() as int)) + seq!['\n'],
{
    assert(year_view_block(year, (3 * q + 1) as u8, today, lang, color) == v0);
    assert(year_view_block(year, (3 * q + 2) as u8, today, lang, color) == v1);
    assert(year_view_block(year, (3 * q + 3) as u8, today, lang, color) == v2);
    assert(quarters_text(year, today, lang, color, q + 1) =~= quarters_text(year, today, lang, color, q)
            + quarter_lines(v0, v1, v2, max3(v0.len() as int, v1.len() as int, v2.len() as int)) + seq!['\n']);
}

/// Render a full Hijri year as a `cal`-style 12-month grid, 3 months across and
/// 4 rows down, with a centered year header. Each month block is titled with
/// the month name alone (the year is in the header). `today` highlights the
/// current day across all months (reverse-video when `color`). No event
/// legend, to keep the overview compact like `cal`.
#[verifier::rlimit(30)]
pub fn year_grid(
    year: i32,
    today: Option<(i32, u8, u8)>,
    lang: Lang,
    color: bool,
) -> (res: Result<String, EngineError>)
    ensures
        res matches Ok(s) ==> spec_year_grid(year, today, lang, color) == Ok::<Seq<char>, EngineError>(s@),
        res matches Err(e) ==> spec_year_grid(year, today, lang, color) == Err::<Seq<char>, EngineError>(e),
        res matches Ok(s) ==> (!color ==> plain(s@)),
{
    let mut out: Vec<char> = Vec::new();
    let header = {
        let mut h: Vec<char> = Vec::new();
        push_int(&mut h, year);
        h
    };
    let total_w: usize = COLW * 3 + 2 * 2;
    let pad: usize = if header.len() < total_w { (total_w - header.len()) / 2 } else { 0 };
    push_repeat(&mut out, ' ', pad);
    push_chars(&mut out, &header);
    push_str(&mut out, "\n\n");
    assert(out@ =~= year_header(year));
    proof {
        reveal_strlit("\n\n");
        lemma_repeat_plain(' ', pad as nat);
        crate::text::lemma_int_text_plain(year as int);
        lemma_plain_concat(repeat_char(' ', pad as nat), header@);
        lemma_plain_concat(repeat_char(' ', pad as nat) + header@, "\n\n"@);
        assert(out@ =~= repeat_char(' ', pad as nat) + header@ + "\n\n"@);
    }
    let mut q: u8 = 0;
    while q < 4
        invariant
            0 <= q <= 4,
            !color ==> plain(out@),
            q > 0 ==> -9999 <= year <= 9999,
            out@ == year_header(year) + quarters_text(year, today, lang, color, q as int),
        decreases 4 - q,
    {
        let (b0, b1, b2) = quarter_blocks(year, q, today, lang, color)?;
        push_quarter(&mut out, &b0, &b1, &b2);
        proof {
            lemma_quarter_step(year, q as int, today, lang, color,
                b0@.map_values(|l: Vec<char>| l@), b1@.map_values(|l: Vec<char>| l@), b2@.map_values(|l: Vec<char>| l@));
        }
        q = q + 1;
    }
    Ok(string_from_chars(&out))
}

/// One line of the events list.
pub open spec fn event_line(e: Event, g: GregorianDate, lang: Lang) -> Seq<char> {
    "  "@ + pad_right(e.name@, 18) + seq![' '] + pad_left(decimal(e.day as nat), 2, ' ') + seq![' ']
        + pad_right(spec_month_name(e.month as int, lang), 16) + seq![' '] + ymd_text(
        g.year as int,
        g.month as int,
        g.day as int,
    ) + seq!['\n']
}

/// The lines of the first `k` events of the table for a Hijri year.
pub open spec fn events_lines(year: i32, lang: Lang, k: int) -> Seq<char>
    decreases k,
{
    if k <= 0 {
        seq![]
    } else {
        let e = event_table()[k - 1];
        events_lines(year, lang, k - 1) + match spec_hijri_to_gregorian(year, e.month, e.day) {
            Ok(g) => event_line(e, g, lang),
            Err(_) => seq![],
        }
    }
}

/// The closing caveat of the events list.
pub open spec fn events_caveat() -> Seq<char> {
    "\nNote: dates are Umm al-Qura calculated; local religious observance may differ by ±1 day.\n"@
}

/// The events list of a Hijri year, or the error for its first event when
/// the year cannot be converted.
pub open spec fn spec_events_list(year: i32, lang: Lang) -> Result<Seq<char>, EngineError> {
    if -9999 <= year <= 9999 {
        Ok("Major events — "@ + int_text(year as int) + " AH\n"@ + events_lines(year, lang, 6) + events_caveat())
    } else {
        Err(EngineError::InvalidDate { year, month: 1, day: 1 })
    }
}

#[verifier::rlimit(30)]
fn push_event_line(out: &mut Vec<char>, e: &Event, g: &GregorianDate, lang: Lang)
    requires
        1 <= e.month <= 12,
    ensures
        final(out)@ == old(out)@ + event_line(*e, *g, lang),
{
    let ghost before = out@;
    push_str(out, "  ");
    let name = chars_of(e.name);
    push_pad_right(out, &name, 18);
    out.push(' ');
    let d = decimal_chars(e.day as u32);
    push_pad_left(out, &d, 2, ' ');
    out.push(' ');
    let mn = chars_of(month_name(e.month, lang));
    push_pad_right(out, &mn, 16);
    out.push(' ');
    push_ymd(out, g.year, g.month, g.day);
    out.push('\n');
    assert(out@ =~= before + event_line(*e, *g, lang));
}

/// The conversion of the `k`-th event of the table to its Gregorian date in
/// a Hijri year.
pub open spec fn event_date(year: i32, k: int) -> Result<GregorianDate, EngineError> {
    spec_hijri_to_gregorian(year, event_table()[k].month, event_table()[k].day)
}

/// Render the events list for a Hijri year, each with its Gregorian date.
/// Ends with the observance caveat line. Errors if the year is outside the
/// convertible range.
///
/// The list is given exactly when every event's date converts, each line
/// then showing that conversion; otherwise the error is that of the first
/// event whose date does not convert.
pub fn events_list(year: i32, lang: Lang) -> (res: Result<String, EngineError>)
    ensures
        res matches Ok(s) ==> spec_events_list(year, lang) == Ok::<Seq<char>, EngineError>(s@),
        res matches Err(e) ==> spec_events_list(year, lang) == Err::<Seq<char>, EngineError>(e),
        res matches Ok(s) ==> plain(s@),
        res is Ok <==> forall|k: int| 0 <= k < 6 ==> #[trigger] event_date(year, k) is Ok,
        res matches Err(e) ==> exists|k: int|
            0 <= k < 6 && #[trigger] event_date(year, k) == Err::<GregorianDate, EngineError>(e) && forall|j: int|
                0 <= j < k ==> event_date(year, j) is Ok,
{
    proof {
        lemma_events_list_plain(year, lang);
    }
    let mut out: Vec<char> = Vec::new();
    push_str(&mut out, "Major events — ");
    push_int(&mut out, year);
    push_str(&mut out, " AH\n");
    let ghost head = out@;
    let table = events();
    let mut k: usize = 0;
    while k < 6
        invariant
            0 <= k <= 6,
            table@ == event_table(),
            k > 0 ==> -9999 <= year <= 9999,
            head == "Major events — "@ + int_text(year as int) + " AH\n"@,
            out@ == head + events_lines(year, lang, k as int),
            forall|j: int| 0 <= j < k ==> #[trigger] event_date(year, j) is Ok,
        decreases 6 - k,
    {
        let e = table[k];
        assert(1 <= e.month <= 12 && 1 <= e.day <= 12);
        assert(event_table()[k as int] == e);
        let g = match hijri_to_gregorian(year, e.month, e.day) {
            Ok(g) => g,
            Err(err) => {
                assert(event_date(year, k as int) == Err::<GregorianDate, EngineError>(err));
                return Err(err);
            },
        };
        assert(event_date(year, k as int) is Ok);
        push_event_line(&mut out, &e, &g, lang);
        proof {
            assert(event_table()[k as int] == e);
            assert(events_lines(year, lang, k + 1) == events_lines(year, lang, k as int) + event_line(e, g, lang));
        }
        k = k + 1;
    }
    push_str(&mut out, "\nNote: dates are Umm al-Qura calculated; local religious observance may differ by ±1 day.\n");
    Ok(string_from_chars(&out))
}

} // verus!

verus! {

proof fn lemma_ymd_plain(y: int, m: int, d: int)
    ensures
        plain(ymd_text(y, m, d)),
{
    crate::text::lemma_zero_padded_plain(y, 4);
    crate::text::lemma_zero_padded_plain(m, 2);
    crate::text::lemma_zero_padded_plain(d, 2);
    lemma_plain_concat(zero_padded(y, 4), seq!['-']);
    lemma_plain_concat(zero_padded(y, 4) + seq!['-'], zero_padded(m, 2));
    lemma_plain_concat(zero_padded(y, 4) + seq!['-'] + zero_padded(m, 2), seq!['-']);
    lemma_plain_concat(zero_padded(y, 4) + seq!['-'] + zero_padded(m, 2) + seq!['-'], zero_padded(d, 2));
}

proof fn lemma_weekday_name_plain(i: int)
    ensures
        plain(spec_weekday_name(i)),
        plain(spec_weekday_name(i).take(3)),
{
    reveal_strlit("Sunday");
    reveal_strlit("Monday");
    reveal_strlit("Tuesday");
    reveal_strlit("Wednesday");
    reveal_strlit("Thursday");
    reveal_strlit("Friday");
    reveal_strlit("Saturday");
    let w = spec_weekday_name(i);
    assert forall|k: int| 0 <= k < w.take(3).len() implies #[trigger] w.take(3)[k] != esc() by {
        assert(w.take(3)[k] == w[k]);
    }
}

/// The one-line date view holds no escape character.
pub proof fn lemma_date_line_plain(h: HijriDate, g: GregorianDate, lang: Lang)
    ensures
        plain(date_line_text(h, g, lang)),
{
    let a = decimal(h.day as nat);
    let b = spec_month_name(h.month as int, lang);
    let c = int_text(h.year as int);
    let w = spec_weekday_name(g.weekday as int).take(3);
    let ymd = ymd_text(g.year as int, g.month as int, g.day as int);
    crate::text::lemma_decimal_plain(h.day as nat);
    crate::names::lemma_month_name_plain(h.month as int, lang);
    crate::text::lemma_int_text_plain(h.year as int);
    lemma_weekday_name_plain(g.weekday as int);
    lemma_ymd_plain(g.year as int, g.month as int, g.day as int);
    reveal_strlit(" AH  (");
    reveal_strlit(", ");
    reveal_strlit(")");
    assert(plain(seq![' ']));
    assert(plain(" AH  ("@));
    assert(plain(", "@));
    assert(plain(")"@));
    lemma_plain_concat(a, seq![' ']);
    lemma_plain_concat(a + seq![' '], b);
    lemma_plain_concat(a + seq![' '] + b, seq![' ']);
    lemma_plain_concat(a + seq![' '] + b + seq![' '], c);
    lemma_plain_concat(a + seq![' '] + b + seq![' '] + c, " AH  ("@);
    lemma_plain_concat(a + seq![' '] + b + seq![' '] + c + " AH  ("@, w);
    lemma_plain_concat(a + seq![' '] + b + seq![' '] + c + " AH  ("@ + w, ", "@);
    lemma_plain_concat(a + seq![' '] + b + seq![' '] + c + " AH  ("@ + w + ", "@, ymd);
    lemma_plain_concat(a + seq![' '] + b + seq![' '] + c + " AH  ("@ + w + ", "@ + ymd, ")"@);
}

proof fn lemma_event_line_plain(e: Event, g: GregorianDate, lang: Lang)
    requires
        plain(e.name@),
    ensures
        plain(event_line(e, g, lang)),
{
    let n = pad_right(e.name@, 18);
    let d = pad_left(decimal(e.day as nat), 2, ' ');
    let m = pad_right(spec_month_name(e.month as int, lang), 16);
    let ymd = ymd_text(g.year as int, g.month as int, g.day as int);
    crate::text::lemma_pads_plain(e.name@, 18, ' ');
    crate::text::lemma_decimal_plain(e.day as nat);
    crate::text::lemma_pads_plain(decimal(e.day as nat), 2, ' ');
    crate::names::lemma_month_name_plain(e.month as int, lang);
    crate::text::lemma_pads_plain(spec_month_name(e.month as int, lang), 16, ' ');
    lemma_ymd_plain(g.year as int, g.month as int, g.day as int);
    reveal_strlit("  ");
    assert(plain("  "@));
    assert(plain(seq![' ']));
    assert(plain(seq!['\n']));
    lemma_plain_concat("  "@, n);
    lemma_plain_concat("  "@ + n, seq![' ']);
    lemma_plain_concat("  "@ + n + seq![' '], d);
    lemma_plain_concat("  "@ + n + seq![' '] + d, seq![' ']);
    lemma_plain_concat("  "@ + n + seq![' '] + d + seq![' '], m);
    lemma_plain_concat("  "@ + n + seq![' '] + d + seq![' '] + m, seq![' ']);
    lemma_plain_concat("  "@ + n + seq![' '] + d + seq![' '] + m + seq![' '], ymd);
    lemma_plain_concat("  "@ + n + seq![' '] + d + seq![' '] + m + seq![' '] + ymd, seq!['\n']);
}

proof fn lemma_events_lines_plain(year: i32, lang: Lang, k: int)
    requires
        k <= 6,
    ensures
        plain(events_lines(year, lang, k)),
    decreases k,
{
    if k > 0 {
        lemma_events_lines_plain(year, lang, k - 1);
        let e = event_table()[k - 1];
        match spec_hijri_to_gregorian(year, e.month, e.day) {
            Ok(g) => {
                lemma_event_names_plain(k - 1);
                lemma_event_line_plain(e, g, lang);
                lemma_plain_concat(events_lines(year, lang, k - 1), event_line(e, g, lang));
            },
            Err(_) => {
                assert(events_lines(year, lang, k) =~= events_lines(year, lang, k - 1));
            },
        }
    }
}

/// The events list holds no escape character.
pub proof fn lemma_events_list_plain(year: i32, lang: Lang)
    ensures
        spec_events_list(year, lang) matches Ok(t) ==> plain(t),
{
    if -9999 <= year <= 9999 {
        let head = "Major events — "@;
        let tail = " AH\n"@;
        reveal_strlit("Major events — ");
        reveal_strlit(" AH\n");
        reveal_strlit("\nNote: dates are Umm al-Qura calculated; local religious observance may differ by ±1 day.\n");
        assert(plain(head));
        assert(plain(tail));
        assert(plain(events_caveat()));
        crate::text::lemma_int_text_plain(year as int);
        lemma_events_lines_plain(year, lang, 6);
        lemma_plain_concat(head, int_text(year as int));
        lemma_plain_concat(head + int_text(year as int), tail);
        lemma_plain_concat(head + int_text(year as int) + tail, events_lines(year, lang, 6));
        lemma_plain_concat(head + int_text(year as int) + tail + events_lines(year, lang, 6), events_caveat());
    }
}

} // verus!

verus! {

/// Reading `b` after `a` (which leaves no escape sequence open) adds the
/// widths, and the escape state after both is the one after `b` alone.
pub proof fn lemma_width_concat(a: Seq<char>, b: Seq<char>)
    requires
        !in_escape_after(a),
    ensures
        visible_width(a + b) == visible_width(a) + visible_width(b),
        in_escape_after(a + b) == in_escape_after(b),
    decreases b.len(),
{
    if b.len() == 0 {
        assert(a + b =~= a);
    } else {
        lemma_width_concat(a, b.drop_last());
        assert((a + b).drop_last() =~= a + b.drop_last());
        assert((a + b).last() == b.last());
    }
}

/// Spaces are as wide as they are many, and open no escape sequence.
pub proof fn lemma_spaces_width(n: nat)
    ensures
        visible_width(repeat_char(' ', n)) == n,
        !in_escape_after(repeat_char(' ', n)),
    decreases n,
{
    if n > 0 {
        lemma_spaces_width((n - 1) as nat);
        assert(repeat_char(' ', n).drop_last() =~= repeat_char(' ', (n - 1) as nat));
    }
}

/// `pad_to` makes a string exactly as wide as the larger of its width and
/// the requested width, keeping the string as its beginning — unless the
/// string ends inside an open escape sequence, which would swallow the
/// padding.
pub proof fn lemma_pad_to_width(s: Seq<char>, width: nat)
    requires
        !in_escape_after(s),
    ensures
        visible_width(padded_to(s, width)) == if visible_width(s) >= width { visible_width(s) } else { width },
        padded_to(s, width).subrange(0, s.len() as int) == s,
        !in_escape_after(padded_to(s, width)),
{
    if visible_width(s) < width {
        let k = (width - visible_width(s)) as nat;
        lemma_spaces_width(k);
        lemma_width_concat(s, repeat_char(' ', k));
        assert((s + repeat_char(' ', k)).subrange(0, s.len() as int) =~= s);
    } else {
        assert(s.subrange(0, s.len() as int) =~= s);
    }
}

} // verus!

verus! {

/// Text without escape characters is as wide as it is long.
pub proof fn lemma_plain_width(s: Seq<char>)
    requires
        plain(s),
    ensures
        visible_width(s) == s.len(),
        !in_escape_after(s),
    decreases s.len(),
{
    if s.len() > 0 {
        let s0 = s.drop_last();
        assert(plain(s0)) by {
            assert forall|i: int| 0 <= i < s0.len() implies #[trigger] s0[i] != esc() by {
                assert(s0[i] == s[i]);
            }
        }
        lemma_plain_width(s0);
        assert(s[s.len() - 1] != esc());
    }
}

proof fn lemma_day_digits(d: int)
    requires
        1 <= d <= 30,
    ensures
        plain(pad_left(decimal(d as nat), 2, ' ')),
        pad_left(decimal(d as nat), 2, ' ').len() == 2,
{
    let s = decimal(d as nat);
    if d >= 10 {
        assert(decimal((d / 10) as nat) =~= seq![crate::text::digit_char(d / 10)]);
        assert(s.len() == 2);
    } else {
        assert(s.len() == 1);
    }
    let p = pad_left(s, 2, ' ');
    assert forall|i: int| 0 <= i < p.len() implies #[trigger] p[i] != esc() by {
        if d >= 10 {
            assert(p == s);
            assert(s[0] == crate::text::digit_char(d / 10));
            assert(s[1] == crate::text::digit_char(d % 10));
        } else {
            assert(p == seq![' '] + s);
            assert(s[0] == crate::text::digit_char(d));
            assert(p[1] == s[0]);
        }
    }
}

proof fn lemma_sgr_code(c: char)
    requires
        c != 'm',
    ensures
        visible_width(seq![esc(), '[', c, 'm']) == 0,
        !in_escape_after(seq![esc(), '[', c, 'm']),
{
    let s1 = seq![esc()];
    let s2 = s1.push('[');
    let s3 = s2.push(c);
    let s4 = s3.push('m');
    assert(s1.drop_last() =~= Seq::<char>::empty());
    assert(s1.len() == 1 && s1.last() == esc());
    assert(!in_escape_after(Seq::<char>::empty()) && visible_width(Seq::<char>::empty()) == 0);
    assert(s2.drop_last() =~= s1);
    assert(s3.drop_last() =~= s2);
    assert(s4.drop_last() =~= s3);
    assert(in_escape_after(s1) && visible_width(s1) == 0);
    assert(in_escape_after(s2) && visible_width(s2) == 0);
    assert(in_escape_after(s3) && visible_width(s3) == 0);
    assert(s4 =~= seq![esc(), '[', c, 'm']);
}

/// A day's cell is two columns wide, highlighted or not.
pub proof fn lemma_day_cell_width(d: int, highlighted: bool)
    requires
        1 <= d <= 30,
    ensures
        visible_width(day_cell(d, highlighted)) == 2,
        !in_escape_after(day_cell(d, highlighted)),
{
    lemma_day_digits(d);
    let digits = pad_left(decimal(d as nat), 2, ' ');
    lemma_plain_width(digits);
    if highlighted {
        reveal_strlit("\x1b[7m");
        reveal_strlit("\x1b[0m");
        let on = reverse_on();
        let off = reverse_off();
        assert(on =~= seq![esc(), '[', '7', 'm']);
        assert(off =~= seq![esc(), '[', '0', 'm']);
        lemma_sgr_code('7');
        lemma_sgr_code('0');
        lemma_width_concat(on, digits);
        lemma_width_concat(on + digits, off);
        assert(day_cell(d, highlighted) == on + digits + off);
    }
}

proof fn lemma_slot_width(l: MonthLayout, p: int)
    requires
        layout_ok(l),
    ensures
        visible_width(slot_text(l, p)) == 2,
        !in_escape_after(slot_text(l, p)),
{
    if slot_in_month(l, p) {
        let d = p - l.lead + 1;
        lemma_day_cell_width(d, l.color && l.today == Some((l.year, l.month, d as u8)));
    } else {
        reveal_strlit("  ");
        assert(plain("  "@));
        lemma_plain_width("  "@);
    }
}

proof fn lemma_row_prefix_width(l: MonthLayout, r: int, j: int)
    requires
        layout_ok(l),
        0 <= j <= 7,
    ensures
        visible_width(row_prefix(l, r, j)) == if j == 7 { 20 + (if slot_marked(l, 7 * r + 6) { 1int } else { 0 }) } else { 3 * j },
        !in_escape_after(row_prefix(l, r, j)),
    decreases j,
{
    if j > 0 {
        lemma_row_prefix_width(l, r, j - 1);
        let p = 7 * r + j - 1;
        lemma_slot_width(l, p);
        let pre = row_prefix(l, r, j - 1);
        let slot = slot_text(l, p);
        let gap = slot_gap(l, p, j - 1);
        lemma_width_concat(pre, slot);
        assert(plain(gap));
        lemma_plain_width(gap);
        lemma_width_concat(pre + slot, gap);
    }
}

/// Every week row of a month block is `COLW` columns wide, whichever day is
/// highlighted: the reverse-video escapes take no room. A row whose Saturday
/// is a marked event day carries the marker as one extra column.
pub proof fn lemma_week_line_width(l: MonthLayout, r: int)
    requires
        layout_ok(l),
    ensures
        visible_width(week_line(l, r)) == COLW + (if slot_marked(l, 7 * r + 6) { 1int } else { 0 }),
{
    lemma_row_prefix_width(l, r, 7);
    lemma_pad_to_width(row_prefix(l, r, 7), COLW as nat);
}

/// A title that fits the block and holds no escape character is centered
/// into a line exactly `COLW` columns wide.
pub proof fn lemma_title_line_width(title: Seq<char>)
    requires
        plain(title),
        title.len() <= COLW,
    ensures
        visible_width(title_line(title)) == COLW,
{
    let pad: nat = ((COLW - title.len()) / 2) as nat;
    let sp = repeat_char(' ', pad);
    assert(plain(sp));
    lemma_plain_concat(sp, title);
    lemma_plain_width(sp + title);
    lemma_pad_to_width(sp + title, COLW as nat);
}

/// Every line of a month block is `COLW` columns wide: the title (when it
/// fits and holds no escape), the weekday header, and each week row,
/// whichever day is highlighted — a row whose Saturday is a marked event
/// day carries the marker as one extra column.
pub proof fn lemma_block_lines_width(l: MonthLayout, title: Seq<char>, i: int)
    requires
        layout_ok(l),
        plain(title),
        title.len() <= COLW,
        0 <= i < layout_lines(l, title).len(),
    ensures
        visible_width(layout_lines(l, title)[i]) == COLW + (if i >= 2 && slot_marked(l, 7 * (i - 2) + 6) { 1int } else { 0 }),
{
    if i == 0 {
        lemma_title_line_width(title);
    } else if i == 1 {
        reveal_strlit("Su Mo Tu We Th Fr Sa");
        assert(plain(weekday_header()));
        lemma_plain_width(weekday_header());
    } else {
        lemma_week_line_width(l, i - 2);
        assert(layout_lines(l, title)[i] == week_line(l, i - 2));
    }
}

} // verus!

verus! {

proof fn lemma_repeat_plain(c: char, n: nat)
    requires
        c != esc(),
    ensures
        plain(repeat_char(c, n)),
{
}

proof fn lemma_padded_plain(s: Seq<char>, w: nat)
    requires
        plain(s),
    ensures
        plain(padded_to(s, w)),
{
    if visible_width(s) < w {
        lemma_repeat_plain(' ', (w - visible_width(s)) as nat);
        lemma_plain_concat(s, repeat_char(' ', (w - visible_width(s)) as nat));
    }
}

proof fn lemma_trim_plain(s: Seq<char>)
    requires
        plain(s),
    ensures
        plain(trim_trailing_spaces(s)),
    decreases s.len(),
{
    if s.len() > 0 && s.last() == ' ' {
        let s0 = s.drop_last();
        assert(plain(s0)) by {
            assert forall|i: int| 0 <= i < s0.len() implies #[trigger] s0[i] != esc() by {
                assert(s0[i] == s[i]);
            }
        }
        lemma_trim_plain(s0);
    }
}

proof fn lemma_row_prefix_plain(l: MonthLayout, r: int, j: int)
    requires
        layout_ok(l),
        !l.color,
    ensures
        plain(row_prefix(l, r, j)),
    decreases j,
{
    if j > 0 {
        lemma_row_prefix_plain(l, r, j - 1);
        let p = 7 * r + j - 1;
        let slot = slot_text(l, p);
        if slot_in_month(l, p) {
            lemma_day_digits(p - l.lead + 1);
        } else {
            reveal_strlit("  ");
        }
        assert(plain(slot));
        lemma_plain_concat(row_prefix(l, r, j - 1), slot);
        assert(plain(slot_gap(l, p, j - 1)));
        lemma_plain_concat(row_prefix(l, r, j - 1) + slot, slot_gap(l, p, j - 1));
    }
}

proof fn lemma_layout_lines_plain(l: MonthLayout, title: Seq<char>, i: int)
    requires
        layout_ok(l),
        !l.color,
        plain(title),
        0 <= i < layout_lines(l, title).len(),
    ensures
        plain(layout_lines(l, title)[i]),
{
    if i == 0 {
        let pad: nat = if title.len() < COLW { ((COLW - title.len()) / 2) as nat } else { 0 };
        lemma_repeat_plain(' ', pad);
        lemma_plain_concat(repeat_char(' ', pad), title);
        lemma_padded_plain(repeat_char(' ', pad) + title, COLW as nat);
    } else if i == 1 {
        reveal_strlit("Su Mo Tu We Th Fr Sa");
    } else {
        lemma_row_prefix_plain(l, i - 2, 7);
        lemma_padded_plain(row_prefix(l, i - 2, 7), COLW as nat);
        assert(layout_lines(l, title)[i] == week_line(l, i - 2));
    }
}

proof fn lemma_lines_text_plain(ls: Seq<Seq<char>>)
    requires
        forall|i: int| 0 <= i < ls.len() ==> plain(#[trigger] ls[i]),
    ensures
        plain(lines_text(ls)),
    decreases ls.len(),
{
    if ls.len() > 0 {
        let l0 = ls.drop_last();
        assert forall|i: int| 0 <= i < l0.len() implies plain(#[trigger] l0[i]) by {
            assert(l0[i] == ls[i]);
        }
        lemma_lines_text_plain(l0);
        assert(plain(ls[ls.len() - 1]));
        lemma_plain_concat(lines_text(l0), ls.last());
        lemma_plain_concat(lines_text(l0) + ls.last(), seq!['\n']);
    }
}

proof fn lemma_event_names_plain(k: int)
    requires
        0 <= k < 6,
    ensures
        plain(event_table()[k].name@),
{
    reveal_strlit("Islamic New Year");
    reveal_strlit("Ashura");
    reveal_strlit("Mawlid");
    reveal_strlit("Ramadan (start)");
    reveal_strlit("Eid al-Fitr");
    reveal_strlit("Eid al-Adha");
}

proof fn lemma_legend_plain(month: u8, lang: Lang, k: int)
    requires
        0 <= k <= events_of_month(event_table(), month).len(),
    ensures
        plain(legend_text(events_of_month(event_table(), month).take(k), month, lang)),
    decreases k,
{
    let evs = events_of_month(event_table(), month);
    if k > 0 {
        assert(evs.take(k).drop_last() =~= evs.take(k - 1));
        lemma_legend_plain(month, lang, k - 1);
        let e = evs[k - 1];
        assert(event_table().contains(e)) by {
            assert(evs.contains(e));
            event_table().lemma_filter_contains_rev(crate::events::in_month(month), e);
        }
        let t = choose|t: int| 0 <= t < 6 && event_table()[t] == e;
        lemma_event_names_plain(t);
        crate::text::lemma_decimal_plain(e.day as nat);
        crate::names::lemma_month_name_plain(month as int, lang);
        reveal_strlit("  ");
        reveal_strlit(" — ");
        let line = legend_line(e, month, lang);
        assert(plain(line)) by {
            lemma_plain_concat("  "@, decimal(e.day as nat));
            lemma_plain_concat("  "@ + decimal(e.day as nat), seq![' ']);
            lemma_plain_concat("  "@ + decimal(e.day as nat) + seq![' '], spec_month_name(month as int, lang));
            lemma_plain_concat("  "@ + decimal(e.day as nat) + seq![' '] + spec_month_name(month as int, lang), " — "@);
            lemma_plain_concat("  "@ + decimal(e.day as nat) + seq![' '] + spec_month_name(month as int, lang) + " — "@, e.name@);
            lemma_plain_concat("  "@ + decimal(e.day as nat) + seq![' '] + spec_month_name(month as int, lang) + " — "@ + e.name@, seq!['\n']);
        }
        lemma_plain_concat(legend_text(evs.take(k - 1), month, lang), line);
    }
}

} // verus!

verus! {

/// `s` with its ANSI escape sequences (from `ESC` up to and including the
/// next `m`) taken out: what a terminal shows of it.
pub open spec fn strip_escapes(s: Seq<char>) -> Seq<char>
    decreases s.len(),
{
    if s.len() == 0 {
        seq![]
    } else if in_escape_after(s.drop_last()) || s.last() == esc() {
        strip_escapes(s.drop_last())
    } else {
        strip_escapes(s.drop_last()).push(s.last())
    }
}

proof fn lemma_strip_len(s: Seq<char>)
    ensures
        strip_escapes(s).len() == visible_width(s),
    decreases s.len(),
{
    if s.len() > 0 {
        lemma_strip_len(s.drop_last());
    }
}

proof fn lemma_strip_concat(a: Seq<char>, b: Seq<char>)
    requires
        !in_escape_after(a),
    ensures
        strip_escapes(a + b) == strip_escapes(a) + strip_escapes(b),
        in_escape_after(a + b) == in_escape_after(b),
    decreases b.len(),
{
    lemma_width_concat(a, b);
    if b.len() == 0 {
        assert(a + b =~= a);
        assert(strip_escapes(a) + strip_escapes(b) =~= strip_escapes(a));
    } else {
        let b0 = b.drop_last();
        lemma_strip_concat(a, b0);
        assert((a + b).drop_last() =~= a + b0);
        assert((a + b).last() == b.last());
        if !(in_escape_after(b0) || b.last() == esc()) {
            assert((strip_escapes(a) + strip_escapes(b0)).push(b.last()) =~= strip_escapes(a) + strip_escapes(b0).push(
                b.last(),
            ));
        }
    }
}

proof fn lemma_strip_plain(s: Seq<char>)
    requires
        plain(s),
    ensures
        strip_escapes(s) == s,
        !in_escape_after(s),
    decreases s.len(),
{
    lemma_plain_width(s);
    if s.len() > 0 {
        let s0 = s.drop_last();
        assert(plain(s0)) by {
            assert forall|i: int| 0 <= i < s0.len() implies #[trigger] s0[i] != esc() by {
                assert(s0[i] == s[i]);
            }
        }
        lemma_strip_plain(s0);
        assert(s.last() == s[s.len() - 1]);
        assert(s0.push(s.last()) =~= s);
    }
}

proof fn lemma_strip_highlight(digits: Seq<char>)
    requires
        plain(digits),
    ensures
        strip_escapes(reverse_on() + digits + reverse_off()) == digits,
        !in_escape_after(reverse_on() + digits + reverse_off()),
{
    reveal_strlit("\x1b[7m");
    reveal_strlit("\x1b[0m");
    let on = reverse_on();
    let off = reverse_off();
    assert(on =~= seq![esc(), '[', '7', 'm']);
    assert(off =~= seq![esc(), '[', '0', 'm']);
    lemma_sgr_code('7');
    lemma_sgr_code('0');
    lemma_strip_len(on);
    lemma_strip_len(off);
    assert(strip_escapes(on) =~= Seq::<char>::empty());
    assert(strip_escapes(off) =~= Seq::<char>::empty());
    lemma_strip_plain(digits);
    lemma_strip_concat(on, digits);
    lemma_strip_concat(on + digits, off);
    assert(strip_escapes(on) + strip_escapes(digits) =~= digits);
    assert(digits + strip_escapes(off) =~= digits);
}

/// Trimmed lines, as the single-month view prints them, do not end with a
/// space.
pub proof fn lemma_trimmed_ends_without_space(s: Seq<char>)
    ensures
        trim_trailing_spaces(s).len() == 0 || trim_trailing_spaces(s).last() != ' ',
    decreases s.len(),
{
    if s.len() > 0 && s.last() == ' ' {
        lemma_trimmed_ends_without_space(s.drop_last());
    }
}

/// Two layouts that draw the same month with the same marks.
pub open spec fn same_month_layout(a: MonthLayout, b: MonthLayout) -> bool {
    &&& a.year == b.year
    &&& a.month == b.month
    &&& a.lead == b.lead
    &&& a.total == b.total
    &&& a.marks == b.marks
}

/// No day of the layout's month is drawn highlighted.
pub open spec fn highlights_nothing(l: MonthLayout) -> bool {
    !l.color || !(l.today matches Some((y, m, _d)) && y == l.year && m == l.month)
}

proof fn lemma_slot_parts_plain(l: MonthLayout, p: int, j: int)
    ensures
        plain(slot_gap(l, p, j)),
        plain(pad_left(decimal((p - l.lead + 1) as nat), 2, ' ')),
        plain("  "@),
{
    reveal_strlit("  ");
    crate::text::lemma_decimal_plain((p - l.lead + 1) as nat);
    crate::text::lemma_pads_plain(decimal((p - l.lead + 1) as nat), 2, ' ');
}

proof fn lemma_row_prefix_strip(lc: MonthLayout, lp: MonthLayout, r: int, j: int)
    requires
        same_month_layout(lc, lp),
        highlights_nothing(lp),
    ensures
        strip_escapes(row_prefix(lc, r, j)) == row_prefix(lp, r, j),
        !in_escape_after(row_prefix(lc, r, j)),
        plain(row_prefix(lp, r, j)),
        highlights_nothing(lc) ==> row_prefix(lc, r, j) == row_prefix(lp, r, j),
    decreases j,
{
    if j <= 0 {
        assert(plain(Seq::<char>::empty()));
        lemma_strip_plain(Seq::<char>::empty());
    } else {
        lemma_row_prefix_strip(lc, lp, r, j - 1);
        let p = 7 * r + j - 1;
        let xc = row_prefix(lc, r, j - 1);
        let xp = row_prefix(lp, r, j - 1);
        let sc = slot_text(lc, p);
        let sp = slot_text(lp, p);
        let g = slot_gap(lc, p, j - 1);
        lemma_slot_parts_plain(lc, p, j - 1);
        assert(slot_gap(lp, p, j - 1) == g);
        assert(plain(sp));
        if slot_in_month(lc, p) && sc != sp {
            lemma_strip_highlight(sp);
        } else {
            assert(sc == sp);
            lemma_strip_plain(sp);
        }
        lemma_strip_plain(g);
        lemma_strip_concat(xc, sc);
        lemma_strip_concat(xc + sc, g);
        lemma_plain_concat(xp, sp);
        lemma_plain_concat(xp + sp, g);
        if highlights_nothing(lc) {
            assert(sc == sp);
        }
    }
}

proof fn lemma_week_line_strip(lc: MonthLayout, lp: MonthLayout, r: int)
    requires
        same_month_layout(lc, lp),
        highlights_nothing(lp),
    ensures
        strip_escapes(week_line(lc, r)) == week_line(lp, r),
        highlights_nothing(lc) ==> week_line(lc, r) == week_line(lp, r),
{
    let xc = row_prefix(lc, r, 7);
    let xp = row_prefix(lp, r, 7);
    lemma_row_prefix_strip(lc, lp, r, 7);
    lemma_strip_len(xc);
    lemma_plain_width(xp);
    if visible_width(xc) < COLW {
        let sp = repeat_char(' ', (COLW - visible_width(xc)) as nat);
        lemma_repeat_plain(' ', (COLW - visible_width(xc)) as nat);
        lemma_strip_plain(sp);
        lemma_strip_concat(xc, sp);
    }
}

proof fn lemma_layout_lines_strip(lc: MonthLayout, lp: MonthLayout, title: Seq<char>)
    requires
        same_month_layout(lc, lp),
        highlights_nothing(lp),
        plain(title),
    ensures
        layout_lines(lc, title).len() == layout_lines(lp, title).len(),
        forall|i: int| 0 <= i < layout_lines(lc, title).len() ==> strip_escapes(#[trigger] layout_lines(lc, title)[i])
            == layout_lines(lp, title)[i],
        highlights_nothing(lc) ==> layout_lines(lc, title) == layout_lines(lp, title),
{
    let pad: nat = if title.len() < COLW { ((COLW - title.len()) / 2) as nat } else { 0 };
    lemma_repeat_plain(' ', pad);
    lemma_plain_concat(repeat_char(' ', pad), title);
    lemma_padded_plain(repeat_char(' ', pad) + title, COLW as nat);
    lemma_strip_plain(title_line(title));
    reveal_strlit("Su Mo Tu We Th Fr Sa");
    assert(plain(weekday_header()));
    lemma_strip_plain(weekday_header());
    let ac = layout_lines(lc, title);
    let ap = layout_lines(lp, title);
    assert forall|i: int| 0 <= i < ac.len() implies strip_escapes(#[trigger] ac[i]) == ap[i] by {
        if i >= 2 {
            lemma_week_line_strip(lc, lp, i - 2);
            assert(ac[i] == week_line(lc, i - 2));
            assert(ap[i] == week_line(lp, i - 2));
        }
    }
    if highlights_nothing(lc) {
        assert forall|i: int| 0 <= i < ac.len() implies #[trigger] ac[i] == ap[i] by {
            if i >= 2 {
                lemma_week_line_strip(lc, lp, i - 2);
            }
        }
        assert(ac =~= ap);
    }
}

/// Colour adds only the highlight of today. Without colour a month block
/// does not depend on today's date; with colour, taking the escape
/// sequences out of each line gives the colourless line; and when today
/// falls outside the month, colour changes nothing.
pub proof fn lemma_colour_adds_only_highlight(
    year: i32,
    month: u8,
    today: Option<(i32, u8, u8)>,
    lang: Lang,
    single: bool,
)
    ensures
        spec_block_lines(year, month, today, lang, false, single) == spec_block_lines(year, month, None, lang, false, single),
        spec_block_lines(year, month, today, lang, true, single) matches Ok(c) ==> (spec_block_lines(
            year,
            month,
            today,
            lang,
            false,
            single,
        ) matches Ok(p) && c.len() == p.len() && forall|i: int| 0 <= i < c.len() ==> strip_escapes(#[trigger] c[i]) == p[i]),
        !(today matches Some((ty, tm, _td)) && ty == year && tm == month) ==> spec_block_lines(
            year,
            month,
            today,
            lang,
            true,
            single,
        ) == spec_block_lines(year, month, today, lang, false, single),
{
    lemma_month_title_plain(year, month, lang);
    let title = if single { month_title(year, month, lang) } else { spec_month_name(month as int, lang) };
    if let Ok(w) = spec_first_weekday(year, month) {
        let lc = block_layout(year, month, w, today, true, single);
        let lp = block_layout(year, month, w, today, false, single);
        let ln = block_layout(year, month, w, None, false, single);
        lemma_layout_lines_strip(lc, lp, title);
        lemma_layout_lines_strip(lp, ln, title);
    }
}

} // verus!

verus! {

/// A legend line of the single-month view, without its line break.
pub open spec fn legend_body(e: Event, month: u8, lang: Lang) -> Seq<char> {
    "  "@ + decimal(e.day as nat) + seq![' '] + spec_month_name(month as int, lang) + " — "@ + e.name@
}

/// The lines of the single-month view: the block's lines without trailing
/// spaces, then one legend line per event of the month, in table order.
pub open spec fn grid_lines(b: Seq<Seq<char>>, month: u8, lang: Lang) -> Seq<Seq<char>> {
    b.map_values(|l: Seq<char>| trim_trailing_spaces(l)) + events_of_month(event_table(), month).map_values(
        |e: Event| legend_body(e, month, lang),
    )
}

proof fn lemma_lines_text_concat(a: Seq<Seq<char>>, b: Seq<Seq<char>>)
    ensures
        lines_text(a + b) == lines_text(a) + lines_text(b),
    decreases b.len(),
{
    if b.len() == 0 {
        assert(a + b =~= a);
        assert(lines_text(a) + lines_text(b) =~= lines_text(a));
    } else {
        lemma_lines_text_concat(a, b.drop_last());
        assert((a + b).drop_last() =~= a + b.drop_last());
        assert((a + b).last() == b.last());
        assert(lines_text(a) + lines_text(b.drop_last()) + b.last() + seq!['\n'] =~= lines_text(a) + (lines_text(
            b.drop_last(),
        ) + b.last() + seq!['\n']));
    }
}

proof fn lemma_legend_as_lines(evs: Seq<Event>, month: u8, lang: Lang)
    ensures
        legend_text(evs, month, lang) == lines_text(evs.map_values(|e: Event| legend_body(e, month, lang))),
    decreases evs.len(),
{
    let ls = evs.map_values(|e: Event| legend_body(e, month, lang));
    if evs.len() > 0 {
        lemma_legend_as_lines(evs.drop_last(), month, lang);
        assert(ls.drop_last() =~= evs.drop_last().map_values(|e: Event| legend_body(e, month, lang)));
        assert(legend_line(evs.last(), month, lang) =~= legend_body(evs.last(), month, lang) + seq!['\n']);
        assert(ls.last() == legend_body(evs.last(), month, lang));
    } else {
        assert(ls =~= Seq::<Seq<char>>::empty());
    }
}

proof fn lemma_trim_keeps(s: Seq<char>)
    requires
        crate::text::no_newline(s),
    ensures
        crate::text::no_newline(trim_trailing_spaces(s)),
    decreases s.len(),
{
    if s.len() > 0 && s.last() == ' ' {
        let s0 = s.drop_last();
        assert forall|i: int| 0 <= i < s0.len() implies #[trigger] s0[i] != '\n' by {
            assert(s0[i] == s[i]);
        }
        lemma_trim_keeps(s0);
    }
}

proof fn lemma_padded_no_newline(s: Seq<char>, w: nat)
    requires
        crate::text::no_newline(s),
    ensures
        crate::text::no_newline(padded_to(s, w)),
{
    if visible_width(s) < w {
        let sp = repeat_char(' ', (w - visible_width(s)) as nat);
        assert(crate::text::no_newline(sp));
        crate::text::lemma_no_newline_concat(s, sp);
    }
}

proof fn lemma_row_prefix_no_newline(l: MonthLayout, r: int, j: int)
    ensures
        crate::text::no_newline(row_prefix(l, r, j)),
    decreases j,
{
    if j > 0 {
        lemma_row_prefix_no_newline(l, r, j - 1);
        let p = 7 * r + j - 1;
        let st = slot_text(l, p);
        reveal_strlit("  ");
        if slot_in_month(l, p) {
            let d = p - l.lead + 1;
            crate::text::lemma_numeral_no_newline(d, 2);
            let digits = pad_left(decimal(d as nat), 2, ' ');
            reveal_strlit("\x1b[7m");
            reveal_strlit("\x1b[0m");
            assert(crate::text::no_newline(reverse_on()));
            assert(crate::text::no_newline(reverse_off()));
            crate::text::lemma_no_newline_concat(reverse_on(), digits);
            crate::text::lemma_no_newline_concat(reverse_on() + digits, reverse_off());
        }
        assert(crate::text::no_newline(st));
        assert(crate::text::no_newline(slot_gap(l, p, j - 1)));
        crate::text::lemma_no_newline_concat(row_prefix(l, r, j - 1), st);
        crate::text::lemma_no_newline_concat(row_prefix(l, r, j - 1) + st, slot_gap(l, p, j - 1));
    }
}

proof fn lemma_layout_no_newline(l: MonthLayout, title: Seq<char>, i: int)
    requires
        crate::text::no_newline(title),
        0 <= i < layout_lines(l, title).len(),
    ensures
        crate::text::no_newline(layout_lines(l, title)[i]),
{
    if i == 0 {
        let pad: nat = if title.len() < COLW { ((COLW - title.len()) / 2) as nat } else { 0 };
        assert(crate::text::no_newline(repeat_char(' ', pad)));
        crate::text::lemma_no_newline_concat(repeat_char(' ', pad), title);
        lemma_padded_no_newline(repeat_char(' ', pad) + title, COLW as nat);
    } else if i == 1 {
        reveal_strlit("Su Mo Tu We Th Fr Sa");
        assert(crate::text::no_newline(weekday_header()));
    } else {
        assert(layout_lines(l, title)[i] == week_line(l, i - 2));
        lemma_row_prefix_no_newline(l, i - 2, 7);
        lemma_padded_no_newline(row_prefix(l, i - 2, 7), COLW as nat);
    }
}

proof fn lemma_event_name_shape(t: int)
    requires
        0 <= t < 6,
    ensures
        event_table()[t].name@.len() > 0,
        event_table()[t].name@.last() != ' ',
        crate::text::no_newline(event_table()[t].name@),
{
    reveal_strlit("Islamic New Year");
    reveal_strlit("Ashura");
    reveal_strlit("Mawlid");
    reveal_strlit("Ramadan (start)");
    reveal_strlit("Eid al-Fitr");
    reveal_strlit("Eid al-Adha");
}

proof fn lemma_legend_body_shape(e: Event, month: u8, lang: Lang)
    requires
        event_table().contains(e),
    ensures
        crate::text::no_newline(legend_body(e, month, lang)),
        legend_body(e, month, lang).last() != ' ',
{
    let t = choose|t: int| 0 <= t < 6 && event_table()[t] == e;
    lemma_event_name_shape(t);
    crate::text::lemma_numeral_no_newline(e.day as int, 0);
    crate::names::lemma_month_name_plain(month as int, lang);
    reveal_strlit("  ");
    reveal_strlit(" — ");
    assert(crate::text::no_newline("  "@));
    assert(crate::text::no_newline(seq![' ']));
    assert(crate::text::no_newline(" — "@));
    let a = "  "@ + decimal(e.day as nat) + seq![' '] + spec_month_name(month as int, lang) + " — "@;
    crate::text::lemma_no_newline_concat("  "@, decimal(e.day as nat));
    crate::text::lemma_no_newline_concat("  "@ + decimal(e.day as nat), seq![' ']);
    crate::text::lemma_no_newline_concat("  "@ + decimal(e.day as nat) + seq![' '], spec_month_name(month as int, lang));
    crate::text::lemma_no_newline_concat(
        "  "@ + decimal(e.day as nat) + seq![' '] + spec_month_name(month as int, lang),
        " — "@,
    );
    crate::text::lemma_no_newline_concat(a, e.name@);
    assert((a + e.name@).last() == e.name@.last());
}

/// The single-month view is its lines, each followed by a line break: the
/// block's lines without trailing spaces, then one legend line per event of
/// the month, in table order. It ends with a line break, and no line holds
/// a line break or ends with a space, so it has exactly as many lines as the
/// block and the legend together.
pub proof fn lemma_month_grid_lines(
    year: i32,
    month: u8,
    today: Option<(i32, u8, u8)>,
    lang: Lang,
    color: bool,
    b: Seq<Seq<char>>,
)
    requires
        spec_block_lines(year, month, today, lang, color, true) == Ok::<Seq<Seq<char>>, EngineError>(b),
    ensures
        spec_month_grid(year, month, today, lang, color) == Ok::<Seq<char>, EngineError>(
            lines_text(grid_lines(b, month, lang)),
        ),
        grid_lines(b, month, lang).len() == b.len() + events_of_month(event_table(), month).len(),
        forall|k: int|
            0 <= k < events_of_month(event_table(), month).len() ==> grid_lines(b, month, lang)[b.len() + k]
                == legend_body(#[trigger] events_of_month(event_table(), month)[k], month, lang),
        forall|i: int|
            0 <= i < grid_lines(b, month, lang).len() ==> crate::text::no_newline(
                #[trigger] grid_lines(b, month, lang)[i],
            ) && (grid_lines(b, month, lang)[i].len() == 0 || grid_lines(b, month, lang)[i].last() != ' '),
        lines_text(grid_lines(b, month, lang)).len() > 0,
        lines_text(grid_lines(b, month, lang)).last() == '\n',
{
    let evs = events_of_month(event_table(), month);
    let tb = b.map_values(|l: Seq<char>| trim_trailing_spaces(l));
    let lg = evs.map_values(|e: Event| legend_body(e, month, lang));
    let gl = grid_lines(b, month, lang);
    assert(gl == tb + lg);
    lemma_legend_as_lines(evs, month, lang);
    lemma_lines_text_concat(tb, lg);
    let w = spec_first_weekday(year, month)->Ok_0;
    let l = block_layout(year, month, w, today, color, true);
    let title = month_title(year, month, lang);
    assert(b == layout_lines(l, title));
    crate::names::lemma_month_name_plain(month as int, lang);
    crate::text::lemma_numeral_no_newline(year as int, 0);
    assert(crate::text::no_newline(seq![' ']));
    crate::text::lemma_no_newline_concat(spec_month_name(month as int, lang), seq![' ']);
    crate::text::lemma_no_newline_concat(spec_month_name(month as int, lang) + seq![' '], int_text(year as int));
    assert forall|i: int| 0 <= i < gl.len() implies crate::text::no_newline(#[trigger] gl[i]) && (gl[i].len() == 0
        || gl[i].last() != ' ') by {
        if i < b.len() {
            assert(gl[i] == trim_trailing_spaces(b[i]));
            lemma_layout_no_newline(l, title, i);
            lemma_trim_keeps(b[i]);
            lemma_trimmed_ends_without_space(b[i]);
        } else {
            let e = evs[i - b.len()];
            assert(gl[i] == legend_body(e, month, lang));
            assert(event_table().contains(e)) by {
                assert(evs.contains(e));
                event_table().lemma_filter_contains_rev(crate::events::in_month(month), e);
            }
            lemma_legend_body_shape(e, month, lang);
        }
    }
    assert(gl.len() >= 2);
    assert(lines_text(gl) == lines_text(gl.drop_last()) + gl.last() + seq!['\n']);
}

} // verus!

verus! {

/// The two columns that show day `d` in a week row.
pub open spec fn day_digits(d: int) -> Seq<char> {
    pad_left(decimal(d as nat), 2, ' ')
}

/// Whether `today` is a day of the given Hijri month.
pub open spec fn today_in_month(year: i32, month: u8, today: Option<(i32, u8, u8)>) -> bool {
    today matches Some((ty, tm, d)) && ty == year && tm == month && 1 <= d <= spec_days_in_hijri_month(year, month)
}

/// The grid slot (counted from Sunday of the first week) of day `d`.
pub open spec fn day_slot(year: i32, month: u8, d: u8) -> int {
    spec_first_weekday(year, month)->Ok_0 + d - 1
}

/// Day `d`'s cell, starting at character `k` of line `i`, shows in `p` as
/// its two plain columns and in `c` as the same columns in reverse video;
/// every other line is the same in both and holds no escape character.
pub open spec fn highlighted_once(c: Seq<Seq<char>>, p: Seq<Seq<char>>, i: int, k: int, d: int) -> bool {
    &&& c.len() == p.len()
    &&& 0 <= i < c.len()
    &&& 0 <= k && k + 2 <= p[i].len()
    &&& p[i].subrange(k, k + 2) == day_digits(d)
    &&& plain(p[i])
    &&& c[i] == p[i].take(k) + reverse_on() + day_digits(d) + reverse_off() + p[i].skip(k + 2)
    &&& forall|t: int| 0 <= t < c.len() && t != i ==> #[trigger] c[t] == p[t] && plain(c[t])
}

/// Whether grid slot `q` is drawn in reverse video.
spec fn slot_lit(l: MonthLayout, q: int) -> bool {
    l.color && slot_in_month(l, q) && l.today == Some((l.year, l.month, (q - l.lead + 1) as u8))
}

proof fn lemma_row_prefix_unlit(lc: MonthLayout, lp: MonthLayout, r: int, j: int)
    requires
        same_month_layout(lc, lp),
        highlights_nothing(lp),
        forall|q: int| 7 * r <= q < 7 * r + j ==> !#[trigger] slot_lit(lc, q),
    ensures
        row_prefix(lc, r, j) == row_prefix(lp, r, j),
    decreases j,
{
    if j > 0 {
        lemma_row_prefix_unlit(lc, lp, r, j - 1);
        assert(!slot_lit(lc, 7 * r + j - 1));
    }
}

proof fn lemma_row_prefix_len(lp: MonthLayout, r: int, j: int)
    requires
        highlights_nothing(lp),
        lp.total <= 30,
        0 <= j <= 6,
    ensures
        row_prefix(lp, r, j).len() == 3 * j,
    decreases j,
{
    if j > 0 {
        lemma_row_prefix_len(lp, r, j - 1);
        let q = 7 * r + j - 1;
        reveal_strlit("  ");
        if slot_in_month(lp, q) {
            lemma_day_digits(q - lp.lead + 1);
        }
    }
}

#[verifier::spinoff_prover]
#[verifier::rlimit(40)]
proof fn lemma_row_prefix_lit(lc: MonthLayout, lp: MonthLayout, r: int, j: int, p0: int) -> (parts: (Seq<char>, Seq<char>))
    requires
        same_month_layout(lc, lp),
        highlights_nothing(lp),
        lc.total <= 30,
        7 * r <= p0 < 7 * r + j,
        slot_lit(lc, p0),
        forall|q: int| 7 * r <= q < 7 * r + j && q != p0 ==> !#[trigger] slot_lit(lc, q),
    ensures
        parts.0 == row_prefix(lp, r, p0 - 7 * r),
        plain(parts.0),
        plain(parts.1),
        row_prefix(lc, r, j) == parts.0 + reverse_on() + day_digits(p0 - lc.lead + 1) + reverse_off() + parts.1,
        row_prefix(lp, r, j) == parts.0 + day_digits(p0 - lc.lead + 1) + parts.1,
    decreases j,
{
    let q = 7 * r + j - 1;
    let dig = day_digits(p0 - lc.lead + 1);
    let g = slot_gap(lc, q, j - 1);
    lemma_slot_parts_plain(lc, q, j - 1);
    lemma_slot_parts_plain(lc, p0, 0);
    assert(slot_gap(lp, q, j - 1) == g);
    lemma_row_prefix_strip(lc, lp, r, j - 1);
    if q == p0 {
        lemma_row_prefix_unlit(lc, lp, r, j - 1);
        let pre = row_prefix(lp, r, j - 1);
        assert(slot_text(lc, q) == reverse_on() + dig + reverse_off());
        assert(slot_text(lp, q) == dig);
        assert(row_prefix(lc, r, j) =~= pre + reverse_on() + dig + reverse_off() + g);
        assert(row_prefix(lp, r, j) =~= pre + dig + g);
        (pre, g)
    } else {
        let (pre, suf0) = lemma_row_prefix_lit(lc, lp, r, j - 1, p0);
        assert(!slot_lit(lc, q));
        let s = slot_text(lp, q);
        assert(slot_text(lc, q) == s);
        assert(plain(s));
        lemma_plain_concat(suf0, s);
        lemma_plain_concat(suf0 + s, g);
        assert(row_prefix(lc, r, j) =~= pre + reverse_on() + dig + reverse_off() + (suf0 + s + g));
        assert(row_prefix(lp, r, j) =~= pre + dig + (suf0 + s + g));
        (pre, suf0 + s + g)
    }
}

proof fn lemma_week_line_plain(lp: MonthLayout, r: int)
    requires
        highlights_nothing(lp),
    ensures
        plain(week_line(lp, r)),
{
    lemma_row_prefix_strip(lp, lp, r, 7);
    lemma_padded_plain(row_prefix(lp, r, 7), COLW as nat);
}

/// With colour on, today's day is drawn in reverse video exactly once when
/// it is a day of the month shown, and nothing is otherwise: the block
/// differs from the colourless one only in the line of today's week, where
/// today's two columns are wrapped in the reverse-video codes, and every
/// other line holds no escape character.
#[verifier::spinoff_prover]
#[verifier::rlimit(50)]
pub proof fn lemma_highlight_once(
    year: i32,
    month: u8,
    today: Option<(i32, u8, u8)>,
    lang: Lang,
    single: bool,
    c: Seq<Seq<char>>,
    p: Seq<Seq<char>>,
)
    requires
        spec_block_lines(year, month, today, lang, true, single) == Ok::<Seq<Seq<char>>, EngineError>(c),
        spec_block_lines(year, month, today, lang, false, single) == Ok::<Seq<Seq<char>>, EngineError>(p),
    ensures
        today_in_month(year, month, today) ==> (today matches Some((_ty, _tm, d)) ==> highlighted_once(
            c,
            p,
            2 + day_slot(year, month, d) / 7,
            3 * (day_slot(year, month, d) % 7),
            d as int,
        )),
        !today_in_month(year, month, today) ==> c == p && forall|t: int| 0 <= t < c.len() ==> plain(#[trigger] c[t]),
{
    let w = spec_first_weekday(year, month)->Ok_0;
    let lc = block_layout(year, month, w, today, true, single);
    let lp = block_layout(year, month, w, today, false, single);
    let title = if single { month_title(year, month, lang) } else { spec_month_name(month as int, lang) };
    lemma_month_title_plain(year, month, lang);
    assert(c == layout_lines(lc, title));
    assert(p == layout_lines(lp, title));
    assert(lc.total <= 30);
    lemma_layout_lines_strip(lc, lp, title);
    let pad: nat = if title.len() < COLW { ((COLW - title.len()) / 2) as nat } else { 0 };
    lemma_repeat_plain(' ', pad);
    lemma_plain_concat(repeat_char(' ', pad), title);
    lemma_padded_plain(repeat_char(' ', pad) + title, COLW as nat);
    reveal_strlit("Su Mo Tu We Th Fr Sa");
    assert(plain(weekday_header()));
    if today_in_month(year, month, today) {
        let d = today->Some_0.2;
        let p0 = w + d - 1;
        let r0 = p0 / 7;
        let j0 = p0 % 7;
        let i0 = 2 + r0;
        assert(slot_lit(lc, p0));
        assert forall|q: int| q != p0 implies !#[trigger] slot_lit(lc, q) by {
            if slot_lit(lc, q) {
                assert(1 <= q - w + 1 <= 30);
            }
        }
        assert(r0 < week_count(lc));
        let (pre, suf) = lemma_row_prefix_lit(lc, lp, r0, 7, p0);
        lemma_row_prefix_len(lp, r0, j0);
        let xc = row_prefix(lc, r0, 7);
        let xp = row_prefix(lp, r0, 7);
        let dig = day_digits(d as int);
        lemma_row_prefix_strip(lc, lp, r0, 7);
        lemma_strip_len(xc);
        lemma_plain_width(xp);
        lemma_slot_parts_plain(lc, p0, 0);
        let suf2 = if visible_width(xc) < COLW {
            suf + repeat_char(' ', (COLW - visible_width(xc)) as nat)
        } else {
            suf
        };
        if visible_width(xc) < COLW {
            lemma_repeat_plain(' ', (COLW - visible_width(xc)) as nat);
            lemma_plain_concat(suf, repeat_char(' ', (COLW - visible_width(xc)) as nat));
        }
        assert(c[i0] == week_line(lc, r0));
        assert(p[i0] == week_line(lp, r0));
        assert(c[i0] =~= pre + reverse_on() + dig + reverse_off() + suf2);
        assert(p[i0] =~= pre + dig + suf2);
        let k = 3 * j0;
        assert(pre.len() == k);
        lemma_day_digits(d as int);
        assert(p[i0].take(k) =~= pre);
        assert(p[i0].subrange(k, k + 2) =~= dig);
        assert(p[i0].skip(k + 2) =~= suf2);
        lemma_week_line_plain(lp, r0);
        assert forall|t: int| 0 <= t < c.len() && t != i0 implies #[trigger] c[t] == p[t] && plain(c[t]) by {
            if t >= 2 {
                lemma_row_prefix_unlit(lc, lp, t - 2, 7);
                lemma_week_line_plain(lp, t - 2);
            }
        }
        assert(day_slot(year, month, d) == p0);
    } else {
        assert forall|q: int| !#[trigger] slot_lit(lc, q) by {
            if slot_lit(lc, q) {
                assert(1 <= q - w + 1 <= 30);
            }
        }
        assert forall|t: int| 0 <= t < c.len() implies #[trigger] c[t] == p[t] && plain(c[t]) by {
            if t >= 2 {
                lemma_row_prefix_unlit(lc, lp, t - 2, 7);
                lemma_week_line_plain(lp, t - 2);
            }
        }
        assert(c =~= p);
    }
}

} // verus!

verus! {

proof fn lemma_row_prefix_grows(l: MonthLayout, r: int, j: int, k: int)
    requires
        j <= k,
    ensures
        row_prefix(l, r, j).len() <= row_prefix(l, r, k).len(),
        row_prefix(l, r, k).subrange(0, row_prefix(l, r, j).len() as int) == row_prefix(l, r, j),
    decreases k - j,
{
    if j < k {
        lemma_row_prefix_grows(l, r, j, k - 1);
        if k > 0 {
            let a = row_prefix(l, r, k - 1);
            let x = row_prefix(l, r, k);
            assert(x.subrange(0, a.len() as int) =~= a);
            assert(x.subrange(0, row_prefix(l, r, j).len() as int) =~= a.subrange(
                0,
                row_prefix(l, r, j).len() as int,
            ));
        } else {
            assert(row_prefix(l, r, k) == row_prefix(l, r, j));
        }
    } else {
        assert(row_prefix(l, r, k).subrange(0, row_prefix(l, r, j).len() as int) =~= row_prefix(l, r, j));
    }
}

proof fn lemma_blank_lead(l: MonthLayout, j: int)
    requires
        0 <= j <= l.lead,
        j <= 6,
    ensures
        row_prefix(l, 0, j) == repeat_char(' ', (3 * j) as nat),
    decreases j,
{
    if j > 0 {
        lemma_blank_lead(l, j - 1);
        reveal_strlit("  ");
        assert(!slot_in_month(l, j - 1));
        assert(row_prefix(l, 0, j) =~= repeat_char(' ', (3 * j) as nat));
    }
}

/// The first day of a month is drawn in the column of its weekday: in the
/// first week row of the (colourless) block, the columns before the one of
/// day 1's weekday are blank and day 1 stands in that column. The weekday
/// is the one the conversion of day 1 of the month gives.
pub proof fn lemma_day_one_under_its_weekday(
    year: i32,
    month: u8,
    today: Option<(i32, u8, u8)>,
    lang: Lang,
    single: bool,
    b: Seq<Seq<char>>,
    g: GregorianDate,
)
    requires
        spec_block_lines(year, month, today, lang, false, single) == Ok::<Seq<Seq<char>>, EngineError>(b),
        spec_hijri_to_gregorian(year, month, 1) == Ok::<GregorianDate, EngineError>(g),
        g.weekday < 7,
    ensures
        b.len() >= 3,
        3 * g.weekday + 2 <= b[2].len(),
        b[2].take(3 * g.weekday) == repeat_char(' ', (3 * g.weekday) as nat),
        b[2].subrange(3 * g.weekday, 3 * g.weekday + 2) == day_digits(1),
{
    let w = g.weekday;
    let title = if single { month_title(year, month, lang) } else { spec_month_name(month as int, lang) };
    let l = block_layout(year, month, w, today, false, single);
    assert(spec_first_weekday(year, month) == Ok::<u8, EngineError>(w));
    assert(b == layout_lines(l, title));
    assert(week_count(l) >= 1);
    assert(b[2] == week_line(l, 0));
    if w > 0 {
        lemma_blank_lead(l, w as int);
    } else {
        assert(row_prefix(l, 0, 0) =~= repeat_char(' ', 0));
    }
    let pre = row_prefix(l, 0, w as int);
    let one = row_prefix(l, 0, w + 1);
    assert(slot_in_month(l, w as int));
    assert(slot_text(l, w as int) == day_digits(1));
    lemma_day_digits(1);
    assert(one == pre + day_digits(1) + slot_gap(l, w as int, w as int));
    lemma_row_prefix_grows(l, 0, w + 1, 7);
    let x = row_prefix(l, 0, 7);
    let line = week_line(l, 0);
    assert(line.subrange(0, x.len() as int) =~= x);
    assert(line.take(3 * w) =~= x.subrange(0, one.len() as int).take(3 * w));
    assert(one.take(3 * w) =~= pre);
    assert(line.subrange(3 * w, 3 * w + 2) =~= one.subrange(3 * w, 3 * w + 2));
    assert(one.subrange(3 * w, 3 * w + 2) =~= day_digits(1));
}

/// A Hijri month has 30 days exactly when its 30th day converts, and 29
/// otherwise.
pub proof fn lemma_month_length_is_last_convertible_day(year: i32, month: u8)
    ensures
        spec_days_in_hijri_month(year, month) == 30 <==> spec_hijri_to_gregorian(year, month, 30) is Ok,
        spec_days_in_hijri_month(year, month) == 29 <==> spec_hijri_to_gregorian(year, month, 30) is Err,
{
}

/// Each major event falls on its fixed Hijri date, named by its month: the
/// Islamic New Year on 1 Muḥarram, Ashura on 10 Muḥarram, the Mawlid on
/// 12 Rabīʿ al-Awwal, Ramadan's start on 1 Ramaḍān, Eid al-Fitr on
/// 1 Shawwāl (the month after Ramadan begins) and Eid al-Adha on
/// 10 Dhū al-Ḥijja.
pub proof fn lemma_events_fall_on_their_dates()
    ensures
        event_table().len() == 6,
        event_table()[0].name@ == "Islamic New Year"@ && event_table()[0].day == 1
            && spec_month_name(event_table()[0].month as int, Lang::En) == "Muḥarram"@,
        event_table()[1].name@ == "Ashura"@ && event_table()[1].day == 10
            && spec_month_name(event_table()[1].month as int, Lang::En) == "Muḥarram"@,
        event_table()[2].name@ == "Mawlid"@ && event_table()[2].day == 12
            && spec_month_name(event_table()[2].month as int, Lang::En) == "Rabīʿ al-Awwal"@,
        event_table()[3].name@ == "Ramadan (start)"@ && event_table()[3].day == 1
            && spec_month_name(event_table()[3].month as int, Lang::En) == "Ramaḍān"@,
        event_table()[4].name@ == "Eid al-Fitr"@ && event_table()[4].day == 1
            && spec_month_name(event_table()[4].month as int, Lang::En) == "Shawwāl"@,
        event_table()[5].name@ == "Eid al-Adha"@ && event_table()[5].day == 10
            && spec_month_name(event_table()[5].month as int, Lang::En) == "Dhū al-Ḥijja"@,
        event_table()[4].month == event_table()[3].month + 1,
        forall|k: int| 0 <= k < 6 ==> 1 <= #[trigger] event_table()[k].month <= 12,
{
}

/// Every line of every month block appears in the year view: a row of the
/// year view is as many lines long as the tallest of its three months, so
/// line `i` of each of them, for every `i` below its length, is drawn.
pub proof fn lemma_year_view_shows_every_line(
    year: i32,
    q: int,
    today: Option<(i32, u8, u8)>,
    lang: Lang,
    color: bool,
)
    ensures
        ({
            let b0 = year_view_block(year, (3 * q + 1) as u8, today, lang, color);
            let b1 = year_view_block(year, (3 * q + 2) as u8, today, lang, color);
            let b2 = year_view_block(year, (3 * q + 3) as u8, today, lang, color);
            exists|n: int|
                #![trigger quarter_lines(b0, b1, b2, n)]
                quarter_text(year, q, today, lang, color) == quarter_lines(b0, b1, b2, n) + seq!['\n']
                    && n >= b0.len() && n >= b1.len() && n >= b2.len() && (n == b0.len() || n == b1.len() || n
                    == b2.len())
        }),
{
    let b0 = year_view_block(year, (3 * q + 1) as u8, today, lang, color);
    let b1 = year_view_block(year, (3 * q + 2) as u8, today, lang, color);
    let b2 = year_view_block(year, (3 * q + 3) as u8, today, lang, color);
    let n = max3(b0.len() as int, b1.len() as int, b2.len() as int);
    assert(quarter_text(year, q, today, lang, color) == quarter_lines(b0, b1, b2, n) + seq!['\n']);
}

} // verus!
