//! Hijri month and weekday names, and parsing of month names typed by users.

use vstd::prelude::*;

use crate::text::{chars_equal, chars_of, has_prefix, string_from_chars};

verus! {

/// Output language for names.
#[derive(Debug, Clone, Copy, PartialEq, Eq, Structural)]
pub enum Lang {
    /// English transliteration (e.g. "Muḥarram").
    En,
    /// Arabic script (e.g. "مُحَرَّم").
    Ar,
}

/// English transliterated name of Hijri month `m` (1-based).
pub open spec fn month_name_en(m: int) -> Seq<char> {
    if m == 1 { "Muḥarram"@ }
    else if m == 2 { "Ṣafar"@ }
    else if m == 3 { "Rabīʿ al-Awwal"@ }
    else if m == 4 { "Rabīʿ al-Thānī"@ }
    else if m == 5 { "Jumādā al-Ūlā"@ }
    else if m == 6 { "Jumādā al-Ākhira"@ }
    else if m == 7 { "Rajab"@ }
    else if m == 8 { "Shaʿbān"@ }
    else if m == 9 { "Ramaḍān"@ }
    else if m == 10 { "Shawwāl"@ }
    else if m == 11 { "Dhū al-Qaʿda"@ }
    else { "Dhū al-Ḥijja"@ }
}

/// Arabic-script name of Hijri month `m` (1-based).
pub open spec fn month_name_ar(m: int) -> Seq<char> {
    if m == 1 { "محرم"@ }
    else if m == 2 { "صفر"@ }
    else if m == 3 { "ربيع الأول"@ }
    else if m == 4 { "ربيع الآخر"@ }
    else if m == 5 { "جمادى الأولى"@ }
    else if m == 6 { "جمادى الآخرة"@ }
    else if m == 7 { "رجب"@ }
    else if m == 8 { "شعبان"@ }
    else if m == 9 { "رمضان"@ }
    else if m == 10 { "شوال"@ }
    else if m == 11 { "ذو القعدة"@ }
    else { "ذو الحجة"@ }
}

/// Name of Hijri month `m` (1-based) in `lang`.
pub open spec fn spec_month_name(m: int, lang: Lang) -> Seq<char> {
    match lang {
        Lang::En => month_name_en(m),
        Lang::Ar => month_name_ar(m),
    }
}

/// English weekday name, index 0 = Sunday .. 6 = Saturday.
pub open spec fn spec_weekday_name(i: int) -> Seq<char> {
    if i == 0 { "Sunday"@ }
    else if i == 1 { "Monday"@ }
    else if i == 2 { "Tuesday"@ }
    else if i == 3 { "Wednesday"@ }
    else if i == 4 { "Thursday"@ }
    else if i == 5 { "Friday"@ }
    else { "Saturday"@ }
}

/// Two-letter weekday header for the calendar grid, index 0 = Sunday.
pub open spec fn spec_weekday_abbr(i: int) -> Seq<char> {
    if i == 0 { "Su"@ }
    else if i == 1 { "Mo"@ }
    else if i == 2 { "Tu"@ }
    else if i == 3 { "We"@ }
    else if i == 4 { "Th"@ }
    else if i == 5 { "Fr"@ }
    else { "Sa"@ }
}

/// Name of a Hijri month. `month` is 1-based.
pub fn month_name(month: u8, lang: Lang) -> (res: &'static str)
    requires
        1 <= month <= 12,
    ensures
        res@ == spec_month_name(month as int, lang),
{
    match lang {
        Lang::En => {
            if month == 1 { "Muḥarram" }
            else if month == 2 { "Ṣafar" }
            else if month == 3 { "Rabīʿ al-Awwal" }
            else if month == 4 { "Rabīʿ al-Thānī" }
            else if month == 5 { "Jumādā al-Ūlā" }
            else if month == 6 { "Jumādā al-Ākhira" }
            else if month == 7 { "Rajab" }
            else if month == 8 { "Shaʿbān" }
            else if month == 9 { "Ramaḍān" }
            else if month == 10 { "Shawwāl" }
            else if month == 11 { "Dhū al-Qaʿda" }
            else { "Dhū al-Ḥijja" }
        },
        Lang::Ar => {
            if month == 1 { "محرم" }
            else if month == 2 { "صفر" }
            else if month == 3 { "ربيع الأول" }
            else if month == 4 { "ربيع الآخر" }
            else if month == 5 { "جمادى الأولى" }
            else if month == 6 { "جمادى الآخرة" }
            else if month == 7 { "رجب" }
            else if month == 8 { "شعبان" }
            else if month == 9 { "رمضان" }
            else if month == 10 { "شوال" }
            else if month == 11 { "ذو القعدة" }
            else { "ذو الحجة" }
        },
    }
}

/// Name of a weekday. `index` is 0 = Sunday .. 6 = Saturday.
pub fn weekday_name(index: u8) -> (res: &'static str)
    requires
        index < 7,
    ensures
        res@ == spec_weekday_name(index as int),
{
    if index == 0 { "Sunday" }
    else if index == 1 { "Monday" }
    else if index == 2 { "Tuesday" }
    else if index == 3 { "Wednesday" }
    else if index == 4 { "Thursday" }
    else if index == 5 { "Friday" }
    else { "Saturday" }
}

/// Two-letter weekday header for the calendar grid, index 0 = Sunday.
pub fn weekday_abbr(index: u8) -> (res: &'static str)
    requires
        index < 7,
    ensures
        res@ == spec_weekday_abbr(index as int),
{
    if index == 0 { "Su" }
    else if index == 1 { "Mo" }
    else if index == 2 { "Tu" }
    else if index == 3 { "We" }
    else if index == 4 { "Th" }
    else if index == 5 { "Fr" }
    else { "Sa" }
}

} // verus!

verus! {

/// ASCII letter or digit.
pub open spec fn is_ascii_alnum(c: char) -> bool {
    ('0' <= c && c <= '9') || ('a' <= c && c <= 'z') || ('A' <= c && c <= 'Z')
}

/// ASCII lower-casing; other characters are unchanged.
pub open spec fn ascii_lower(c: char) -> char {
    if 'A' <= c && c <= 'Z' { ((c as int) + 32) as char } else { c }
}

/// The plain Latin letter under a letter with a macron or an underdot, as
/// the transliterated month names write them (ā ī ū ḥ ṣ ḍ ṭ ẓ, either case);
/// other characters are unchanged.
pub open spec fn base_letter(c: char) -> char {
    if c == '\u{101}' { 'a' }
    else if c == '\u{100}' { 'A' }
    else if c == '\u{12b}' { 'i' }
    else if c == '\u{12a}' { 'I' }
    else if c == '\u{16b}' { 'u' }
    else if c == '\u{16a}' { 'U' }
    else if c == '\u{1e25}' { 'h' }
    else if c == '\u{1e24}' { 'H' }
    else if c == '\u{1e63}' { 's' }
    else if c == '\u{1e62}' { 'S' }
    else if c == '\u{1e0d}' { 'd' }
    else if c == '\u{1e0c}' { 'D' }
    else if c == '\u{1e6d}' { 't' }
    else if c == '\u{1e6c}' { 'T' }
    else if c == '\u{1e93}' { 'z' }
    else if c == '\u{1e92}' { 'Z' }
    else { c }
}

/// `s` with those diacritics stripped, lower-cased, keeping only ASCII
/// letters and digits.
pub open spec fn normalized(s: Seq<char>) -> Seq<char>
    decreases s.len(),
{
    if s.len() == 0 {
        seq![]
    } else {
        let rest = normalized(s.drop_last());
        let c = base_letter(s.last());
        if is_ascii_alnum(c) { rest.push(ascii_lower(c)) } else { rest }
    }
}

/// Canonical ASCII key of month `i + 1` (letters only, lowercase).
pub open spec fn month_key(i: int) -> Seq<char> {
    if i == 0 { "muharram"@ }
    else if i == 1 { "safar"@ }
    else if i == 2 { "rabialawwal"@ }
    else if i == 3 { "rabialthani"@ }
    else if i == 4 { "jumadaalula"@ }
    else if i == 5 { "jumadaalakhira"@ }
    else if i == 6 { "rajab"@ }
    else if i == 7 { "shaban"@ }
    else if i == 8 { "ramadan"@ }
    else if i == 9 { "shawwal"@ }
    else if i == 10 { "dhualqada"@ }
    else { "dhualhijja"@ }
}

/// Alternate spelling number `j` (0..7) that users type for a month.
pub open spec fn alias_key(j: int) -> Seq<char> {
    if j == 0 { "ramadhan"@ }
    else if j == 1 { "rabi1"@ }
    else if j == 2 { "rabi2"@ }
    else if j == 3 { "rabialthani"@ }
    else if j == 4 { "jumada1"@ }
    else if j == 5 { "jumada2"@ }
    else { "dhulhijja"@ }
}

/// The month that alternate spelling number `j` stands for.
pub open spec fn alias_month(j: int) -> u8 {
    if j == 0 { 9 }
    else if j == 1 { 3 }
    else if j == 2 { 4 }
    else if j == 3 { 4 }
    else if j == 4 { 5 }
    else if j == 5 { 6 }
    else { 12 }
}

/// The first month key at index `i` or later that equals `n`.
pub open spec fn key_scan(n: Seq<char>, i: int) -> Option<int>
    decreases 12 - i,
{
    if i < 0 || i >= 12 {
        None
    } else if month_key(i) == n {
        Some(i)
    } else {
        key_scan(n, i + 1)
    }
}

/// The month of the first alternate spelling at index `j` or later that equals `n`.
pub open spec fn alias_scan(n: Seq<char>, j: int) -> Option<u8>
    decreases 7 - j,
{
    if j < 0 || j >= 7 {
        None
    } else if alias_key(j) == n {
        Some(alias_month(j))
    } else {
        alias_scan(n, j + 1)
    }
}

/// Indices below `k` of the month keys that start with `n`, in order.
pub open spec fn prefix_hits(n: Seq<char>, k: int) -> Seq<int>
    decreases k,
{
    if k <= 0 {
        seq![]
    } else {
        let earlier = prefix_hits(n, k - 1);
        if crate::text::is_prefix(n, month_key(k - 1)) { earlier.push(k - 1) } else { earlier }
    }
}

/// The month a normalized name stands for: an exact key, else an alternate
/// spelling, else the one key it is a prefix of (none when it is empty,
/// unknown, or a prefix of several keys).
pub open spec fn month_number_of(n: Seq<char>) -> Option<u8> {
    if n.len() == 0 {
        None
    } else {
        match key_scan(n, 0) {
            Some(i) => Some((i + 1) as u8),
            None => match alias_scan(n, 0) {
                Some(m) => Some(m),
                None => {
                    let hits = prefix_hits(n, 12);
                    if hits.len() == 1 { Some((hits[0] + 1) as u8) } else { None }
                },
            },
        }
    }
}

fn month_key_str(i: usize) -> (res: &'static str)
    requires
        i < 12,
    ensures
        res@ == month_key(i as int),
{
    if i == 0 { "muharram" }
    else if i == 1 { "safar" }
    else if i == 2 { "rabialawwal" }
    else if i == 3 { "rabialthani" }
    else if i == 4 { "jumadaalula" }
    else if i == 5 { "jumadaalakhira" }
    else if i == 6 { "rajab" }
    else if i == 7 { "shaban" }
    else if i == 8 { "ramadan" }
    else if i == 9 { "shawwal" }
    else if i == 10 { "dhualqada" }
    else { "dhualhijja" }
}

fn alias(j: usize) -> (res: (&'static str, u8))
    requires
        j < 7,
    ensures
        res.0@ == alias_key(j as int),
        res.1 == alias_month(j as int),
{
    if j == 0 { ("ramadhan", 9) }
    else if j == 1 { ("rabi1", 3) }
    else if j == 2 { ("rabi2", 4) }
    else if j == 3 { ("rabialthani", 4) }
    else if j == 4 { ("jumada1", 5) }
    else if j == 5 { ("jumada2", 6) }
    else { ("dhulhijja", 12) }
}

fn is_alnum(c: char) -> (r: bool)
    ensures
        r == is_ascii_alnum(c),
{
    ('0' <= c && c <= '9') || ('a' <= c && c <= 'z') || ('A' <= c && c <= 'Z')
}

fn strip_diacritic(c: char) -> (r: char)
    ensures
        r == base_letter(c),
{
    if c == '\u{101}' { 'a' }
    else if c == '\u{100}' { 'A' }
    else if c == '\u{12b}' { 'i' }
    else if c == '\u{12a}' { 'I' }
    else if c == '\u{16b}' { 'u' }
    else if c == '\u{16a}' { 'U' }
    else if c == '\u{1e25}' { 'h' }
    else if c == '\u{1e24}' { 'H' }
    else if c == '\u{1e63}' { 's' }
    else if c == '\u{1e62}' { 'S' }
    else if c == '\u{1e0d}' { 'd' }
    else if c == '\u{1e0c}' { 'D' }
    else if c == '\u{1e6d}' { 't' }
    else if c == '\u{1e6c}' { 'T' }
    else if c == '\u{1e93}' { 'z' }
    else if c == '\u{1e92}' { 'Z' }
    else { c }
}

fn lower(c: char) -> (r: char)
    ensures
        r == ascii_lower(c),
{
    if 'A' <= c && c <= 'Z' {
        (((c as u32) + 32) as u8) as char
    } else {
        c
    }
}

fn normalize_chars(s: &str) -> (res: Vec<char>)
    ensures
        res@ == normalized(s@),
{
    let cs = chars_of(s);
    let mut out: Vec<char> = Vec::new();
    let mut i: usize = 0;
    while i < cs.len()
        invariant
            0 <= i <= cs.len(),
            out@ == normalized(cs@.take(i as int)),
        decreases cs.len() - i,
    {
        let c = strip_diacritic(cs[i]);
        proof {
            assert(cs@.take(i + 1).drop_last() =~= cs@.take(i as int));
            assert(cs@.take(i + 1).last() == cs[i as int]);
        }
        if is_alnum(c) {
            out.push(lower(c));
        }
        i = i + 1;
    }
    assert(cs@.take(i as int) =~= s@);
    out
}

/// Fold the macron and underdot letters of the transliteration to plain
/// Latin letters, then lowercase, keeping only ASCII alphanumerics (so
/// "Dhū al-Ḥijja", "rabi-1", and "Ramadan" normalize to comparable keys:
/// "dhualhijja", "rabi1", "ramadan").
pub fn normalize(s: &str) -> (res: String)
    ensures
        res@ == normalized(s@),
{
    let v = normalize_chars(s);
    string_from_chars(&v)
}

/// Parse a Hijri month name or abbreviation to a 1-based month number.
/// Case-insensitive, ignores diacritics and non-alphanumerics. Matches an exact key, a known
/// alias, or a unique prefix (e.g. "muh" → 1). Ambiguous prefixes like "rabi"
/// (Rabīʿ al-Awwal vs al-Thānī) return None — disambiguate with "rabi1"/"rabi2".
pub fn month_number(name: &str) -> (res: Option<u8>)
    ensures
        res == month_number_of(normalized(name@)),
        res matches Some(m) ==> 1 <= m <= 12,
{
    let n = normalize_chars(name);
    if n.len() == 0 {
        return None;
    }
    let mut i: usize = 0;
    while i < 12
        invariant
            0 <= i <= 12,
            n@.len() > 0,
            n@ == normalized(name@),
            key_scan(n@, 0) == key_scan(n@, i as int),
        decreases 12 - i,
    {
        let k = chars_of(month_key_str(i));
        if chars_equal(&k, &n) {
            assert(key_scan(n@, i as int) == Some(i as int));
            return Some((i + 1) as u8);
        }
        i = i + 1;
    }
    let mut j: usize = 0;
    while j < 7
        invariant
            0 <= j <= 7,
            n@.len() > 0,
            n@ == normalized(name@),
            key_scan(n@, 0) is None,
            alias_scan(n@, 0) == alias_scan(n@, j as int),
        decreases 7 - j,
    {
        let (a, m) = alias(j);
        let a = chars_of(a);
        if chars_equal(&a, &n) {
            assert(alias_scan(n@, j as int) == Some(m));
            return Some(m);
        }
        j = j + 1;
    }
    let mut count: usize = 0;
    let mut last: u8 = 0;
    let mut k: usize = 0;
    while k < 12
        invariant
            0 <= k <= 12,
            n@.len() > 0,
            n@ == normalized(name@),
            key_scan(n@, 0) is None,
            alias_scan(n@, 0) is None,
            count == prefix_hits(n@, k as int).len(),
            count <= k,
            count > 0 ==> last as int == prefix_hits(n@, k as int).last() + 1,
            forall|t: int| 0 <= t < prefix_hits(n@, k as int).len() ==> 0 <= #[trigger] prefix_hits(n@, k as int)[t] < k,
        decreases 12 - k,
    {
        let key = chars_of(month_key_str(k));
        if has_prefix(&key, &n) {
            count = count + 1;
            last = (k + 1) as u8;
        }
        k = k + 1;
    }
    if count == 1 {
        Some(last)
    } else {
        None
    }
}

} // verus!

verus! {

/// Month names, in either language, hold no escape character and are at
/// most 16 characters long.
pub proof fn lemma_month_name_plain(m: int, lang: Lang)
    ensures
        crate::text::plain(spec_month_name(m, lang)),
        crate::text::no_newline(spec_month_name(m, lang)),
        spec_month_name(m, lang).len() <= 16,
{
    reveal_strlit("Muḥarram");
    reveal_strlit("Ṣafar");
    reveal_strlit("Rabīʿ al-Awwal");
    reveal_strlit("Rabīʿ al-Thānī");
    reveal_strlit("Jumādā al-Ūlā");
    reveal_strlit("Jumādā al-Ākhira");
    reveal_strlit("Rajab");
    reveal_strlit("Shaʿbān");
    reveal_strlit("Ramaḍān");
    reveal_strlit("Shawwāl");
    reveal_strlit("Dhū al-Qaʿda");
    reveal_strlit("Dhū al-Ḥijja");
    reveal_strlit("محرم");
    reveal_strlit("صفر");
    reveal_strlit("ربيع الأول");
    reveal_strlit("ربيع الآخر");
    reveal_strlit("جمادى الأولى");
    reveal_strlit("جمادى الآخرة");
    reveal_strlit("رجب");
    reveal_strlit("شعبان");
    reveal_strlit("رمضان");
    reveal_strlit("شوال");
    reveal_strlit("ذو القعدة");
    reveal_strlit("ذو الحجة");
}

} // verus!

verus! {

/// Lowercase ASCII letters and digits.
pub open spec fn is_lower_key(s: Seq<char>) -> bool {
    forall|i: int| 0 <= i < s.len() ==> ('a' <= #[trigger] s[i] && s[i] <= 'z') || ('0' <= s[i] && s[i] <= '9')
}

proof fn lemma_normalized_key(s: Seq<char>)
    requires
        is_lower_key(s),
    ensures
        normalized(s) == s,
    decreases s.len(),
{
    if s.len() > 0 {
        let s0 = s.drop_last();
        assert(is_lower_key(s0)) by {
            assert forall|i: int| 0 <= i < s0.len() implies ('a' <= #[trigger] s0[i] && s0[i] <= 'z') || ('0' <= s0[i] && s0[i] <= '9') by {
                assert(s0[i] == s[i]);
            }
        }
        lemma_normalized_key(s0);
        assert(('a' <= s[s.len() - 1] && s[s.len() - 1] <= 'z') || ('0' <= s[s.len() - 1] && s[s.len() - 1] <= '9'));
        assert(s0.push(s.last()) =~= s);
    }
}

proof fn lemma_normalized_is_key(s: Seq<char>)
    ensures
        is_lower_key(normalized(s)),
    decreases s.len(),
{
    if s.len() > 0 {
        lemma_normalized_is_key(s.drop_last());
        let rest = normalized(s.drop_last());
        let c = base_letter(s.last());
        if is_ascii_alnum(c) {
            let out = rest.push(ascii_lower(c));
            assert forall|i: int| 0 <= i < out.len() implies ('a' <= #[trigger] out[i] && out[i] <= 'z') || ('0' <= out[i] && out[i] <= '9') by {
                if i < rest.len() {
                    assert(out[i] == rest[i]);
                }
            }
        }
    }
}

/// Normalizing is idempotent, so a name and its normalized key name the
/// same month.
pub proof fn lemma_normalize_idempotent(s: Seq<char>)
    ensures
        normalized(normalized(s)) == normalized(s),
        month_number_of(normalized(normalized(s))) == month_number_of(normalized(s)),
{
    lemma_normalized_is_key(s);
    lemma_normalized_key(normalized(s));
}

proof fn reveal_month_keys()
    ensures
        month_key(0) == seq!['m', 'u', 'h', 'a', 'r', 'r', 'a', 'm'],
        month_key(1) == seq!['s', 'a', 'f', 'a', 'r'],
        month_key(2) == seq!['r', 'a', 'b', 'i', 'a', 'l', 'a', 'w', 'w', 'a', 'l'],
        month_key(3) == seq!['r', 'a', 'b', 'i', 'a', 'l', 't', 'h', 'a', 'n', 'i'],
        month_key(4) == seq!['j', 'u', 'm', 'a', 'd', 'a', 'a', 'l', 'u', 'l', 'a'],
        month_key(5) == seq!['j', 'u', 'm', 'a', 'd', 'a', 'a', 'l', 'a', 'k', 'h', 'i', 'r', 'a'],
        month_key(6) == seq!['r', 'a', 'j', 'a', 'b'],
        month_key(7) == seq!['s', 'h', 'a', 'b', 'a', 'n'],
        month_key(8) == seq!['r', 'a', 'm', 'a', 'd', 'a', 'n'],
        month_key(9) == seq!['s', 'h', 'a', 'w', 'w', 'a', 'l'],
        month_key(10) == seq!['d', 'h', 'u', 'a', 'l', 'q', 'a', 'd', 'a'],
        month_key(11) == seq!['d', 'h', 'u', 'a', 'l', 'h', 'i', 'j', 'j', 'a'],
{
    reveal_strlit("muharram");
    reveal_strlit("safar");
    reveal_strlit("rabialawwal");
    reveal_strlit("rabialthani");
    reveal_strlit("jumadaalula");
    reveal_strlit("jumadaalakhira");
    reveal_strlit("rajab");
    reveal_strlit("shaban");
    reveal_strlit("ramadan");
    reveal_strlit("shawwal");
    reveal_strlit("dhualqada");
    reveal_strlit("dhualhijja");
    assert(month_key(0) =~= seq!['m', 'u', 'h', 'a', 'r', 'r', 'a', 'm']);
    assert(month_key(1) =~= seq!['s', 'a', 'f', 'a', 'r']);
    assert(month_key(2) =~= seq!['r', 'a', 'b', 'i', 'a', 'l', 'a', 'w', 'w', 'a', 'l']);
    assert(month_key(3) =~= seq!['r', 'a', 'b', 'i', 'a', 'l', 't', 'h', 'a', 'n', 'i']);
    assert(month_key(4) =~= seq!['j', 'u', 'm', 'a', 'd', 'a', 'a', 'l', 'u', 'l', 'a']);
    assert(month_key(5) =~= seq!['j', 'u', 'm', 'a', 'd', 'a', 'a', 'l', 'a', 'k', 'h', 'i', 'r', 'a']);
    assert(month_key(6) =~= seq!['r', 'a', 'j', 'a', 'b']);
    assert(month_key(7) =~= seq!['s', 'h', 'a', 'b', 'a', 'n']);
    assert(month_key(8) =~= seq!['r', 'a', 'm', 'a', 'd', 'a', 'n']);
    assert(month_key(9) =~= seq!['s', 'h', 'a', 'w', 'w', 'a', 'l']);
    assert(month_key(10) =~= seq!['d', 'h', 'u', 'a', 'l', 'q', 'a', 'd', 'a']);
    assert(month_key(11) =~= seq!['d', 'h', 'u', 'a', 'l', 'h', 'i', 'j', 'j', 'a']);
}

/// Every canonical month key, typed as it is, names its own month: the
/// keys are already normalized and no two are equal.
pub proof fn lemma_month_keys_name_their_months(i: int)
    requires
        0 <= i < 12,
    ensures
        normalized(month_key(i)) == month_key(i),
        month_number_of(normalized(month_key(i))) == Some((i + 1) as u8),
{
    reveal_month_keys();
    let k = month_key(i);
    lemma_normalized_key(k);
    assert forall|j: int| 0 <= j < i implies #[trigger] month_key(j) != k by {
        if month_key(j) == k {
            assert(month_key(j).len() == k.len());
            assert(month_key(j)[0] == k[0]);
            assert(month_key(j)[1] == k[1]);
            assert(month_key(j)[2] == k[2]);
            assert(month_key(j)[6] == k[6]);
        }
    }
    assert(key_scan(k, i) == Some(i));
    assert forall|j: int| 0 <= j <= i implies key_scan(k, j) == Some(i) by {
        lemma_key_scan_from(k, j, i);
    }
}

proof fn lemma_key_of_muharram()
    ensures
        normalized(month_name_en(1)) == month_key(0),
{
    reveal_month_keys();
    reveal_with_fuel(normalized, 9);
    reveal_strlit("Muḥarram");
}

proof fn lemma_key_of_safar()
    ensures
        normalized(month_name_en(2)) == month_key(1),
{
    reveal_month_keys();
    reveal_with_fuel(normalized, 6);
    reveal_strlit("Ṣafar");
}

proof fn lemma_key_of_rabi_al_awwal()
    ensures
        normalized(month_name_en(3)) == month_key(2),
{
    reveal_month_keys();
    reveal_with_fuel(normalized, 15);
    reveal_strlit("Rabīʿ al-Awwal");
}

proof fn lemma_key_of_rabi_al_thani()
    ensures
        normalized(month_name_en(4)) == month_key(3),
{
    reveal_month_keys();
    reveal_with_fuel(normalized, 15);
    reveal_strlit("Rabīʿ al-Thānī");
}

proof fn lemma_key_of_jumada_al_ula()
    ensures
        normalized(month_name_en(5)) == month_key(4),
{
    reveal_month_keys();
    reveal_with_fuel(normalized, 14);
    reveal_strlit("Jumādā al-Ūlā");
}

proof fn lemma_key_of_jumada_al_akhira()
    ensures
        normalized(month_name_en(6)) == month_key(5),
{
    reveal_month_keys();
    reveal_with_fuel(normalized, 17);
    reveal_strlit("Jumādā al-Ākhira");
}

proof fn lemma_key_of_rajab()
    ensures
        normalized(month_name_en(7)) == month_key(6),
{
    reveal_month_keys();
    reveal_with_fuel(normalized, 6);
    reveal_strlit("Rajab");
}

proof fn lemma_key_of_shaban()
    ensures
        normalized(month_name_en(8)) == month_key(7),
{
    reveal_month_keys();
    reveal_with_fuel(normalized, 8);
    reveal_strlit("Shaʿbān");
}

proof fn lemma_key_of_ramadan()
    ensures
        normalized(month_name_en(9)) == month_key(8),
{
    reveal_month_keys();
    reveal_with_fuel(normalized, 8);
    reveal_strlit("Ramaḍān");
}

proof fn lemma_key_of_shawwal()
    ensures
        normalized(month_name_en(10)) == month_key(9),
{
    reveal_month_keys();
    reveal_with_fuel(normalized, 8);
    reveal_strlit("Shawwāl");
}

proof fn lemma_key_of_dhu_al_qada()
    ensures
        normalized(month_name_en(11)) == month_key(10),
{
    reveal_month_keys();
    reveal_with_fuel(normalized, 13);
    reveal_strlit("Dhū al-Qaʿda");
}

proof fn lemma_key_of_dhu_al_hijja()
    ensures
        normalized(month_name_en(12)) == month_key(11),
{
    reveal_month_keys();
    reveal_with_fuel(normalized, 13);
    reveal_strlit("Dhū al-Ḥijja");
}

proof fn lemma_display_names_normalize_to_keys(m: int)
    requires
        1 <= m <= 12,
    ensures
        normalized(month_name_en(m)) == month_key(m - 1),
{
    if m == 1 {
        lemma_key_of_muharram();
    } else if m == 2 {
        lemma_key_of_safar();
    } else if m == 3 {
        lemma_key_of_rabi_al_awwal();
    } else if m == 4 {
        lemma_key_of_rabi_al_thani();
    } else if m == 5 {
        lemma_key_of_jumada_al_ula();
    } else if m == 6 {
        lemma_key_of_jumada_al_akhira();
    } else if m == 7 {
        lemma_key_of_rajab();
    } else if m == 8 {
        lemma_key_of_shaban();
    } else if m == 9 {
        lemma_key_of_ramadan();
    } else if m == 10 {
        lemma_key_of_shawwal();
    } else if m == 11 {
        lemma_key_of_dhu_al_qada();
    } else {
        lemma_key_of_dhu_al_hijja();
    }
}

/// Every English month name as the calendar prints it, typed back in,
/// names its own month.
pub proof fn lemma_month_names_read_back(m: int)
    requires
        1 <= m <= 12,
    ensures
        month_number_of(normalized(spec_month_name(m, Lang::En))) == Some(m as u8),
{
    lemma_display_names_normalize_to_keys(m);
    lemma_month_keys_name_their_months(m - 1);
}

proof fn lemma_key_scan_from(n: Seq<char>, j: int, i: int)
    requires
        0 <= j <= i < 12,
        month_key(i) == n,
        forall|t: int| 0 <= t < i ==> #[trigger] month_key(t) != n,
    ensures
        key_scan(n, j) == Some(i),
    decreases i - j,
{
    if j < i {
        lemma_key_scan_from(n, j + 1, i);
    }
}


/// No two months share a name, in either language.
pub proof fn lemma_month_names_distinct(a: int, b: int, lang: Lang)
    requires
        1 <= a <= 12,
        1 <= b <= 12,
        spec_month_name(a, lang) == spec_month_name(b, lang),
    ensures
        a == b,
{
    match lang {
        Lang::En => {
            lemma_month_names_read_back(a);
            lemma_month_names_read_back(b);
        },
        Lang::Ar => {
            if a != b {
                lemma_arabic_names_differ(a, b);
            }
        },
    }
}

proof fn lemma_arabic_names_differ(a: int, b: int)
    requires
        1 <= a <= 12,
        1 <= b <= 12,
        a != b,
    ensures
        month_name_ar(a) != month_name_ar(b),
{
    reveal_strlit("محرم");
    reveal_strlit("صفر");
    reveal_strlit("ربيع الأول");
    reveal_strlit("ربيع الآخر");
    reveal_strlit("جمادى الأولى");
    reveal_strlit("جمادى الآخرة");
    reveal_strlit("رجب");
    reveal_strlit("شعبان");
    reveal_strlit("رمضان");
    reveal_strlit("شوال");
    reveal_strlit("ذو القعدة");
    reveal_strlit("ذو الحجة");
    let x = month_name_ar(a);
    let y = month_name_ar(b);
    if x == y {
        assert(x.len() == y.len());
        assert(x[0] == y[0]);
        if x.len() >= 9 {
            assert(x[7] == y[7]);
            assert(x[8] == y[8]);
        }
        if x.len() >= 4 {
            assert(x[1] == y[1]);
        }
    }
}
} // verus!

verus! {

proof fn reveal_alias_keys()
    ensures
        alias_key(0) == seq!['r', 'a', 'm', 'a', 'd', 'h', 'a', 'n'],
        alias_key(1) == seq!['r', 'a', 'b', 'i', '1'],
        alias_key(2) == seq!['r', 'a', 'b', 'i', '2'],
        alias_key(3) == seq!['r', 'a', 'b', 'i', 'a', 'l', 't', 'h', 'a', 'n', 'i'],
        alias_key(4) == seq!['j', 'u', 'm', 'a', 'd', 'a', '1'],
        alias_key(5) == seq!['j', 'u', 'm', 'a', 'd', 'a', '2'],
        alias_key(6) == seq!['d', 'h', 'u', 'l', 'h', 'i', 'j', 'j', 'a'],
{
    reveal_strlit("ramadhan");
    reveal_strlit("rabi1");
    reveal_strlit("rabi2");
    reveal_strlit("rabialthani");
    reveal_strlit("jumada1");
    reveal_strlit("jumada2");
    reveal_strlit("dhulhijja");
    assert(alias_key(0) =~= seq!['r', 'a', 'm', 'a', 'd', 'h', 'a', 'n']);
    assert(alias_key(1) =~= seq!['r', 'a', 'b', 'i', '1']);
    assert(alias_key(2) =~= seq!['r', 'a', 'b', 'i', '2']);
    assert(alias_key(3) =~= seq!['r', 'a', 'b', 'i', 'a', 'l', 't', 'h', 'a', 'n', 'i']);
    assert(alias_key(4) =~= seq!['j', 'u', 'm', 'a', 'd', 'a', '1']);
    assert(alias_key(5) =~= seq!['j', 'u', 'm', 'a', 'd', 'a', '2']);
    assert(alias_key(6) =~= seq!['d', 'h', 'u', 'l', 'h', 'i', 'j', 'j', 'a']);
}

proof fn lemma_key_scan_none(n: Seq<char>, j: int)
    requires
        0 <= j <= 12,
        forall|t: int| 0 <= t < 12 ==> #[trigger] month_key(t) != n,
    ensures
        key_scan(n, j) is None,
    decreases 12 - j,
{
    if j < 12 {
        lemma_key_scan_none(n, j + 1);
    }
}

proof fn lemma_alias_scan_from(n: Seq<char>, j: int, i: int)
    requires
        0 <= j <= i < 7,
        alias_key(i) == n,
        forall|t: int| 0 <= t < i ==> #[trigger] alias_key(t) != n,
    ensures
        alias_scan(n, j) == Some(alias_month(i)),
    decreases i - j,
{
    if j < i {
        lemma_alias_scan_from(n, j + 1, i);
    }
}

proof fn lemma_alias_scan_none(n: Seq<char>, j: int)
    requires
        0 <= j <= 7,
        forall|t: int| 0 <= t < 7 ==> #[trigger] alias_key(t) != n,
    ensures
        alias_scan(n, j) is None,
    decreases 7 - j,
{
    if j < 7 {
        lemma_alias_scan_none(n, j + 1);
    }
}

proof fn lemma_prefix_hits_none(n: Seq<char>, k: int)
    requires
        k <= 12,
        forall|t: int| 0 <= t < 12 ==> !crate::text::is_prefix(n, #[trigger] month_key(t)),
    ensures
        prefix_hits(n, k).len() == 0,
    decreases k,
{
    if k > 0 {
        lemma_prefix_hits_none(n, k - 1);
    }
}

/// A numeral names no month: every month key and alternate spelling starts
/// with a letter, so a string of digits is none of them nor a prefix of a
/// key.
pub proof fn lemma_numerals_name_no_month(s: Seq<char>)
    requires
        s.len() > 0,
        crate::parse::all_digits(s),
    ensures
        month_number_of(normalized(s)) is None,
{
    reveal_month_keys();
    reveal_alias_keys();
    assert(is_lower_key(s)) by {
        assert forall|i: int| 0 <= i < s.len() implies ('a' <= #[trigger] s[i] && s[i] <= 'z') || ('0' <= s[i] && s[i] <= '9') by {
            assert(crate::parse::is_digit(s[i]));
        }
    }
    lemma_normalized_key(s);
    assert(crate::parse::is_digit(s[0]));
    assert forall|t: int| 0 <= t < 12 implies #[trigger] month_key(t) != s by {
        if month_key(t) == s {
            assert(month_key(t)[0] == s[0]);
        }
    }
    assert forall|t: int| 0 <= t < 7 implies #[trigger] alias_key(t) != s by {
        if alias_key(t) == s {
            assert(alias_key(t)[0] == s[0]);
        }
    }
    assert forall|t: int| 0 <= t < 12 implies !crate::text::is_prefix(s, #[trigger] month_key(t)) by {
        if crate::text::is_prefix(s, month_key(t)) {
            assert(month_key(t).subrange(0, s.len() as int)[0] == month_key(t)[0]);
        }
    }
    lemma_key_scan_none(s, 0);
    lemma_alias_scan_none(s, 0);
    lemma_prefix_hits_none(s, 12);
}

/// The month a name stands for is one of the twelve.
pub proof fn lemma_month_number_in_range(n: Seq<char>)
    ensures
        month_number_of(n) matches Some(m) ==> 1 <= m <= 12,
{
    lemma_key_scan_range(n, 0);
    lemma_alias_scan_range(n, 0);
    lemma_prefix_hits_range(n, 12);
    let hits = prefix_hits(n, 12);
    if hits.len() == 1 {
        assert(0 <= hits[0] < 12);
    }
}

proof fn lemma_key_scan_range(n: Seq<char>, i: int)
    ensures
        key_scan(n, i) matches Some(j) ==> 0 <= j < 12,
    decreases 12 - i,
{
    if 0 <= i < 12 {
        lemma_key_scan_range(n, i + 1);
    }
}

proof fn lemma_alias_scan_range(n: Seq<char>, j: int)
    ensures
        alias_scan(n, j) matches Some(m) ==> 1 <= m <= 12,
    decreases 7 - j,
{
    if 0 <= j < 7 {
        lemma_alias_scan_range(n, j + 1);
    }
}

proof fn lemma_prefix_hits_range(n: Seq<char>, k: int)
    requires
        k <= 12,
    ensures
        forall|t: int| 0 <= t < prefix_hits(n, k).len() ==> 0 <= #[trigger] prefix_hits(n, k)[t] < 12,
    decreases k,
{
    if k > 0 {
        lemma_prefix_hits_range(n, k - 1);
        let e = prefix_hits(n, k - 1);
        assert forall|t: int| 0 <= t < prefix_hits(n, k).len() implies 0 <= #[trigger] prefix_hits(n, k)[t] < 12 by {
            if t < e.len() {
                assert(prefix_hits(n, k)[t] == e[t]);
            }
        }
    }
}

/// Every alternate spelling, typed as it is, names the month it stands for.
pub proof fn lemma_aliases_name_their_months(j: int)
    requires
        0 <= j < 7,
    ensures
        month_number_of(normalized(alias_key(j))) == Some(alias_month(j)),
{
    reveal_alias_keys();
    reveal_month_keys();
    let a = alias_key(j);
    lemma_normalized_key(a);
    if j == 3 {
        lemma_month_keys_name_their_months(3);
    } else {
        assert forall|t: int| 0 <= t < 12 implies #[trigger] month_key(t) != a by {
            if month_key(t) == a {
                assert(month_key(t).len() == a.len());
                assert(month_key(t)[0] == a[0]);
                assert(month_key(t)[3] == a[3]);
                assert(month_key(t)[4] == a[4]);
                assert(month_key(t)[5] == a[5]);
            }
        }
        lemma_key_scan_none(a, 0);
        assert forall|t: int| 0 <= t < j implies #[trigger] alias_key(t) != a by {
            if alias_key(t) == a {
                assert(alias_key(t).len() == a.len());
                assert(alias_key(t)[0] == a[0]);
                assert(alias_key(t)[4] == a[4]);
                assert(alias_key(t)[6] == a[6]);
            }
        }
        lemma_alias_scan_from(a, 0, j);
    }
}

} // verus!

verus! {

/// ASCII upper-casing; other characters are unchanged.
pub open spec fn ascii_upper(c: char) -> char {
    if 'a' <= c && c <= 'z' { ((c as int) - 32) as char } else { c }
}

/// Month-name parsing ignores case: upper-casing the ASCII letters of a
/// name changes neither its normalized key nor the month it names.
pub proof fn lemma_month_number_ignores_case(s: Seq<char>)
    ensures
        normalized(s.map_values(|c: char| ascii_upper(c))) == normalized(s),
        month_number_of(normalized(s.map_values(|c: char| ascii_upper(c)))) == month_number_of(normalized(s)),
    decreases s.len(),
{
    let u = s.map_values(|c: char| ascii_upper(c));
    if s.len() > 0 {
        let s0 = s.drop_last();
        lemma_month_number_ignores_case(s0);
        assert(u.drop_last() =~= s0.map_values(|c: char| ascii_upper(c)));
        let c = s.last();
        assert(u.last() == ascii_upper(c));
        if 'a' <= c && c <= 'z' {
            assert('A' <= ascii_upper(c) && ascii_upper(c) <= 'Z');
            assert(base_letter(ascii_upper(c)) == ascii_upper(c));
            assert(base_letter(c) == c);
        } else {
            assert(ascii_upper(c) == c);
        }
        assert(is_ascii_alnum(base_letter(ascii_upper(c))) == is_ascii_alnum(base_letter(c)));
        assert(ascii_lower(base_letter(ascii_upper(c))) == ascii_lower(base_letter(c)));
    }
}

} // verus!

verus! {

/// The two-letter header of each weekday is the start of its name, and the
/// names run from Sunday to Saturday.
pub proof fn lemma_weekday_abbr_starts_name(i: int)
    requires
        0 <= i < 7,
    ensures
        spec_weekday_name(i).len() >= 3,
        spec_weekday_abbr(i) == spec_weekday_name(i).take(2),
        spec_weekday_name(0) == "Sunday"@,
        spec_weekday_name(6) == "Saturday"@,
{
    reveal_strlit("Sunday");
    reveal_strlit("Monday");
    reveal_strlit("Tuesday");
    reveal_strlit("Wednesday");
    reveal_strlit("Thursday");
    reveal_strlit("Friday");
    reveal_strlit("Saturday");
    reveal_strlit("Su");
    reveal_strlit("Mo");
    reveal_strlit("Tu");
    reveal_strlit("We");
    reveal_strlit("Th");
    reveal_strlit("Fr");
    reveal_strlit("Sa");
    assert(spec_weekday_abbr(i) =~= spec_weekday_name(i).take(2));
}

} // verus!
