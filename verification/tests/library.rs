use hijri::cli::{calendar_text, fmt_engine_err, parse_calendar, parse_lang, parse_month, parse_ymd, resolve_direction, Direction};
use hijri::engine::{gregorian_to_hijri, gregorian_weekday, hijri_to_gregorian, EngineError, GregorianDate, HijriDate};
use hijri::events::{events, events_in_month};
use hijri::names::{month_name, month_number, normalize, weekday_abbr, weekday_name, Lang};
use hijri::parse::{parse_i32, parse_u8};
use hijri::render::{
    date_line, days_in_hijri_month, display_width, events_list, first_weekday, month_block, month_grid, pad_to,
    year_grid, COLW,
};

#[test]
fn converts_the_readme_hijri_date() {
    let g = hijri_to_gregorian(1447, 12, 10).unwrap();
    assert_eq!(g, GregorianDate { year: 2026, month: 5, day: 27, weekday: 3 });
}

#[test]
fn conversions_round_trip() {
    for (y, m, d) in [(2026, 6, 18), (2026, 5, 27), (1990, 2, 28), (2000, 2, 29), (1882, 11, 12)] {
        let h = gregorian_to_hijri(y, m, d).unwrap();
        let g = hijri_to_gregorian(h.year, h.month, h.day).unwrap();
        assert_eq!((g.year, g.month, g.day), (y, m, d));
        assert_eq!(g.weekday, gregorian_weekday(y, m, d).unwrap());
    }
    for (y, m, d) in [(1448, 1, 3), (1447, 12, 10), (1300, 1, 1), (1, 1, 1)] {
        let g = hijri_to_gregorian(y, m, d).unwrap();
        assert_eq!(gregorian_to_hijri(g.year, g.month, g.day).unwrap(), HijriDate { year: y, month: m, day: d });
    }
}

#[test]
fn weekdays_follow_the_gregorian_calendar() {
    assert_eq!(gregorian_weekday(2026, 6, 18), Ok(4));
    assert_eq!(gregorian_weekday(1, 1, 1), Ok(1));
    assert_eq!(gregorian_weekday(2000, 2, 29), Ok(2));
    assert_eq!(gregorian_weekday(1900, 2, 29), Err(EngineError::InvalidDate { year: 1900, month: 2, day: 29 }));
}

#[test]
fn invalid_dates_are_rejected_in_both_directions() {
    assert_eq!(gregorian_to_hijri(2026, 2, 29), Err(EngineError::InvalidDate { year: 2026, month: 2, day: 29 }));
    assert_eq!(gregorian_to_hijri(10000, 1, 1), Err(EngineError::InvalidDate { year: 10000, month: 1, day: 1 }));
    assert_eq!(hijri_to_gregorian(1448, 13, 1), Err(EngineError::InvalidDate { year: 1448, month: 13, day: 1 }));
    assert_eq!(hijri_to_gregorian(1448, 1, 31), Err(EngineError::InvalidDate { year: 1448, month: 1, day: 31 }));
    assert_eq!(hijri_to_gregorian(100000, 1, 1), Err(EngineError::InvalidDate { year: 100000, month: 1, day: 1 }));
}

#[test]
fn month_lengths_are_29_or_30() {
    assert_eq!(days_in_hijri_month(1448, 9), 29);
    assert_eq!(days_in_hijri_month(1448, 2), 30);
    for m in 1..=12u8 {
        let n = days_in_hijri_month(1448, m);
        assert!(n == 29 || n == 30);
    }
    assert_eq!(first_weekday(1448, 1), Ok(2));
    assert_eq!(first_weekday(1448, 0), Err(EngineError::InvalidDate { year: 1448, month: 0, day: 1 }));
}

#[test]
fn single_month_grid_marks_event_days() {
    let g = month_grid(1448, 9, None, Lang::En, false).unwrap();
    assert_eq!(
        g,
        "    Ramaḍān 1448\nSu Mo Tu We Th Fr Sa\n    1* 2  3  4  5  6\n 7  8  9 10 11 12 13\n14 15 16 17 18 19 20\n21 22 23 24 25 26 27\n28 29\n  1 Ramaḍān — Ramadan (start)\n"
    );
}

#[test]
fn muharram_grid_in_arabic_with_highlight() {
    let g = month_grid(1448, 1, Some((1448, 1, 3)), Lang::Ar, true).unwrap();
    assert_eq!(
        g,
        "     محرم 1448\nSu Mo Tu We Th Fr Sa\n       1* 2 \x1b[7m 3\x1b[0m  4  5\n 6  7  8  9 10*11 12\n13 14 15 16 17 18 19\n20 21 22 23 24 25 26\n27 28 29\n  1 محرم — Islamic New Year\n  10 محرم — Ashura\n"
    );
}

#[test]
fn highlight_only_for_the_shown_month() {
    let g = month_grid(1448, 2, Some((1448, 1, 3)), Lang::En, true).unwrap();
    assert!(!g.contains('\x1b'));
}

#[test]
fn year_grid_layout() {
    let y = year_grid(1448, None, Lang::En, false).unwrap();
    let lines: Vec<&str> = y.lines().collect();
    assert_eq!(lines[0], "                              1448");
    assert_eq!(lines[1], "");
    assert_eq!(lines[2], "      Muḥarram               Ṣafar             Rabīʿ al-Awwal");
    assert_eq!(lines[3], "Su Mo Tu We Th Fr Sa  Su Mo Tu We Th Fr Sa  Su Mo Tu We Th Fr Sa");
    assert_eq!(lines[4], "       1  2  3  4  5            1  2  3  4                  1  2");
    assert!(y.ends_with("24 25 26 27 28 29 30\n\n"));
    assert_eq!(year_grid(-10000, None, Lang::En, false), Err(EngineError::InvalidDate { year: -10000, month: 1, day: 1 }));
}

#[test]
fn events_list_matches_the_readme() {
    let s = events_list(1448, Lang::En).unwrap();
    assert!(s.starts_with("Major events — 1448 AH\n  Islamic New Year    1 Muḥarram         2026-06-16\n  Ashura             10 Muḥarram         2026-06-25\n"));
    assert!(s.ends_with("\nNote: dates are Umm al-Qura calculated; local religious observance may differ by ±1 day.\n"));
    assert_eq!(events_list(100000, Lang::En), Err(EngineError::InvalidDate { year: 100000, month: 1, day: 1 }));
}

#[test]
fn month_block_rows_are_block_wide() {
    for m in 1..=12u8 {
        let block = month_block(1448, m, Some((1448, m, 10)), Lang::En, true).unwrap();
        assert_eq!(display_width(&block[1]), COLW);
        for line in &block[2..] {
            assert!(display_width(line) == COLW || display_width(line) == COLW + 1);
        }
    }
    assert_eq!(month_block(1448, 13, None, Lang::En, false), Err(EngineError::InvalidDate { year: 1448, month: 13, day: 1 }));
}

#[test]
fn padding_ignores_escape_sequences() {
    assert_eq!(display_width("\x1b[7m 3\x1b[0m"), 2);
    assert_eq!(pad_to("\x1b[7mab\x1b[0m", 4), "\x1b[7mab\x1b[0m  ");
    assert_eq!(pad_to("abcdef", 4), "abcdef");
    assert_eq!(display_width(&pad_to("xy", 7)), 7);
}

#[test]
fn date_line_in_arabic_and_negative_year() {
    let h = HijriDate { year: 1447, month: 12, day: 10 };
    let g = GregorianDate { year: 2026, month: 5, day: 27, weekday: 3 };
    assert_eq!(date_line(&h, &g, Lang::Ar), "10 ذو الحجة 1447 AH  (Wed, 2026-05-27)");
    let g2 = GregorianDate { year: -5, month: 1, day: 2, weekday: 0 };
    assert_eq!(date_line(&h, &g2, Lang::En), "10 Dhū al-Ḥijja 1447 AH  (Sun, -005-01-02)");
}

#[test]
fn engine_errors_read_as_invalid_dates() {
    assert_eq!(fmt_engine_err(EngineError::InvalidDate { year: 2026, month: 13, day: 99 }), "invalid date 2026-13-99");
    assert_eq!(fmt_engine_err(EngineError::InvalidDate { year: 7, month: 1, day: 2 }), "invalid date 0007-01-02");
    assert_eq!(fmt_engine_err(EngineError::InvalidDate { year: -1, month: 1, day: 2 }), "invalid date -001-01-02");
}

#[test]
fn parse_ymd_reads_back_printed_dates() {
    assert_eq!(parse_ymd("0007-01-02"), Ok((7, 1, 2)));
    assert_eq!(parse_ymd("2026-13-99"), Ok((2026, 13, 99)));
    assert_eq!(parse_ymd("+2026-06-18"), Ok((2026, 6, 18)));
    assert_eq!(parse_ymd("2026-06"), Err("expected YYYY-MM-DD, got '2026-06'".to_string()));
    assert_eq!(parse_ymd("-5-01-01"), Err("expected YYYY-MM-DD, got '-5-01-01'".to_string()));
    assert_eq!(parse_ymd("20x6-06-18"), Err("bad year in '20x6-06-18'".to_string()));
    assert_eq!(parse_ymd("2026-256-18"), Err("bad month in '2026-256-18'".to_string()));
    assert_eq!(parse_ymd("2026-06-"), Err("bad day in '2026-06-'".to_string()));
}

#[test]
fn integers_parse_like_std() {
    for s in ["0", "+7", "-7", "2147483647", "-2147483648", "2147483648", "", "+", "-", "1_0", "００", "007"] {
        assert_eq!(parse_i32(s), s.parse::<i32>().ok(), "{s:?}");
    }
    for s in ["0", "255", "256", "+9", "-0", "-1", "", "٣"] {
        assert_eq!(parse_u8(s), s.parse::<u8>().ok(), "{s:?}");
    }
}

#[test]
fn directions_and_calendar_names() {
    assert_eq!(resolve_direction(1700, None, None), Ok(Direction::FromGregorian));
    assert_eq!(resolve_direction(1699, None, None), Ok(Direction::FromHijri));
    assert_eq!(resolve_direction(2026, Some("hijri"), Some("hijri")), Ok(Direction::FromHijri));
    assert_eq!(resolve_direction(2026, None, Some("hijri")), Ok(Direction::FromGregorian));
    assert_eq!(resolve_direction(1447, None, Some("gregorian")), Ok(Direction::FromHijri));
    assert_eq!(
        resolve_direction(2026, None, Some("nonsense")),
        Err("invalid --to value 'nonsense' (expected 'gregorian' or 'hijri')".to_string())
    );
    assert_eq!(parse_calendar("from", "hijri"), Ok(true));
    assert_eq!(parse_calendar("from", "Hijri"), Err("invalid --from value 'Hijri' (expected 'gregorian' or 'hijri')".to_string()));
}

#[test]
fn months_by_name_or_number() {
    assert_eq!(parse_month("9"), Ok(9));
    assert_eq!(parse_month("Sha'ban"), Ok(8));
    assert_eq!(parse_month("Shaʿbān"), Ok(8));
    assert_eq!(parse_month("Ramaḍān"), Ok(9));
    assert_eq!(parse_month("13"), Err("'13' is not a month name or number (1-12)".to_string()));
    assert_eq!(parse_month("rabi"), Err("'rabi' is not a month name or number (1-12)".to_string()));
    assert_eq!(parse_lang("ar"), Lang::Ar);
    assert_eq!(parse_lang("AR"), Lang::En);
}

#[test]
fn every_month_key_names_its_month() {
    let keys = [
        "muharram", "safar", "rabialawwal", "rabialthani", "jumadaalula", "jumadaalakhira", "rajab", "shaban",
        "ramadan", "shawwal", "dhualqada", "dhualhijja",
    ];
    for (i, k) in keys.iter().enumerate() {
        assert_eq!(month_number(k), Some(i as u8 + 1));
    }
    assert_eq!(month_number("Rabīʿ al-Thānī"), Some(4));
    assert_eq!(month_number("Rabi' al-Thani"), Some(4));
    assert_eq!(month_number("jumada"), None);
    assert_eq!(month_number("jumada2"), Some(6));
    assert_eq!(month_number("dh"), None);
    assert_eq!(normalize("Dhū al-Ḥijja"), "dhualhijja");
    assert_eq!(normalize("ṬĀʾIF ẓ-Ī"), "taifzi");
    assert_eq!(normalize("dhualhijja"), "dhualhijja");
}

#[test]
fn printed_month_names_read_back() {
    for m in 1..=12u8 {
        assert_eq!(month_number(month_name(m, Lang::En)), Some(m));
        assert_eq!(month_number(&month_name(m, Lang::En).to_uppercase()), Some(m));
    }
    for a in 1..=12u8 {
        for b in 1..=12u8 {
            for lang in [Lang::En, Lang::Ar] {
                assert_eq!(month_name(a, lang) == month_name(b, lang), a == b);
            }
        }
    }
}

#[test]
fn names_and_events_tables() {
    assert_eq!(weekday_name(0), "Sunday");
    assert_eq!(weekday_abbr(6), "Sa");
    assert_eq!(month_name(9, Lang::Ar), "رمضان");
    let t = events();
    for w in t.windows(2) {
        assert!((w[0].month, w[0].day) < (w[1].month, w[1].day));
    }
    let dhul = events_in_month(12);
    assert_eq!(dhul.len(), 1);
    assert_eq!(dhul[0].name, "Eid al-Adha");
    assert!(events_in_month(2).is_empty());
}

#[test]
fn aliases_name_their_months() {
    let aliases = [("ramadhan", 9), ("rabi1", 3), ("rabi2", 4), ("rabialthani", 4), ("jumada1", 5), ("jumada2", 6), ("dhulhijja", 12)];
    for (a, m) in aliases {
        assert_eq!(month_number(a), Some(m));
        assert_eq!(month_number(&a.to_uppercase()), Some(m));
    }
}

#[test]
fn saturday_event_rows_carry_their_marker_past_the_block() {
    let mut saw_saturday_marker = false;
    for y in 1440..1470 {
        for m in [1u8, 3, 9, 10, 12] {
            let block = month_block(y, m, None, Lang::En, false).unwrap();
            for line in &block[2..] {
                if line.ends_with('*') {
                    saw_saturday_marker = true;
                    assert_eq!(display_width(line), COLW + 1);
                } else {
                    assert_eq!(display_width(line), COLW);
                }
            }
        }
    }
    assert!(saw_saturday_marker);
}

fn strip_escapes(s: &str) -> String {
    let mut out = String::new();
    let mut in_escape = false;
    for c in s.chars() {
        if in_escape {
            if c == 'm' {
                in_escape = false;
            }
        } else if c == '\x1b' {
            in_escape = true;
        } else {
            out.push(c);
        }
    }
    out
}

#[test]
fn colour_adds_only_the_highlight() {
    for (y, m) in [(1448, 1), (1447, 9), (1447, 12)] {
        for today in [None, Some((1448, 1, 3)), Some((1447, 9, 30)), Some((1447, 12, 10))] {
            let plain = month_block(y, m, today, Lang::En, false).unwrap();
            assert_eq!(plain, month_block(y, m, None, Lang::En, false).unwrap());
            let coloured = month_block(y, m, today, Lang::En, true).unwrap();
            assert_eq!(coloured.len(), plain.len());
            for (c, p) in coloured.iter().zip(plain.iter()) {
                assert_eq!(&strip_escapes(c), p);
            }
            let highlighted = coloured.iter().filter(|l| l.contains("\x1b[7m")).count();
            match today {
                Some((ty, tm, _)) if ty == y && tm == m => assert_eq!(highlighted, 1),
                _ => assert_eq!(coloured, plain),
            }
        }
    }
    let coloured = month_block(1448, 1, Some((1448, 1, 3)), Lang::En, true).unwrap();
    assert!(coloured.iter().any(|l| l.contains("\x1b[7m 3\x1b[0m")));
}

#[test]
fn the_last_gregorian_day_converts_and_renders() {
    let h = gregorian_to_hijri(9999, 12, 31).unwrap();
    assert!(h.year > 9600 && h.year <= 9999);
    let g = hijri_to_gregorian(h.year, h.month, h.day).unwrap();
    assert_eq!((g.year, g.month, g.day), (9999, 12, 31));
    assert!(month_grid(h.year, h.month, Some((h.year, h.month, h.day)), Lang::En, true).is_ok());
    for first in [None, Some("rajab"), Some("Dhū al-Ḥijja")] {
        assert!(calendar_text(first, None, (9999, 12, 31), Lang::En, true).is_ok());
        assert!(calendar_text(first, None, (700, 1, 1), Lang::Ar, false).is_ok());
    }
}

#[test]
fn events_list_lines_are_the_conversions() {
    for lang in [Lang::En, Lang::Ar] {
        let text = events_list(1447, lang).unwrap();
        let lines: Vec<&str> = text.lines().collect();
        assert_eq!(lines[0], "Major events — 1447 AH");
        for (k, e) in events().iter().enumerate() {
            let g = hijri_to_gregorian(1447, e.month, e.day).unwrap();
            let expected = format!(
                "  {:<18} {:>2} {:<16} {:04}-{:02}-{:02}",
                e.name,
                e.day,
                month_name(e.month, lang),
                g.year,
                g.month,
                g.day
            );
            assert_eq!(lines[1 + k], expected);
        }
        assert!(text.ends_with("\nNote: dates are Umm al-Qura calculated; local religious observance may differ by ±1 day.\n"));
    }
    assert_eq!(events_list(10000, Lang::En), Err(EngineError::InvalidDate { year: 10000, month: 1, day: 1 }));
    assert_eq!(events_list(-10000, Lang::En), Err(EngineError::InvalidDate { year: -10000, month: 1, day: 1 }));
}

#[test]
fn month_grid_is_block_then_legend() {
    for (y, m) in [(1447, 12), (1448, 1), (1447, 9), (1444, 2)] {
        for color in [false, true] {
            let today = Some((1447, 12, 10));
            let block = month_block(y, m, today, Lang::En, color).unwrap();
            let evs = events_in_month(m);
            let grid = month_grid(y, m, today, Lang::En, color).unwrap();
            assert!(grid.ends_with('\n'));
            let lines: Vec<&str> = grid.lines().collect();
            assert_eq!(lines.len(), block.len() + evs.len());
            for (i, b) in block.iter().enumerate() {
                assert_eq!(lines[i], b.trim_end_matches(' '));
            }
            for l in &lines {
                assert!(!l.ends_with(' '));
            }
            for (k, e) in evs.iter().enumerate() {
                assert_eq!(lines[block.len() + k], format!("  {} {} — {}", e.day, month_name(m, Lang::En), e.name));
            }
        }
    }
}

#[test]
fn the_highlight_appears_exactly_once() {
    let coloured = month_block(1447, 12, Some((1447, 12, 10)), Lang::En, true).unwrap();
    let escapes: usize = coloured.iter().map(|l| l.matches('\x1b').count()).sum();
    assert_eq!(escapes, 2);
    assert_eq!(coloured.iter().filter(|l| l.contains("\x1b[7m10\x1b[0m")).count(), 1);
    let outside = month_block(1447, 12, Some((1447, 11, 10)), Lang::En, true).unwrap();
    assert!(outside.iter().all(|l| !l.contains('\x1b')));
    let too_late = month_block(1447, 12, Some((1447, 12, 31)), Lang::En, true).unwrap();
    assert!(too_late.iter().all(|l| !l.contains('\x1b')));
}
