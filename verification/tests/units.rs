use hijri::cli::{parse_ymd, resolve_direction, Direction};
use hijri::engine::{gregorian_to_hijri, EngineError, GregorianDate, HijriDate};
use hijri::events::{events, events_in_month};
use hijri::names::{month_name, month_number, weekday_name, Lang};
use hijri::render::{
    date_line, display_width, events_list, month_block, month_grid, year_grid, COLW,
};

#[test]
fn parses_iso_date() {
    assert_eq!(parse_ymd("2026-06-18").unwrap(), (2026, 6, 18));
}

#[test]
fn rejects_garbage_date() {
    assert!(parse_ymd("hello").is_err());
    assert!(parse_ymd("2026/06/18").is_err());
}

#[test]
fn direction_defaults_by_year() {
    assert!(matches!(resolve_direction(2026, None, None).unwrap(), Direction::FromGregorian));
    assert!(matches!(resolve_direction(1447, None, None).unwrap(), Direction::FromHijri));
    assert!(matches!(resolve_direction(1447, Some("gregorian"), None).unwrap(), Direction::FromGregorian));
}

#[test]
fn direction_rejects_unknown_calendar() {
    assert!(resolve_direction(1447, Some("hijriii"), None).is_err());
    assert!(resolve_direction(2026, None, Some("nonsense")).is_err());
}

#[test]
fn converts_known_gregorian_date() {
    // Verified against ICU4X 2.2: 2026-06-18 -> 1448-01-03
    let h = gregorian_to_hijri(2026, 6, 18).unwrap();
    assert_eq!(h, HijriDate { year: 1448, month: 1, day: 3 });
}

#[test]
fn rejects_invalid_gregorian_date() {
    let err = gregorian_to_hijri(2026, 13, 1).unwrap_err();
    assert_eq!(err, EngineError::InvalidDate { year: 2026, month: 13, day: 1 });
}

#[test]
fn eid_al_adha_is_dhul_hijja_10() {
    let e = events().iter().find(|e| e.name == "Eid al-Adha").unwrap();
    assert_eq!((e.month, e.day), (12, 10));
}

#[test]
fn muharram_has_two_events() {
    assert_eq!(events_in_month(1).len(), 2);
}

#[test]
fn month_one_is_muharram() {
    assert_eq!(month_name(1, Lang::En), "Muḥarram");
    assert_eq!(month_name(1, Lang::Ar), "محرم");
}

#[test]
fn month_twelve_is_dhul_hijja() {
    assert_eq!(month_name(12, Lang::En), "Dhū al-Ḥijja");
}

#[test]
fn weekday_four_is_thursday() {
    assert_eq!(weekday_name(4), "Thursday");
}

#[test]
fn month_number_exact_and_caseinsensitive() {
    assert_eq!(month_number("Muharram"), Some(1));
    assert_eq!(month_number("ramadan"), Some(9));
    assert_eq!(month_number("RAJAB"), Some(7));
}

#[test]
fn month_number_unique_prefix() {
    assert_eq!(month_number("muh"), Some(1));
    assert_eq!(month_number("shaw"), Some(10));
}

#[test]
fn month_number_aliases() {
    assert_eq!(month_number("ramadhan"), Some(9));
    assert_eq!(month_number("rabi2"), Some(4));
    assert_eq!(month_number("dhul-hijja"), Some(12));
}

#[test]
fn month_number_ambiguous_or_unknown_is_none() {
    assert_eq!(month_number("rabi"), None); // ambiguous: al-Awwal vs al-Thani
    assert_eq!(month_number("xyz"), None);
    assert_eq!(month_number(""), None);
}

#[test]
fn grid_has_title_and_weekday_header() {
    let g = month_grid(1448, 1, None, Lang::En, false).unwrap();
    assert!(g.contains("Muḥarram 1448"));
    assert!(g.contains("Su Mo Tu We Th Fr Sa"));
}

#[test]
fn grid_lists_events_for_muharram() {
    let g = month_grid(1448, 1, None, Lang::En, false).unwrap();
    assert!(g.contains("Islamic New Year"));
    assert!(g.contains("Ashura"));
}

#[test]
fn grid_highlights_today_with_ansi_when_color_on() {
    let g = month_grid(1448, 1, Some((1448, 1, 3)), Lang::En, true).unwrap();
    assert!(g.contains("\x1b[7m 3\x1b[0m"));
}

#[test]
fn grid_no_ansi_when_color_off() {
    let g = month_grid(1448, 1, Some((1448, 1, 3)), Lang::En, false).unwrap();
    assert!(!g.contains('\x1b'));
}

#[test]
fn grid_week_rows_stay_aligned_with_highlight() {
    // The reverse-video "today" cell must not change the visible width of
    // its week row, so the calendar columns stay aligned.
    let block = month_block(1448, 1, Some((1448, 1, 3)), Lang::En, true).unwrap();
    for line in &block {
        assert_eq!(display_width(line), COLW, "line not {COLW} wide: {line:?}");
    }
}

#[test]
fn grid_errors_on_out_of_range_year_instead_of_panicking() {
    assert!(month_grid(100000, 1, None, Lang::En, false).is_err());
}

#[test]
fn year_grid_shows_all_twelve_months_and_header() {
    let y = year_grid(1448, None, Lang::En, false).unwrap();
    assert!(y.contains("1448"));
    for m in 1..=12u8 {
        assert!(
            y.contains(month_name(m, Lang::En)),
            "missing month {}",
            month_name(m, Lang::En)
        );
    }
}

#[test]
fn year_grid_errors_on_out_of_range_year() {
    assert!(year_grid(100000, None, Lang::En, false).is_err());
}

#[test]
fn lists_all_events_with_caveat() {
    let s = events_list(1448, Lang::En).unwrap();
    assert!(s.contains("Eid al-Adha"));
    assert!(s.contains("Ramadan (start)"));
    assert!(s.contains("may differ by ±1 day"));
}

#[test]
fn errors_on_out_of_range_year_instead_of_panicking() {
    assert!(events_list(100000, Lang::En).is_err());
}

#[test]
fn formats_date_line() {
    let h = HijriDate { year: 1448, month: 1, day: 3 };
    let g = GregorianDate { year: 2026, month: 6, day: 18, weekday: 4 };
    assert_eq!(date_line(&h, &g, Lang::En), "3 Muḥarram 1448 AH  (Thu, 2026-06-18)");
}
