use hijri::cli::{respond, Cli, Command, Reply};

const TODAY: (i32, u8, u8) = (2026, 6, 18);

fn cli(command: Option<Command>, target: Option<&str>) -> Cli {
    Cli {
        command,
        target: target.map(|s| s.to_string()),
        method: "umm-al-qura".to_string(),
        json: false,
        lang: "en".to_string(),
        no_color: false,
    }
}

fn cal(first: Option<&str>, second: Option<&str>) -> Cli {
    cli(
        Some(Command::Cal { first: first.map(|s| s.to_string()), second: second.map(|s| s.to_string()) }),
        None,
    )
}

fn convert(date: &str, from: Option<&str>, to: Option<&str>) -> Cli {
    cli(
        Some(Command::Convert {
            date: date.to_string(),
            from: from.map(|s| s.to_string()),
            to: to.map(|s| s.to_string()),
        }),
        None,
    )
}

fn stdout(c: Cli) -> String {
    match respond(c, TODAY, false) {
        Ok(Reply::Print(text)) => text,
        Ok(Reply::Json { .. }) => panic!("expected text output"),
        Err(msg) => panic!("unexpected failure: {}", msg),
    }
}

fn stderr(c: Cli) -> String {
    match respond(c, TODAY, false) {
        Ok(_) => panic!("expected a failure"),
        Err(msg) => msg,
    }
}

#[test]
fn convert_gregorian_to_hijri() {
    let out = stdout(convert("2026-06-18", None, None));
    assert!(out.contains("3 Muḥarram 1448 AH"));
    assert!(out.contains("Thu, 2026-06-18"));
}

#[test]
fn convert_hijri_to_gregorian() {
    let out = stdout(convert("1447-12-10", None, None));
    assert!(out.contains("2026-05-27"));
}

#[test]
fn cal_shows_events() {
    let out = stdout(cal(Some("1"), Some("1448")));
    assert!(out.contains("Islamic New Year"));
    assert!(out.contains("Ashura"));
}

#[test]
fn events_list_has_caveat() {
    let out = stdout(cli(Some(Command::Events { year: Some(1448) }), None));
    assert!(out.contains("Eid al-Adha"));
    assert!(out.contains("may differ by ±1 day"));
}

#[test]
fn invalid_date_errors() {
    assert!(stderr(convert("2026-13-99", None, None)).contains("invalid date"));
}

#[test]
fn unsupported_method_errors() {
    let mut c = convert("2026-06-18", None, None);
    c.method = "tabular".to_string();
    assert!(stderr(c).contains("unsupported method"));
}

#[test]
fn arabic_month_name() {
    let mut c = convert("2026-06-18", None, None);
    c.lang = "ar".to_string();
    assert!(stdout(c).contains("محرم"));
}

#[test]
fn cal_out_of_range_year_errors_without_panicking() {
    assert!(stderr(cal(Some("1"), Some("100000"))).contains("invalid date"));
}

#[test]
fn events_out_of_range_year_errors_without_panicking() {
    let c = cli(Some(Command::Events { year: Some(100000) }), None);
    assert!(stderr(c).contains("invalid date"));
}

#[test]
fn convert_rejects_unknown_from_value() {
    assert!(stderr(convert("1447-12-10", Some("hijriii"), None)).contains("invalid --from value"));
}

#[test]
fn cal_single_year_shows_whole_year() {
    // One numeric arg = whole-year grid (like `cal 2026`): header + all months.
    let out = stdout(cal(Some("1448"), None));
    assert!(out.contains("1448"));
    assert!(out.contains("Muḥarram"));
    assert!(out.contains("Ramaḍān"));
    assert!(out.contains("Dhū al-Ḥijja"));
}

#[test]
fn bare_year_is_shorthand_for_cal_year() {
    let out = stdout(cli(None, Some("1448")));
    assert!(out.contains("Muḥarram"));
    assert!(out.contains("Ramaḍān"));
}

#[test]
fn cal_accepts_month_name_with_year() {
    let out = stdout(cal(Some("ramadan"), Some("1448")));
    assert!(out.contains("Ramaḍān 1448"));
    assert!(out.contains("Su Mo Tu We Th Fr Sa"));
}

#[test]
fn bare_month_name_shows_that_month() {
    assert!(stdout(cli(None, Some("rajab"))).contains("Rajab"));
}

#[test]
fn cal_month_number_and_year_still_works() {
    // Backward compatibility: two numbers = <month> <year>.
    assert!(stdout(cal(Some("9"), Some("1448"))).contains("Ramaḍān 1448"));
}

#[test]
fn cal_ambiguous_month_name_errors() {
    assert!(stderr(cal(Some("rabi"), Some("1448"))).contains("not a month name or number"));
}

#[test]
fn today_is_the_default_command() {
    assert_eq!(stdout(cli(None, None)), "3 Muḥarram 1448 AH  (Thu, 2026-06-18)\n");
}

#[test]
fn json_flag_hands_back_the_dates() {
    let mut c = convert("2026-06-18", None, None);
    c.json = true;
    match respond(c, TODAY, false) {
        Ok(Reply::Json { hijri, gregorian, .. }) => {
            assert_eq!((hijri.year, hijri.month, hijri.day), (1448, 1, 3));
            assert_eq!((gregorian.year, gregorian.month, gregorian.day, gregorian.weekday), (2026, 6, 18, 4));
        }
        _ => panic!("expected dates for JSON"),
    }
}

#[test]
fn convert_to_hijri_forces_gregorian_input() {
    // --to hijri: the input is Gregorian even though the year is below 1700.
    let out = stdout(convert("1447-12-10", None, Some("hijri")));
    assert!(out.ends_with(", 1447-12-10)\n"));
}

#[test]
fn cal_without_arguments_shows_the_current_month_highlighted() {
    let out = match respond(cal(None, None), TODAY, true) {
        Ok(Reply::Print(t)) => t,
        _ => panic!("expected text"),
    };
    assert!(out.starts_with("   Muḥarram 1448\n"));
    assert!(out.contains("\x1b[7m 3\x1b[0m"));
    let plain = stdout(cal(None, None));
    assert!(!plain.contains('\x1b'));
}

#[test]
fn no_color_flag_wins_over_the_terminal() {
    let mut c = cal(None, None);
    c.no_color = true;
    match respond(c, TODAY, true) {
        Ok(Reply::Print(t)) => assert!(!t.contains('\x1b')),
        _ => panic!("expected text"),
    }
}

#[test]
fn events_without_year_uses_the_current_hijri_year() {
    let out = stdout(cli(Some(Command::Events { year: None }), None));
    assert!(out.starts_with("Major events — 1448 AH\n"));
}

#[test]
fn cal_one_unknown_word_errors() {
    assert_eq!(stderr(cal(Some("xyz"), None)), "'xyz' is not a month name or year");
    assert_eq!(stderr(cal(Some("ramadan"), Some("14x8"))), "invalid year '14x8'");
}

#[test]
fn nothing_printed_without_colour_holds_an_escape() {
    let commands = vec![
        cal(None, None),
        cal(Some("2026"), None),
        cal(Some("1448"), None),
        cal(Some("ramadan"), Some("1447")),
        cli(None, None),
        convert("2026-06-18", None, None),
        cli(Some(Command::Events { year: None }), None),
        cli(Some(Command::Events { year: Some(1447) }), None),
    ];
    for mut c in commands {
        c.no_color = true;
        match respond(c, TODAY, true) {
            Ok(Reply::Print(text)) => assert!(!text.contains('\x1b')),
            Ok(Reply::Json { .. }) => panic!("expected text output"),
            Err(msg) => panic!("unexpected failure: {}", msg),
        }
    }
}

#[test]
fn month_by_name_or_number_gives_the_same_calendar() {
    for (name, number) in [("ramadan", "9"), ("Dhū al-Ḥijja", "12"), ("Rabīʿ al-Thānī", "4"), ("muh", "1")] {
        assert_eq!(stdout(cal(Some(name), Some("1448"))), stdout(cal(Some(number), Some("1448"))));
    }
}

#[test]
fn printed_month_names_work_as_cal_arguments() {
    let out = stdout(cal(Some("Shaʿbān"), Some("1447")));
    assert!(out.contains("Shaʿbān 1447"));
}
