use statsvg_rs::dates::{
    created_year, decimal_text, lifetime_years, year_from_clock, parse_year_prefix, sum_year_totals, year_range,
    year_totals, year_window,
};
use statsvg_rs::languages::parse_hidden_languages;
use statsvg_rs::model::{
    ContributionCalendar, ContributionsCollection, YearGqlData, YearTotals, YearUser,
};
use statsvg_rs::text::{char_is_whitespace, contains_char, contains_text, split_pieces, trim};

#[test]
fn split_pieces_keeps_empty_pieces() {
    assert_eq!(split_pieces("a,,b", ','), vec!["a", "", "b"]);
    assert_eq!(split_pieces("", ','), vec![""]);
    assert_eq!(split_pieces(",", ','), vec!["", ""]);
    assert_eq!(split_pieces("no sep", ','), vec!["no sep"]);
}

#[test]
fn trim_strips_unicode_white_space() {
    assert_eq!(trim("  Rust \t\n"), "Rust");
    assert_eq!(trim("\u{3000}Go\u{a0}"), "Go");
    assert_eq!(trim("   "), "");
    assert_eq!(trim("a b"), "a b");
}

#[test]
fn hidden_names_are_lowercased_by_unicode_rules() {
    assert_eq!(parse_hidden_languages("HTML"), vec!["html"]);
    assert_eq!(parse_hidden_languages("ÉCOLE"), vec!["école"]);
    assert_eq!(parse_hidden_languages("ΟΔΟΣ"), vec!["\u{3bf}\u{3b4}\u{3bf}\u{3c2}"]);
}

#[test]
fn contains_helpers() {
    assert!(contains_char("a?b", '?'));
    assert!(!contains_char("ab", '?'));
    let list = vec!["html".to_string(), "css".to_string()];
    assert!(contains_text(&list, &"css".to_string()));
    assert!(!contains_text(&list, &"CSS".to_string()));
}

#[test]
fn year_prefix_of_iso_timestamps() {
    assert_eq!(parse_year_prefix("2015-03-07T10:00:00Z"), Some(2015));
    assert_eq!(parse_year_prefix("0042-01-01"), Some(42));
    assert_eq!(parse_year_prefix("+123"), Some(123));
    assert_eq!(parse_year_prefix("-123abc"), Some(-123));
    assert_eq!(parse_year_prefix("201"), None);
    assert_eq!(parse_year_prefix(""), None);
    assert_eq!(parse_year_prefix("20a5-01-01"), None);
    assert_eq!(parse_year_prefix("é201"), None);
    assert_eq!(parse_year_prefix("--12"), None);
}

#[test]
fn created_year_reads_timestamp_or_clock() {
    assert_eq!(created_year("2011-01-25T18:44:36Z"), Some(2011));
    let now = created_year("unknown").unwrap();
    assert!(now >= 2024 && now <= 262142);
}

#[test]
fn year_range_is_inclusive() {
    assert_eq!(year_range(2020, 2023), vec![2020, 2021, 2022, 2023]);
    assert_eq!(year_range(2023, 2023), vec![2023]);
    assert!(year_range(2024, 2023).is_empty());
}

#[test]
fn lifetime_years_run_to_current_year() {
    let years = lifetime_years(2020).unwrap();
    assert_eq!(years[0], 2020);
    assert!(years.len() >= 5);
    for (k, y) in years.iter().enumerate() {
        assert_eq!(*y, 2020 + k as i32);
    }
    assert!(lifetime_years(300000).unwrap().is_empty());
}

#[test]
fn decimal_text_of_integers() {
    assert_eq!(decimal_text(0), "0");
    assert_eq!(decimal_text(7), "7");
    assert_eq!(decimal_text(2024), "2024");
    assert_eq!(decimal_text(-45), "-45");
    assert_eq!(decimal_text(i32::MIN), "-2147483648");
    assert_eq!(decimal_text(i32::MAX), "2147483647");
}

#[test]
fn year_window_bounds_the_year() {
    let (from, to) = year_window(2021);
    assert_eq!(from, "2021-01-01T00:00:00Z");
    assert_eq!(to, "2021-12-31T23:59:59Z");
}

#[test]
fn window_year_reads_back() {
    for y in [1000, 2008, 2024, 9999] {
        let (from, to) = year_window(y);
        assert_eq!(parse_year_prefix(&from), Some(y));
        assert_eq!(parse_year_prefix(&to), Some(y));
    }
}

fn totals(c: u32, m: u32, p: u32, i: u32, r: u32) -> YearTotals {
    YearTotals { contributions: c, commits: m, prs: p, issues: i, reviews: r }
}

#[test]
fn lifetime_totals_saturate() {
    let years = vec![totals(1, 2, 3, 4, u32::MAX - 1), totals(10, 20, 30, 40, 5)];
    assert_eq!(sum_year_totals(&years), totals(11, 22, 33, 44, u32::MAX));
    assert_eq!(sum_year_totals(&vec![]), totals(0, 0, 0, 0, 0));
}

fn collection(total: u32) -> ContributionsCollection {
    ContributionsCollection {
        total_commit_contributions: 1,
        total_pull_request_contributions: 2,
        total_issue_contributions: 3,
        total_pull_request_review_contributions: 4,
        contribution_calendar: ContributionCalendar { total_contributions: total, weeks: vec![] },
    }
}

#[test]
fn year_totals_of_answers() {
    let with_user = Some(YearGqlData {
        user: Some(YearUser { contributions_collection: collection(9) }),
    });
    assert_eq!(year_totals(&with_user), totals(9, 1, 2, 3, 4));
    assert_eq!(year_totals(&Some(YearGqlData { user: None })), totals(0, 0, 0, 0, 0));
    assert_eq!(year_totals(&None), totals(0, 0, 0, 0, 0));
}

#[test]
fn white_space_agrees_with_std_on_every_char() {
    for c in (0u32..=0x10FFFF).filter_map(char::from_u32) {
        assert_eq!(char_is_whitespace(c), c.is_whitespace(), "{:?}", c);
    }
}

#[test]
fn year_from_clock_readings() {
    assert_eq!(year_from_clock(None), None);
    assert_eq!(year_from_clock(Some((0, 0))), Some(1970));
    assert_eq!(year_from_clock(Some((1431648000, 0))), Some(2015));
    assert_eq!(year_from_clock(Some((946684799, 999_999_999))), Some(1999));
    assert_eq!(year_from_clock(Some((946684800, 0))), Some(2000));
    assert_eq!(year_from_clock(Some((951782400, 0))), Some(2000));
    assert_eq!(year_from_clock(Some((4102444799, 0))), Some(2099));
    assert_eq!(year_from_clock(Some((4102444800, 0))), Some(2100));
    assert_eq!(year_from_clock(Some((u64::MAX, 0))), None);
    assert_eq!(year_from_clock(Some((i64::MAX as u64, 0))), None);
}

// The year chrono gives is the one the library's spec describes: the day
// of the instant lies after the days before that year and within it.
fn days_before_year(y: i64) -> i64 {
    365 * (y - 1) + (y - 1).div_euclid(4) - (y - 1).div_euclid(100) + (y - 1).div_euclid(400)
}

#[test]
fn clock_year_matches_the_calendar_rule() {
    let mut secs: u64 = 0;
    while secs < 20_000_000_000 {
        let y = year_from_clock(Some((secs, 0))).unwrap() as i64;
        let day = (secs as i64).div_euclid(86400) + 719163;
        assert!(days_before_year(y) < day && day <= days_before_year(y + 1), "{secs}");
        secs += 86_400 * 37 + 12_345;
    }
}
