//! Years: the year an account was created, the years of its lifetime, the
//! time window of one year, and lifetime totals summed over the years.

use vstd::prelude::*;

use chrono::Datelike;

use crate::model::{ContributionsCollection, YearGqlData, YearTotals};

verus! {

// ---------------------------------------------------------------------------
// The clock
// ---------------------------------------------------------------------------

/// The number of days before January 1 of year `y` in the proleptic
/// Gregorian calendar, counted from January 1 of year 1.
pub open spec fn days_before_year(y: int) -> int {
    365 * (y - 1) + (y - 1) / 4 - (y - 1) / 100 + (y - 1) / 400
}

/// The day (January 1 of year 1 being day 1) of the instant `secs` seconds
/// after the Unix epoch; the epoch's day is 719163.
pub open spec fn epoch_day(secs: int) -> int {
    secs / 86400 + 719163
}

/// The instant `secs` seconds after the Unix epoch falls in year `y` (UTC).
pub open spec fn in_utc_year(secs: int, y: int) -> bool {
    days_before_year(y) < epoch_day(secs) <= days_before_year(y + 1)
}

/// The last year chrono can represent.
pub open spec fn last_chrono_year() -> int {
    262142
}

/// A clock reading as `unix_time` gives it.
pub open spec fn clock_reading_ok(clock: Option<(u64, u32)>) -> bool {
    clock matches Some(p) ==> p.1 < 1_000_000_000
}

/// `year` is what the clock reading `clock` gives: none when the clock is
/// before the epoch or its seconds do not fit an `i64`; else the UTC year
/// of the instant, which chrono gives whenever the nanoseconds are below a
/// billion and the year is within chrono's range.
pub open spec fn clock_gives_year(clock: Option<(u64, u32)>, year: Option<i32>) -> bool {
    match clock {
        None => year is None,
        Some(p) => if p.0 > i64::MAX {
            year is None
        } else {
            &&& year matches Some(y) ==> in_utc_year(p.0 as int, y as int) && y <= last_chrono_year()
            &&& (p.1 < 1_000_000_000 && epoch_day(p.0 as int) <= days_before_year(
                last_chrono_year() + 1,
            )) ==> year is Some
        },
    }
}

/// Reads the clock: `SystemTime::now().duration_since(UNIX_EPOCH)`, as
/// whole seconds and the nanoseconds beyond them; `None` when the clock is
/// before the Unix epoch. Claims only that the nanoseconds are below one
/// billion (as `Duration::subsec_nanos` documents). Which instant it is
/// depends on the clock and is not stated.
#[verifier::external_body]
fn unix_time() -> (t: Option<(u64, u32)>)
    ensures
        clock_reading_ok(t),
{
    std::time::SystemTime::now()
        .duration_since(std::time::UNIX_EPOCH)
        .ok()
        .map(|d| (d.as_secs(), d.subsec_nanos()))
}

/// Calls `chrono::DateTime::from_timestamp(secs, nanos)` and takes the year
/// of the result. Claims, from chrono's source, that a year it gives is the
/// proleptic Gregorian year (UTC) of the instant and at most 262142
/// (chrono's `MAX_YEAR`), and that it gives one whenever the nanoseconds
/// are below a billion and the instant is neither before the epoch nor
/// after chrono's last year.
#[verifier::external_body]
fn year_of_timestamp(secs: i64, nanos: u32) -> (year: Option<i32>)
    ensures
        year matches Some(y) ==> in_utc_year(secs as int, y as int) && y <= last_chrono_year(),
        (nanos < 1_000_000_000 && 0 <= secs && epoch_day(secs as int) <= days_before_year(
            last_chrono_year() + 1,
        )) ==> year is Some,
{
    chrono::DateTime::from_timestamp(secs, nanos).map(|t| t.year())
}

proof fn lemma_days_before_year_step(y: int)
    ensures
        days_before_year(y) + 365 <= days_before_year(y + 1),
{
}

/// Later years start later.
proof fn lemma_days_before_year_mono(a: int, b: int)
    requires
        a < b,
    ensures
        days_before_year(a) + 365 <= days_before_year(b),
    decreases b - a,
{
    lemma_days_before_year_step(b - 1);
    if a < b - 1 {
        lemma_days_before_year_mono(a, b - 1);
    }
}

/// An instant falls in one year only.
pub proof fn lemma_utc_year_unique(secs: int, y1: int, y2: int)
    requires
        in_utc_year(secs, y1),
        in_utc_year(secs, y2),
    ensures
        y1 == y2,
{
    if y1 < y2 {
        lemma_days_before_year_mono(y1, y2);
        if y1 + 1 < y2 {
            lemma_days_before_year_mono(y1 + 1, y2);
        }
    } else if y2 < y1 {
        lemma_days_before_year_mono(y2, y1);
        if y2 + 1 < y1 {
            lemma_days_before_year_mono(y2 + 1, y1);
        }
    }
}

proof fn lemma_year_after_epoch(secs: int, y: int)
    requires
        secs >= 0,
        in_utc_year(secs, y),
    ensures
        y >= 1970,
{
    assert(days_before_year(1970) == 719162);
    if y < 1970 {
        if y + 1 < 1970 {
            lemma_days_before_year_mono(y + 1, 1970);
        }
    }
}

/// The year the clock reading gives (see `clock_gives_year`).
pub fn year_from_clock(clock: Option<(u64, u32)>) -> (year: Option<i32>)
    ensures
        clock_gives_year(clock, year),
        year matches Some(y) ==> 1970 <= y <= 262142,
{
    match clock {
        None => None,
        Some((secs, nanos)) => {
            if secs > i64::MAX as u64 {
                None
            } else {
                let y = year_of_timestamp(secs as i64, nanos);
                proof {
                    if let Some(v) = y {
                        lemma_year_after_epoch(secs as int, v as int);
                    }
                }
                y
            }
        },
    }
}

// ---------------------------------------------------------------------------
// The creation year
// ---------------------------------------------------------------------------

pub open spec fn is_digit(c: char) -> bool {
    '0' <= c <= '9'
}

pub open spec fn digit_value(c: char) -> int {
    c as int - '0' as int
}

/// The year at the start of an ISO timestamp: its first four characters
/// read as a decimal integer (digits, or a sign and three digits).
pub open spec fn year_prefix(s: Seq<char>) -> Option<int> {
    if s.len() < 4 || !is_digit(s[1]) || !is_digit(s[2]) || !is_digit(s[3]) {
        None
    } else {
        let low = 100 * digit_value(s[1]) + 10 * digit_value(s[2]) + digit_value(s[3]);
        if is_digit(s[0]) {
            Some(1000 * digit_value(s[0]) + low)
        } else if s[0] == '+' {
            Some(low)
        } else if s[0] == '-' {
            Some(-low)
        } else {
            None
        }
    }
}

fn digit_of(c: char) -> (d: Option<i32>)
    ensures
        d is Some <==> is_digit(c),
        d matches Some(v) ==> v == digit_value(c),
{
    if c >= '0' && c <= '9' {
        Some((c as u32 - '0' as u32) as i32)
    } else {
        None
    }
}

/// The year at the start of an ISO timestamp such as `2015-03-07T10:00:00Z`,
/// or `None` when its first four characters are no integer.
pub fn parse_year_prefix(created_at: &str) -> (year: Option<i32>)
    ensures
        year matches Some(y) ==> year_prefix(created_at@) == Some(y as int),
        year is None ==> year_prefix(created_at@) is None,
{
    if created_at.unicode_len() < 4 {
        return None;
    }
    let d1 = digit_of(created_at.get_char(1));
    let d2 = digit_of(created_at.get_char(2));
    let d3 = digit_of(created_at.get_char(3));
    match (d1, d2, d3) {
        (Some(a), Some(b), Some(c)) => {
            let low = 100 * a + 10 * b + c;
            let c0 = created_at.get_char(0);
            match digit_of(c0) {
                Some(t) => Some(1000 * t + low),
                None => {
                    if c0 == '+' {
                        Some(low)
                    } else if c0 == '-' {
                        Some(-low)
                    } else {
                        None
                    }
                },
            }
        },
        _ => None,
    }
}

/// The year the account was created: the year at the start of its
/// creation timestamp, or else the current year. `None` only when the
/// timestamp gives no year and the clock cannot be read.
pub fn created_year(created_at: &str) -> (year: Option<i32>)
    ensures
        year_prefix(created_at@) matches Some(y) ==> year == Some(y as i32),
        year_prefix(created_at@) is None ==> exists|clock: Option<(u64, u32)>|
            clock_reading_ok(clock) && #[trigger] clock_gives_year(clock, year),
        year_prefix(created_at@) is None ==> (year matches Some(y) ==> 1970 <= y <= 262142),
{
    match parse_year_prefix(created_at) {
        Some(y) => Some(y),
        None => {
            let clock = unix_time();
            year_from_clock(clock)
        },
    }
}

// ---------------------------------------------------------------------------
// Lifetime years
// ---------------------------------------------------------------------------

/// The years `from, from + 1, ..., to` (none when `to < from`).
pub open spec fn years_between(from: int, to: int) -> Seq<int> {
    Seq::new(if to >= from { (to - from + 1) as nat } else { 0 }, |k: int| from + k)
}

/// The years `from..=to`, oldest first.
pub fn year_range(from: i32, to: i32) -> (years: Vec<i32>)
    ensures
        years@.map_values(|y: i32| y as int) == years_between(from as int, to as int),
{
    let mut years: Vec<i32> = Vec::new();
    let mut y: i64 = from as i64;
    while y <= to as i64
        invariant
            from <= y <= to as int + 1 || (y == from && to < from),
            years@.len() == y - from,
            forall|k: int| 0 <= k < years@.len() ==> #[trigger] years@[k] == from + k,
        decreases to as int + 1 - y,
    {
        years.push(y as i32);
        y = y + 1;
    }
    assert(years@.map_values(|y: i32| y as int) =~= years_between(from as int, to as int));
    years
}

/// The years from the account's creation year up to the current year, or
/// `None` when the clock cannot be read. Which year is current depends on
/// the clock: the list runs up to some year between 1970 and 262142.
pub fn lifetime_years(created_year: i32) -> (years: Option<Vec<i32>>)
    ensures
        exists|clock: Option<(u64, u32)>, now: Option<i32>|
            clock_reading_ok(clock) && #[trigger] clock_gives_year(clock, now) && match now {
                None => years is None,
                Some(y) => years matches Some(v) && v@.map_values(|x: i32| x as int)
                    == years_between(created_year as int, y as int),
            },
        years matches Some(v) ==> exists|now: int|
            1970 <= now <= 262142 && v@.map_values(|y: i32| y as int) == years_between(
                created_year as int,
                now,
            ),
{
    let clock = unix_time();
    let now = year_from_clock(clock);
    match now {
        None => None,
        Some(now) => {
            let years = year_range(created_year, now);
            assert(years@.map_values(|y: i32| y as int) == years_between(
                created_year as int,
                now as int,
            ));
            Some(years)
        },
    }
}

// ---------------------------------------------------------------------------
// Totals per year
// ---------------------------------------------------------------------------

/// The five totals of a contributions collection.
pub open spec fn totals_of(c: ContributionsCollection) -> YearTotals {
    YearTotals {
        contributions: c.contribution_calendar.total_contributions,
        commits: c.total_commit_contributions,
        prs: c.total_pull_request_contributions,
        issues: c.total_issue_contributions,
        reviews: c.total_pull_request_review_contributions,
    }
}

/// The five totals of a contributions collection.
pub fn collection_totals(c: &ContributionsCollection) -> (t: YearTotals)
    ensures
        t == totals_of(*c),
{
    YearTotals {
        contributions: c.contribution_calendar.total_contributions,
        commits: c.total_commit_contributions,
        prs: c.total_pull_request_contributions,
        issues: c.total_issue_contributions,
        reviews: c.total_pull_request_review_contributions,
    }
}

/// The totals of a one-year answer; all zero when it names no user.
pub fn year_totals(data: &Option<YearGqlData>) -> (t: YearTotals)
    ensures
        t == match data {
            Some(d) => match d.user {
                Some(u) => totals_of(u.contributions_collection),
                None => YearTotals { contributions: 0, commits: 0, prs: 0, issues: 0, reviews: 0 },
            },
            None => YearTotals { contributions: 0, commits: 0, prs: 0, issues: 0, reviews: 0 },
        },
{
    match data {
        Some(d) => match &d.user {
            Some(u) => collection_totals(&u.contributions_collection),
            None => YearTotals { contributions: 0, commits: 0, prs: 0, issues: 0, reviews: 0 },
        },
        None => YearTotals { contributions: 0, commits: 0, prs: 0, issues: 0, reviews: 0 },
    }
}

/// The sum of one total over all years.
pub open spec fn total_over(ts: Seq<YearTotals>, f: spec_fn(YearTotals) -> u32) -> int
    decreases ts.len(),
{
    if ts.len() == 0 {
        0
    } else {
        total_over(ts.drop_last(), f) + f(ts.last())
    }
}

/// `n`, or `u32::MAX` when `n` is larger.
pub open spec fn capped(n: int) -> int {
    if n > u32::MAX {
        u32::MAX as int
    } else {
        n
    }
}

proof fn lemma_total_over_nonneg(ts: Seq<YearTotals>, f: spec_fn(YearTotals) -> u32)
    ensures
        total_over(ts, f) >= 0,
    decreases ts.len(),
{
    if ts.len() > 0 {
        lemma_total_over_nonneg(ts.drop_last(), f);
    }
}

/// Each lifetime total is the sum over the years, capped at `u32::MAX`.
pub fn sum_year_totals(years: &Vec<YearTotals>) -> (t: YearTotals)
    ensures
        t.contributions == capped(total_over(years@, |y: YearTotals| y.contributions)),
        t.commits == capped(total_over(years@, |y: YearTotals| y.commits)),
        t.prs == capped(total_over(years@, |y: YearTotals| y.prs)),
        t.issues == capped(total_over(years@, |y: YearTotals| y.issues)),
        t.reviews == capped(total_over(years@, |y: YearTotals| y.reviews)),
{
    let ghost fc = |y: YearTotals| y.contributions;
    let ghost fm = |y: YearTotals| y.commits;
    let ghost fp = |y: YearTotals| y.prs;
    let ghost fi = |y: YearTotals| y.issues;
    let ghost fr = |y: YearTotals| y.reviews;
    let mut t = YearTotals { contributions: 0, commits: 0, prs: 0, issues: 0, reviews: 0 };
    let mut i: usize = 0;
    assert(years@.take(0) =~= Seq::<YearTotals>::empty());
    while i < years.len()
        invariant
            i <= years.len(),
            fc == (|y: YearTotals| y.contributions),
            fm == (|y: YearTotals| y.commits),
            fp == (|y: YearTotals| y.prs),
            fi == (|y: YearTotals| y.issues),
            fr == (|y: YearTotals| y.reviews),
            t.contributions == capped(total_over(years@.take(i as int), fc)),
            t.commits == capped(total_over(years@.take(i as int), fm)),
            t.prs == capped(total_over(years@.take(i as int), fp)),
            t.issues == capped(total_over(years@.take(i as int), fi)),
            t.reviews == capped(total_over(years@.take(i as int), fr)),
        decreases years.len() - i,
    {
        let r = years[i];
        proof {
            let p = years@.take(i as int);
            assert(years@.take(i + 1).drop_last() =~= p);
            assert(years@.take(i + 1).last() == r);
            lemma_total_over_nonneg(p, fc);
            lemma_total_over_nonneg(p, fm);
            lemma_total_over_nonneg(p, fp);
            lemma_total_over_nonneg(p, fi);
            lemma_total_over_nonneg(p, fr);
        }
        t = YearTotals {
            contributions: t.contributions.saturating_add(r.contributions),
            commits: t.commits.saturating_add(r.commits),
            prs: t.prs.saturating_add(r.prs),
            issues: t.issues.saturating_add(r.issues),
            reviews: t.reviews.saturating_add(r.reviews),
        };
        i = i + 1;
    }
    assert(years@.take(i as int) =~= years@);
    t
}

// ---------------------------------------------------------------------------
// The time window of one year
// ---------------------------------------------------------------------------

/// The character of a decimal digit.
pub open spec fn digit_char(d: int) -> char {
    (48 + d) as char
}

/// The decimal digits of `n`, most significant first.
pub open spec fn nat_digits(n: nat) -> Seq<char>
    decreases n,
{
    if n < 10 {
        seq![digit_char(n as int)]
    } else {
        nat_digits(n / 10).push(digit_char((n % 10) as int))
    }
}

/// `n` in decimal, with a minus sign when negative.
pub open spec fn decimal(n: int) -> Seq<char> {
    if n < 0 {
        seq!['-'] + nat_digits((-n) as nat)
    } else {
        nat_digits(n as nat)
    }
}

fn append_digit(s: &mut String, d: u64)
    requires
        d < 10,
    ensures
        final(s)@ == old(s)@.push(digit_char(d as int)),
{
    let digits = "0123456789";
    proof {
        reveal_strlit("0123456789");
    }
    let one = digits.substring_char(d as usize, d as usize + 1);
    proof {
        assert(digits@[d as int] == digit_char(d as int));
        assert(one@ =~= seq![digit_char(d as int)]);
    }
    s.append(one);
}

fn append_digits(s: &mut String, n: u64)
    ensures
        final(s)@ == old(s)@ + nat_digits(n as nat),
    decreases n,
{
    if n >= 10 {
        append_digits(s, n / 10);
    }
    append_digit(s, n % 10);
    proof {
        if n >= 10 {
            assert(old(s)@ + nat_digits(n as nat) =~= old(s)@ + nat_digits((n / 10) as nat) + seq![
                digit_char((n % 10) as int),
            ]);
        } else {
            assert(n % 10 == n);
        }
    }
}

/// `n` in decimal.
pub fn decimal_text(n: i32) -> (text: String)
    ensures
        text@ == decimal(n as int),
{
    let mut s = String::new();
    if n < 0 {
        let minus = "-";
        proof {
            reveal_strlit("-");
        }
        s.append(minus);
        let m: i64 = -(n as i64);
        append_digits(&mut s, m as u64);
    } else {
        append_digits(&mut s, n as u64);
    }
    s
}

/// The start of year `year` as a GraphQL `DateTime`.
pub open spec fn year_start(year: int) -> Seq<char> {
    decimal(year) + seq!['-', '0', '1', '-', '0', '1', 'T', '0', '0', ':', '0', '0', ':', '0', '0', 'Z']
}

/// The last second of year `year` as a GraphQL `DateTime`.
pub open spec fn year_end(year: int) -> Seq<char> {
    decimal(year) + seq!['-', '1', '2', '-', '3', '1', 'T', '2', '3', ':', '5', '9', ':', '5', '9', 'Z']
}

/// The `from` and `to` of the query for the totals of one year.
pub fn year_window(year: i32) -> (window: (String, String))
    ensures
        window.0@ == year_start(year as int),
        window.1@ == year_end(year as int),
{
    let start_suffix = "-01-01T00:00:00Z";
    let end_suffix = "-12-31T23:59:59Z";
    proof {
        reveal_strlit("-01-01T00:00:00Z");
        reveal_strlit("-12-31T23:59:59Z");
    }
    let mut from = decimal_text(year);
    from.append(start_suffix);
    let mut to = decimal_text(year);
    to.append(end_suffix);
    assert(from@ =~= year_start(year as int));
    assert(to@ =~= year_end(year as int));
    (from, to)
}

/// For a four-digit year, the year read back from either end of its query
/// window (as the creation year is read from a timestamp) is the year.
pub proof fn lemma_window_year_read_back(year: int)
    requires
        1000 <= year <= 9999,
    ensures
        year_prefix(year_start(year)) == Some(year),
        year_prefix(year_end(year)) == Some(year),
{
    let y1 = year / 10;
    let y2 = y1 / 10;
    let y3 = y2 / 10;
    assert(100 <= y1 <= 999);
    assert(10 <= y2 <= 99);
    assert(1 <= y3 <= 9);
    reveal_with_fuel(nat_digits, 4);
    let digits = seq![
        digit_char(y3),
        digit_char(y2 % 10),
        digit_char(y1 % 10),
        digit_char(year % 10),
    ];
    assert(nat_digits(y2 as nat) =~= seq![digit_char(y3), digit_char(y2 % 10)]);
    assert(nat_digits(y1 as nat) =~= seq![digit_char(y3), digit_char(y2 % 10), digit_char(y1 % 10)]);
    assert(nat_digits(year as nat) =~= digits);
    assert forall|k: int| 0 <= k <= 9 implies is_digit(#[trigger] digit_char(k)) && digit_value(
        digit_char(k),
    ) == k by {}
    assert(1000 * y3 + 100 * (y2 % 10) + 10 * (y1 % 10) + year % 10 == year);
    assert(year_start(year).subrange(0, 4) =~= digits);
    assert(year_end(year).subrange(0, 4) =~= digits);
    assert(year_start(year)[0] == digits[0] && year_start(year)[1] == digits[1]
        && year_start(year)[2] == digits[2] && year_start(year)[3] == digits[3]);
    assert(year_end(year)[0] == digits[0] && year_end(year)[1] == digits[1] && year_end(year)[2]
        == digits[2] && year_end(year)[3] == digits[3]);
}

/// The value of a text of decimal digits.
pub open spec fn digits_value(s: Seq<char>) -> int
    decreases s.len(),
{
    if s.len() == 0 {
        0
    } else {
        10 * digits_value(s.drop_last()) + digit_value(s.last())
    }
}

/// The decimal text of a number consists of digits, has no leading zero
/// (unless it is "0"), and reads back as the number.
pub proof fn lemma_digits_read_back(n: nat)
    ensures
        nat_digits(n).len() >= 1,
        forall|i: int| 0 <= i < nat_digits(n).len() ==> is_digit(#[trigger] nat_digits(n)[i]),
        n > 0 ==> nat_digits(n)[0] != '0',
        digits_value(nat_digits(n)) == n,
    decreases n,
{
    if n >= 10 {
        lemma_digits_read_back(n / 10);
        let d = nat_digits(n);
        assert(d.drop_last() =~= nat_digits(n / 10));
        assert forall|i: int| 0 <= i < d.len() implies is_digit(#[trigger] d[i]) by {
            if i < d.len() - 1 {
                assert(d[i] == nat_digits(n / 10)[i]);
            }
        }
        assert(d[0] == nat_digits(n / 10)[0]);
        assert(d.last() == digit_char((n % 10) as int));
        assert(digit_value(digit_char((n % 10) as int)) == n % 10);
        assert(10 * (n / 10) + n % 10 == n);
        assert(d.len() > 0);
        assert(digits_value(d) == 10 * digits_value(d.drop_last()) + digit_value(d.last()));
        assert(digits_value(d.drop_last()) == n / 10);
    } else {
        let d = nat_digits(n);
        assert(d.drop_last() =~= Seq::<char>::empty());
        assert(digit_value(digit_char(n as int)) == n);
        assert(digits_value(d) == 10 * digits_value(d.drop_last()) + digit_value(d.last()));
    }
}

/// The text of a negative number is a minus sign before the digits of its
/// magnitude; that of another number is its digits.
pub proof fn lemma_decimal_sign(n: int)
    ensures
        n < 0 ==> decimal(n)[0] == '-' && decimal(n).drop_first() == nat_digits((-n) as nat),
        n >= 0 ==> decimal(n) == nat_digits(n as nat),
{
    if n < 0 {
        assert((seq!['-'] + nat_digits((-n) as nat)).drop_first() =~= nat_digits((-n) as nat));
    }
}

/// The years of a lifetime run from the first year to the last, one by
/// one, and none when the last is before the first.
pub proof fn lemma_years_between(from: int, to: int)
    ensures
        to >= from ==> years_between(from, to).len() == to - from + 1 && years_between(from, to)[0]
            == from && years_between(from, to).last() == to,
        to < from ==> years_between(from, to).len() == 0,
        forall|k: int|
            0 <= k < years_between(from, to).len() - 1 ==> #[trigger] years_between(from, to)[k + 1]
                == years_between(from, to)[k] + 1,
{
}

/// A lifetime total grows by each year's total, starting from zero, and the
/// shown total is that sum or `u32::MAX` when the sum is larger.
pub proof fn lemma_lifetime_sums(ts: Seq<YearTotals>, t: YearTotals, f: spec_fn(YearTotals) -> u32, n: int)
    ensures
        total_over(Seq::<YearTotals>::empty(), f) == 0,
        total_over(ts.push(t), f) == total_over(ts, f) + f(t),
        n <= u32::MAX ==> capped(n) == n,
        n > u32::MAX ==> capped(n) == u32::MAX,
{
    assert(ts.push(t).drop_last() =~= ts);
}

/// The totals of a collection are its five counts, field by field.
pub proof fn lemma_totals_of_fields(c: ContributionsCollection)
    ensures
        totals_of(c).contributions == c.contribution_calendar.total_contributions,
        totals_of(c).commits == c.total_commit_contributions,
        totals_of(c).prs == c.total_pull_request_contributions,
        totals_of(c).issues == c.total_issue_contributions,
        totals_of(c).reviews == c.total_pull_request_review_contributions,
{
}

} // verus!
