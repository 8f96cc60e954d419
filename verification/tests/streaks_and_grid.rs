use statsvg_rs::grid::build_grid;
use statsvg_rs::model::{ContributionCalendar, ContributionDay, ContributionWeek};
use statsvg_rs::streaks::{checked_streaks, compute_streaks, streak_lengths};

fn day(date: &str, count: u32) -> ContributionDay {
    ContributionDay { contribution_count: count, date: date.to_string() }
}

fn calendar(weeks: Vec<Vec<u32>>) -> ContributionCalendar {
    let mut n = 0;
    let weeks = weeks
        .into_iter()
        .map(|w| ContributionWeek {
            contribution_days: w
                .into_iter()
                .map(|c| {
                    n += 1;
                    day(&format!("d{n}"), c)
                })
                .collect(),
        })
        .collect();
    ContributionCalendar { total_contributions: 0, weeks }
}

#[test]
fn streaks_of_empty_calendar_are_zero() {
    assert_eq!(compute_streaks(&calendar(vec![])), (0, 0));
    assert_eq!(compute_streaks(&calendar(vec![vec![], vec![]])), (0, 0));
}

#[test]
fn current_streak_counts_active_days_at_the_end() {
    let cal = calendar(vec![vec![1, 0, 2], vec![3, 4]]);
    assert_eq!(compute_streaks(&cal), (3, 3));
}

#[test]
fn zero_day_at_end_resets_current_streak() {
    let cal = calendar(vec![vec![5, 5, 5, 5], vec![1, 0]]);
    assert_eq!(compute_streaks(&cal), (0, 5));
}

#[test]
fn longest_streak_spans_weeks() {
    let cal = calendar(vec![vec![0, 1, 1], vec![1, 1, 0], vec![2, 0, 1]]);
    assert_eq!(compute_streaks(&cal), (1, 4));
}

#[test]
fn all_active_days_give_equal_streaks() {
    let cal = calendar(vec![vec![1; 7], vec![9; 7], vec![3; 2]]);
    assert_eq!(compute_streaks(&cal), (16, 16));
}

#[test]
fn current_streak_never_exceeds_longest() {
    for counts in [vec![0, 1, 2, 0, 1], vec![1, 1, 1], vec![0], vec![4, 0, 0, 7, 7]] {
        let (cur, longest) = streak_lengths(&counts);
        assert!(cur <= longest);
    }
}

#[test]
fn checked_streaks_agrees_with_compute_streaks() {
    let cal = calendar(vec![vec![1, 0, 3], vec![2, 2, 2, 0, 1]]);
    assert_eq!(checked_streaks(&cal), Some(compute_streaks(&cal)));
    assert_eq!(checked_streaks(&cal), Some((1, 4)));
}

#[test]
fn grid_keeps_all_weeks_when_fewer_than_eighteen() {
    let cal = calendar(vec![vec![1, 2], vec![3]]);
    let grid = build_grid(&cal);
    assert_eq!(grid.len(), 2);
    assert_eq!(grid[0], vec![("d1".to_string(), 1), ("d2".to_string(), 2)]);
    assert_eq!(grid[1], vec![("d3".to_string(), 3)]);
}

#[test]
fn grid_keeps_last_eighteen_weeks() {
    let weeks: Vec<Vec<u32>> = (0..20).map(|w| vec![w]).collect();
    let cal = calendar(weeks);
    let grid = build_grid(&cal);
    assert_eq!(grid.len(), 18);
    assert_eq!(grid[0], vec![("d3".to_string(), 2)]);
    assert_eq!(grid[17], vec![("d20".to_string(), 19)]);
}

#[test]
fn grid_of_exactly_eighteen_weeks() {
    let weeks: Vec<Vec<u32>> = (0..18).map(|w| vec![w, w]).collect();
    let grid = build_grid(&calendar(weeks));
    assert_eq!(grid.len(), 18);
    assert_eq!(grid[0][0], ("d1".to_string(), 0));
}

#[test]
fn grid_of_empty_calendar_is_empty() {
    assert!(build_grid(&calendar(vec![])).is_empty());
}

#[test]
fn next_day_ends_or_extends_the_streak() {
    let mut counts = vec![1, 1, 0, 1, 1, 1];
    assert_eq!(streak_lengths(&counts), (3, 3));
    counts.push(0);
    assert_eq!(streak_lengths(&counts), (0, 3));
    counts.push(2);
    assert_eq!(streak_lengths(&counts), (1, 3));
    counts.push(2);
    assert_eq!(streak_lengths(&counts), (2, 3));
}
