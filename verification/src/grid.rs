//! The contribution heatmap: the most recent weeks of the calendar.

use vstd::prelude::*;

use crate::model::{ContributionCalendar, ContributionDay, ContributionWeek};

verus! {

/// How many weeks the heatmap shows.
pub const GRID_WEEKS: usize = 18;

/// The index of the first week the heatmap shows.
pub open spec fn grid_start(n_weeks: int) -> int {
    if n_weeks > GRID_WEEKS {
        n_weeks - GRID_WEEKS
    } else {
        0
    }
}

/// A heatmap cell shows the day's date and its contribution count.
pub open spec fn cell_shows(cell: (String, u32), day: ContributionDay) -> bool {
    cell.0@ == day.date@ && cell.1 == day.contribution_count
}

/// `grid` is the heatmap of the calendar `weeks`: its last `GRID_WEEKS`
/// weeks (all of them when there are fewer), each as its days' cells.
pub open spec fn is_grid_of(grid: Seq<Vec<(String, u32)>>, weeks: Seq<ContributionWeek>) -> bool {
    &&& grid.len() == weeks.len() - grid_start(weeks.len() as int)
    &&& forall|k: int|
        0 <= k < grid.len() ==> {
            let week = weeks[grid_start(weeks.len() as int) + k];
            &&& #[trigger] grid[k]@.len() == week.contribution_days@.len()
            &&& forall|d: int|
                0 <= d < grid[k]@.len() ==> cell_shows(
                    #[trigger] grid[k]@[d],
                    week.contribution_days@[d],
                )
        }
}

/// The last `GRID_WEEKS` weeks of the calendar (all of them when there are
/// fewer), each as its days' `(date, count)` pairs in calendar order.
pub fn build_grid(calendar: &ContributionCalendar) -> (grid: Vec<Vec<(String, u32)>>)
    ensures
        is_grid_of(grid@, calendar.weeks@),
        grid@.len() <= GRID_WEEKS,
{
    let weeks = &calendar.weeks;
    let start = weeks.len().saturating_sub(GRID_WEEKS);
    let ghost s = grid_start(weeks@.len() as int);
    let mut grid: Vec<Vec<(String, u32)>> = Vec::new();
    let mut w = start;
    while w < weeks.len()
        invariant
            start == s,
            s <= w <= weeks.len(),
            grid@.len() == w - s,
            forall|k: int|
                0 <= k < grid@.len() ==> {
                    let week = weeks@[s + k];
                    &&& #[trigger] grid@[k]@.len() == week.contribution_days@.len()
                    &&& forall|d: int|
                        0 <= d < grid@[k]@.len() ==> cell_shows(
                            #[trigger] grid@[k]@[d],
                            week.contribution_days@[d],
                        )
                },
        decreases weeks.len() - w,
    {
        let days = &weeks[w].contribution_days;
        let mut row: Vec<(String, u32)> = Vec::new();
        let mut d: usize = 0;
        while d < days.len()
            invariant
                d <= days.len(),
                row@.len() == d,
                forall|e: int| 0 <= e < d ==> cell_shows(#[trigger] row@[e], days@[e]),
            decreases days.len() - d,
        {
            let day = &days[d];
            row.push((day.date.clone(), day.contribution_count));
            d = d + 1;
        }
        grid.push(row);
        w = w + 1;
    }
    grid
}

/// The heatmap shows the last 18 weeks: it skips nothing of a calendar of
/// at most 18 weeks, and shows exactly 18 weeks of a longer one.
pub proof fn lemma_grid_shows_last_weeks(n: int)
    requires
        n >= 0,
    ensures
        n <= 18 ==> grid_start(n) == 0,
        n >= 18 ==> n - grid_start(n) == 18,
{
}

/// A cell shows its day's date and count, nothing else.
pub proof fn lemma_cell_shows_day(cell: (String, u32), day: ContributionDay)
    ensures
        cell_shows(cell, day) <==> (cell.0@ == day.date@ && cell.1 == day.contribution_count),
{
}

} // verus!
