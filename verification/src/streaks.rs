//! Contribution streaks: the run of active days that reaches today, and the
//! longest run of active days in the calendar.

use vstd::prelude::*;

use crate::model::{ContributionCalendar, ContributionDay, ContributionWeek};

verus! {

/// The contribution counts of one week, day by day.
pub open spec fn week_counts(w: ContributionWeek) -> Seq<u32> {
    w.contribution_days@.map_values(|d: ContributionDay| d.contribution_count)
}

/// The contribution counts of all days of the calendar, oldest first.
pub open spec fn day_counts(weeks: Seq<ContributionWeek>) -> Seq<u32>
    decreases weeks.len(),
{
    if weeks.len() == 0 {
        Seq::empty()
    } else {
        day_counts(weeks.drop_last()) + week_counts(weeks.last())
    }
}

/// The number of active days (a count above zero) at the end of `s`.
pub open spec fn trailing_run(s: Seq<u32>) -> nat
    decreases s.len(),
{
    if s.len() == 0 || s.last() == 0 {
        0
    } else {
        1 + trailing_run(s.drop_last())
    }
}

/// The length of the longest run of consecutive active days in `s`.
pub open spec fn longest_run(s: Seq<u32>) -> nat
    decreases s.len(),
{
    if s.len() == 0 {
        0
    } else {
        let before = longest_run(s.drop_last());
        let ending_here = trailing_run(s);
        if before >= ending_here {
            before
        } else {
            ending_here
        }
    }
}

/// Every day in `s[i..j]` is active.
pub open spec fn all_active(s: Seq<u32>, i: int, j: int) -> bool {
    forall|k: int| i <= k < j ==> s[k] > 0
}

proof fn lemma_trailing_run_shape(s: Seq<u32>)
    ensures
        trailing_run(s) <= s.len(),
        all_active(s, s.len() - trailing_run(s), s.len() as int),
        trailing_run(s) < s.len() ==> s[s.len() - trailing_run(s) - 1] == 0,
    decreases s.len(),
{
    if s.len() > 0 && s.last() != 0 {
        let p = s.drop_last();
        lemma_trailing_run_shape(p);
        assert forall|k: int| s.len() - trailing_run(s) <= k < s.len() implies s[k] > 0 by {
            if k < s.len() - 1 {
                assert(p[k] == s[k]);
            }
        }
    }
}

proof fn lemma_trailing_run_covers(s: Seq<u32>, i: int)
    requires
        0 <= i <= s.len(),
        all_active(s, i, s.len() as int),
    ensures
        s.len() - i <= trailing_run(s),
{
    lemma_trailing_run_shape(s);
    if s.len() - i > trailing_run(s) {
        let k = s.len() - trailing_run(s) - 1;
        assert(s[k] > 0);
    }
}

/// The longest streak is the greatest length of a stretch of consecutive
/// active days: some stretch of active days has that length, and none is
/// longer.
pub proof fn lemma_longest_run_is_longest_stretch(s: Seq<u32>)
    ensures
        exists|i: int, j: int|
            0 <= i <= j <= s.len() && all_active(s, i, j) && j - i == longest_run(s),
        forall|i: int, j: int|
            0 <= i <= j <= s.len() && #[trigger] all_active(s, i, j) ==> j - i <= longest_run(s),
    decreases s.len(),
{
    if s.len() == 0 {
        assert(all_active(s, 0, 0));
    } else {
        let p = s.drop_last();
        lemma_longest_run_is_longest_stretch(p);
        lemma_trailing_run_shape(s);
        let t = trailing_run(s) as int;
        let n = s.len() as int;
        if longest_run(p) >= t {
            let (i0, j0) = choose|i: int, j: int|
                0 <= i <= j <= p.len() && all_active(p, i, j) && j - i == longest_run(p);
            assert forall|k: int| i0 <= k < j0 implies s[k] > 0 by {
                assert(p[k] == s[k]);
            }
            assert(all_active(s, i0, j0) && j0 - i0 == longest_run(s));
        } else {
            assert(all_active(s, n - t, n) && n - (n - t) == longest_run(s));
        }
        assert forall|i: int, j: int|
            0 <= i <= j <= s.len() && #[trigger] all_active(s, i, j) implies j - i
            <= longest_run(s) by {
            if j == n {
                lemma_trailing_run_covers(s, i);
            } else {
                assert forall|k: int| i <= k < j implies p[k] > 0 by {
                    assert(p[k] == s[k]);
                }
                assert(all_active(p, i, j));
            }
        }
    }
}

/// The current streak never exceeds the longest streak.
pub proof fn lemma_current_streak_within_longest(s: Seq<u32>)
    ensures
        trailing_run(s) <= longest_run(s),
{
}

/// A day without contributions ends the current streak and leaves the
/// longest streak as it was; an active day extends the current streak by one.
pub proof fn lemma_next_day(s: Seq<u32>, count: u32)
    ensures
        count == 0 ==> trailing_run(s.push(count)) == 0 && longest_run(s.push(count))
            == longest_run(s),
        count > 0 ==> trailing_run(s.push(count)) == trailing_run(s) + 1,
{
    assert(s.push(count).drop_last() =~= s);
}

/// The streaks depend only on the daily counts in calendar order, not on
/// how the days are split into weeks (nor on dates or totals).
pub proof fn lemma_streaks_ignore_week_split(w1: Seq<ContributionWeek>, w2: Seq<ContributionWeek>)
    requires
        day_counts(w1) == day_counts(w2),
    ensures
        trailing_run(day_counts(w1)) == trailing_run(day_counts(w2)),
        longest_run(day_counts(w1)) == longest_run(day_counts(w2)),
{
}

/// A week's counts are its days' counts, day by day.
pub proof fn lemma_week_counts(w: ContributionWeek)
    ensures
        week_counts(w).len() == w.contribution_days@.len(),
        forall|d: int|
            0 <= d < w.contribution_days@.len() ==> #[trigger] week_counts(w)[d]
                == w.contribution_days@[d].contribution_count,
{
}

/// The counts of a calendar are those of every day of every week, in
/// order: the counts of two runs of weeks are the counts of the first
/// followed by those of the second, and a single week gives its own.
pub proof fn lemma_day_counts_concat(w1: Seq<ContributionWeek>, w2: Seq<ContributionWeek>)
    ensures
        day_counts(w1 + w2) == day_counts(w1) + day_counts(w2),
    decreases w2.len(),
{
    if w2.len() == 0 {
        assert(w1 + w2 =~= w1);
        assert(day_counts(w1) + day_counts(w2) =~= day_counts(w1));
    } else {
        assert((w1 + w2).drop_last() =~= w1 + w2.drop_last());
        lemma_day_counts_concat(w1, w2.drop_last());
        assert(day_counts(w1) + day_counts(w2) =~= day_counts(w1) + day_counts(w2.drop_last())
            + week_counts(w2.last()));
    }
}

/// A single week gives its own counts, and no weeks give none.
pub proof fn lemma_day_counts_single(w: ContributionWeek)
    ensures
        day_counts(Seq::<ContributionWeek>::empty()).len() == 0,
        day_counts(seq![w]) == week_counts(w),
{
    let s = seq![w];
    assert(s.drop_last() =~= Seq::<ContributionWeek>::empty());
    assert(s.last() == w);
    assert(Seq::<u32>::empty() + week_counts(w) =~= week_counts(w));
}

/// The current streak is the stretch of active days that ends with the
/// last day: all of its days are active, and the day before it (if any)
/// has no contribution.
pub proof fn lemma_current_streak_is_final_stretch(s: Seq<u32>)
    ensures
        trailing_run(s) <= s.len(),
        all_active(s, s.len() - trailing_run(s), s.len() as int),
        trailing_run(s) < s.len() ==> s[s.len() - trailing_run(s) - 1] == 0,
{
    lemma_trailing_run_shape(s);
}

/// The counts of all days of the calendar, oldest first.
fn flatten_counts(weeks: &Vec<ContributionWeek>) -> (counts: Vec<u32>)
    ensures
        counts@ == day_counts(weeks@),
{
    let mut counts: Vec<u32> = Vec::new();
    let mut w: usize = 0;
    while w < weeks.len()
        invariant
            w <= weeks.len(),
            counts@ == day_counts(weeks@.take(w as int)),
        decreases weeks.len() - w,
    {
        let days = &weeks[w].contribution_days;
        let mut d: usize = 0;
        while d < days.len()
            invariant
                w < weeks.len(),
                days == &weeks@[w as int].contribution_days,
                d <= days.len(),
                counts@ == day_counts(weeks@.take(w as int)) + week_counts(weeks@[w as int]).take(
                    d as int,
                ),
            decreases days.len() - d,
        {
            counts.push(days[d].contribution_count);
            proof {
                let wc = week_counts(weeks@[w as int]);
                assert(wc.take(d + 1) =~= wc.take(d as int).push(days@[d as int].contribution_count));
            }
            d = d + 1;
        }
        proof {
            let wc = week_counts(weeks@[w as int]);
            assert(wc.take(d as int) =~= wc);
            assert(weeks@.take(w + 1).drop_last() =~= weeks@.take(w as int));
        }
        w = w + 1;
    }
    assert(weeks@.take(w as int) =~= weeks@);
    counts
}

/// Returns `(current, longest)` for a sequence of daily counts: the number
/// of active days at its end, and its longest run of active days.
pub fn streak_lengths(counts: &Vec<u32>) -> (r: (usize, usize))
    ensures
        r.0 == trailing_run(counts@),
        r.1 == longest_run(counts@),
{
    let ghost s = counts@;
    let mut current: usize = 0;
    let mut i: usize = counts.len();
    assert(s.take(i as int) =~= s);
    while i > 0
        invariant_except_break
            i <= counts.len(),
            s == counts@,
            trailing_run(s) == current + trailing_run(s.take(i as int)),
            current + i <= counts.len(),
        ensures
            current == trailing_run(s),
        decreases i,
    {
        let c = counts[i - 1];
        proof {
            assert(s.take(i as int).drop_last() =~= s.take(i - 1));
        }
        if c > 0 {
            current = current + 1;
            i = i - 1;
        } else {
            break;
        }
    }

    let mut longest: usize = 0;
    let mut run: usize = 0;
    let mut j: usize = 0;
    assert(s.take(0) =~= Seq::<u32>::empty());
    while j < counts.len()
        invariant
            j <= counts.len(),
            s == counts@,
            run == trailing_run(s.take(j as int)),
            longest == longest_run(s.take(j as int)),
        decreases counts.len() - j,
    {
        let c = counts[j];
        proof {
            assert(s.take(j + 1).drop_last() =~= s.take(j as int));
            lemma_trailing_run_shape(s.take(j as int));
        }
        if c > 0 {
            run = run + 1;
            if run > longest {
                longest = run;
            }
        } else {
            run = 0;
        }
        j = j + 1;
    }
    assert(s.take(j as int) =~= s);
    (current, longest)
}

/// Returns `(current, longest)`: the number of active days at the end of the
/// calendar, and the longest run of consecutive active days in it.
pub fn compute_streaks(calendar: &ContributionCalendar) -> (r: (u32, u32))
    requires
        longest_run(day_counts(calendar.weeks@)) <= u32::MAX,
    ensures
        r.0 == trailing_run(day_counts(calendar.weeks@)),
        r.1 == longest_run(day_counts(calendar.weeks@)),
{
    let counts = flatten_counts(&calendar.weeks);
    let (current, longest) = streak_lengths(&counts);
    proof {
        lemma_current_streak_within_longest(counts@);
    }
    (current as u32, longest as u32)
}

/// The streaks of the calendar, or `None` when the longest streak does not
/// fit in a `u32`.
pub fn checked_streaks(calendar: &ContributionCalendar) -> (r: Option<(u32, u32)>)
    ensures
        r is None <==> longest_run(day_counts(calendar.weeks@)) > u32::MAX,
        r matches Some(p) ==> p.0 == trailing_run(day_counts(calendar.weeks@)) && p.1
            == longest_run(day_counts(calendar.weeks@)),
{
    let counts = flatten_counts(&calendar.weeks);
    let (current, longest) = streak_lengths(&counts);
    if longest > u32::MAX as usize {
        None
    } else {
        proof {
            lemma_current_streak_within_longest(counts@);
        }
        Some((current as u32, longest as u32))
    }
}

} // verus!
