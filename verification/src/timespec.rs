//! Arithmetic on the months of the calendar, for times given as "in n months".

use vstd::prelude::*;

verus! {

/// A year and a month of it, counted from 0 for January.
#[derive(Clone, Copy, Debug, PartialEq, Eq)]
pub struct YearMonth {
    pub year: i64,
    pub month0: u32,
}

/// One step forward: to the next month, and from December to the February
/// of the next year.
pub open spec fn step(year: int, month0: int) -> (int, int) {
    if month0 == 11 {
        (year + 1, 1)
    } else {
        (year, month0 + 1)
    }
}

/// The year and month after `n` steps forward; a count below 1 changes nothing.
pub open spec fn rolled(year: int, month0: int, n: int) -> (int, int)
    decreases n,
{
    if n <= 0 {
        (year, month0)
    } else {
        let before = rolled(year, month0, n - 1);
        step(before.0, before.1)
    }
}

/// After `n` steps the month is still one of the twelve and the year has
/// grown by `n` at most.
pub proof fn lemma_rolled_bounds(year: int, month0: int, n: int)
    requires
        0 <= month0 < 12,
    ensures
        0 <= rolled(year, month0, n).1 < 12,
        year <= rolled(year, month0, n).0,
        n >= 0 ==> rolled(year, month0, n).0 <= year + n,
        n < 0 ==> rolled(year, month0, n).0 == year,
    decreases n,
{
    if n > 0 {
        lemma_rolled_bounds(year, month0, n - 1);
    }
}

/// Moves a month of a year forward by `num_months` steps.
pub fn roll_months(year: i32, month0: u32, num_months: i32) -> (r: YearMonth)
    requires
        month0 < 12,
    ensures
        r.year == rolled(year as int, month0 as int, num_months as int).0,
        r.month0 == rolled(year as int, month0 as int, num_months as int).1,
        r.month0 < 12,
{
    let mut y: i64 = year as i64;
    let mut m: u32 = month0;
    let mut i: i32 = 0;
    while i < num_months
        invariant
            0 <= i,
            num_months > 0 ==> i <= num_months,
            num_months <= 0 ==> i == 0,
            m < 12,
            year <= y <= year + i,
            y == rolled(year as int, month0 as int, i as int).0,
            m == rolled(year as int, month0 as int, i as int).1,
        decreases num_months - i,
    {
        if m == 11 {
            m = 1;
            y = y + 1;
        } else {
            m = m + 1;
        }
        i = i + 1;
    }
    proof {
        lemma_rolled_bounds(year as int, month0 as int, num_months as int);
    }
    YearMonth { year: y, month0: m }
}

} // verus!
