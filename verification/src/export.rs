//! What an export is made of: the totals of a summary, the cleaned
//! category of a CSV line, the windows that a calendar shows, and the
//! decision of the watch loop.

use vstd::prelude::*;
use vstd::string::*;
use crate::error::TTError;
use crate::window::{TimeWindow, WindowModel};
use crate::ledger::models;
use crate::text::{
    decimal, decimal_nat, is_text_less, lemma_text_less_irreflexive, lemma_text_less_total,
    lemma_text_less_transitive, push_decimal, push_signed, push_two_digits, text_less, two_digits,
};

verus! {

/// The formats of an export.
#[derive(Clone, Copy, Debug, PartialEq, Eq)]
pub enum ExportFormat {
    Json,
    Csv,
    Ical,
    Summary,
}

/// The first line of a CSV export.
pub const CSV_HEADER: &'static str =
    "id,category,start,end,start_tstamp,end_tstamp,duration_hours,duration_seconds\n";

/// Which range of dates a summary covers, as its first line says.
#[derive(Clone, Copy, Debug, PartialEq, Eq)]
pub enum SummaryRange {
    AllTime,
    Since(i64),
    Through(i64),
    Between(i64, i64),
}

/// The range that a summary over the given bounds covers.
pub fn summary_range(start: Option<i64>, end: Option<i64>) -> (r: SummaryRange)
    ensures
        r == match (start, end) {
            (None, None) => SummaryRange::AllTime,
            (Some(s), None) => SummaryRange::Since(s),
            (None, Some(e)) => SummaryRange::Through(e),
            (Some(s), Some(e)) => SummaryRange::Between(s, e),
        },
{
    match (start, end) {
        (None, None) => SummaryRange::AllTime,
        (Some(s), None) => SummaryRange::Since(s),
        (None, Some(e)) => SummaryRange::Through(e),
        (Some(s), Some(e)) => SummaryRange::Between(s, e),
    }
}

/// The windows logged against one category, counted and added up.
#[derive(Debug, PartialEq, Eq)]
pub struct CategoryTotal {
    pub category: String,
    /// How many windows, open ones included.
    pub count: usize,
    /// The seconds of its closed windows.
    pub total: u128,
}

/// The totals of a summary: over all windows, and category by category in
/// the order of the category names.
#[derive(Debug, PartialEq, Eq)]
pub struct Summary {
    pub total_count: usize,
    pub total_duration: u128,
    pub categories: Vec<CategoryTotal>,
}

/// The seconds between start and end of a closed window; 0 for an open one.
pub open spec fn duration(w: WindowModel) -> nat {
    match w.end_time {
        Some(e) => if e >= w.start_time {
            (e - w.start_time) as nat
        } else {
            (w.start_time - e) as nat
        },
        None => 0,
    }
}

/// The seconds of all closed windows of `rows`.
pub open spec fn duration_sum(rows: Seq<WindowModel>) -> nat
    decreases rows.len(),
{
    if rows.len() == 0 {
        0
    } else {
        duration_sum(rows.drop_last()) + duration(rows.last())
    }
}

/// How many windows of `rows` are logged against `category`.
pub open spec fn count_of(rows: Seq<WindowModel>, category: Seq<char>) -> nat
    decreases rows.len(),
{
    if rows.len() == 0 {
        0
    } else {
        count_of(rows.drop_last(), category) + if rows.last().category == category {
            1nat
        } else {
            0nat
        }
    }
}

/// The seconds of the closed windows of `rows` logged against `category`.
pub open spec fn duration_of(rows: Seq<WindowModel>, category: Seq<char>) -> nat
    decreases rows.len(),
{
    if rows.len() == 0 {
        0
    } else {
        duration_of(rows.drop_last(), category) + if rows.last().category == category {
            duration(rows.last())
        } else {
            0nat
        }
    }
}

/// The seconds between start and end of a closed window; 0 for an open one.
pub fn window_duration(w: &TimeWindow) -> (r: u64)
    ensures
        r == duration(w@),
{
    match w.end_time {
        Some(e) => {
            let d: i128 = e as i128 - w.start_time as i128;
            if d >= 0 {
                d as u64
            } else {
                (-d) as u64
            }
        },
        None => 0,
    }
}

/// No window of `category` among `rows`: its count and its seconds are 0.
pub proof fn lemma_absent_category(rows: Seq<WindowModel>, category: Seq<char>)
    requires
        forall|i: int| 0 <= i < rows.len() ==> (#[trigger] rows[i]).category != category,
    ensures
        count_of(rows, category) == 0,
        duration_of(rows, category) == 0,
    decreases rows.len(),
{
    if rows.len() > 0 {
        assert forall|i: int| 0 <= i < rows.drop_last().len() implies (#[trigger] rows.drop_last()[i]).category
            != category by {
            assert(rows.drop_last()[i] == rows[i]);
        }
        lemma_absent_category(rows.drop_last(), category);
        assert(rows[rows.len() - 1].category != category);
    }
}

/// Sums of seconds stay below the number of windows times the most that one can last.
pub proof fn lemma_duration_bounds(rows: Seq<WindowModel>, category: Seq<char>)
    requires
        forall|i: int| 0 <= i < rows.len() ==> duration(#[trigger] rows[i]) <= u64::MAX,
    ensures
        duration_sum(rows) <= rows.len() * u64::MAX,
        duration_of(rows, category) <= rows.len() * u64::MAX,
        count_of(rows, category) <= rows.len(),
    decreases rows.len(),
{
    if rows.len() > 0 {
        assert forall|i: int| 0 <= i < rows.drop_last().len() implies duration(
            #[trigger] rows.drop_last()[i],
        ) <= u64::MAX by {
            assert(rows.drop_last()[i] == rows[i]);
        }
        lemma_duration_bounds(rows.drop_last(), category);
        assert(duration(rows[rows.len() - 1]) <= u64::MAX);
        assert((rows.len() - 1) * u64::MAX + u64::MAX == rows.len() * u64::MAX) by (nonlinear_arith);
    }
}

/// `totals` holds what a summary says of `rows` category by category: the
/// categories are those of `rows`, each once, in the order of their names,
/// each with the number of its windows and the seconds of its closed ones.
pub open spec fn tallies(totals: Seq<CategoryTotal>, rows: Seq<WindowModel>) -> bool {
    &&& forall|i: int, j: int|
        0 <= i < j < totals.len() ==> text_less(
            (#[trigger] totals[i]).category@,
            (#[trigger] totals[j]).category@,
        )
    &&& forall|i: int|
        0 <= i < totals.len() ==> (#[trigger] totals[i]).count == count_of(rows, totals[i].category@)
            && totals[i].count > 0 && totals[i].total == duration_of(rows, totals[i].category@)
    &&& forall|k: int|
        0 <= k < rows.len() ==> exists|i: int|
            0 <= i < totals.len() && (#[trigger] totals[i]).category@ == (#[trigger] rows[k]).category
}

/// Adds up the windows of a summary. No windows at all are refused with
/// [`TTError::EmptyResult`]. Open windows are counted but add no seconds.
pub fn summarize(times: &Vec<TimeWindow>) -> (res: Result<Summary, TTError>)
    ensures
        res is Ok == (times@.len() > 0),
        res matches Err(e) ==> e == TTError::EmptyResult,
        res matches Ok(s) ==> s.total_count == times@.len() && s.total_duration == duration_sum(
            models(times@),
        ) && tallies(s.categories@, models(times@)),
{
    if times.len() == 0 {
        return Err(TTError::EmptyResult);
    }
    let ghost rows = models(times@);
    let mut totals: Vec<CategoryTotal> = Vec::new();
    let mut sum: u128 = 0;
    let mut k: usize = 0;
    proof {
        assert forall|i: int| 0 <= i < rows.len() implies duration(#[trigger] rows[i]) <= u64::MAX by {
            assert(rows[i] == times@[i]@);
        }
    }
    while k < times.len()
        invariant
            k <= times@.len(),
            rows == models(times@),
            forall|i: int| 0 <= i < rows.len() ==> duration(#[trigger] rows[i]) <= u64::MAX,
            sum == duration_sum(rows.take(k as int)),
            tallies(totals@, rows.take(k as int)),
        decreases times@.len() - k,
    {
        let ghost seen = rows.take(k as int);
        let ghost next = rows.take(k + 1);
        let w = &times[k];
        let d = window_duration(w);
        proof {
            assert(next.drop_last() =~= seen);
            assert(next.last() == rows[k as int]);
            assert(rows[k as int] == w@);
            assert forall|i: int| 0 <= i < next.len() implies duration(#[trigger] next[i])
                <= u64::MAX by {
                assert(next[i] == rows[i]);
            }
            lemma_duration_bounds(next, w@.category);
            assert(next.len() * u64::MAX <= usize::MAX * u64::MAX) by (nonlinear_arith)
                requires
                    next.len() <= usize::MAX,
            ;
            assert(usize::MAX * u64::MAX <= u128::MAX) by (nonlinear_arith)
                requires
                    usize::MAX <= u64::MAX,
                    u64::MAX == 0xffff_ffff_ffff_ffff,
                    u128::MAX == 0xffff_ffff_ffff_ffff_ffff_ffff_ffff_ffff,
            ;
        }
        sum = sum + d as u128;
        // Look for the category among the totals so far.
        let mut at: usize = 0;
        while at < totals.len() && !(totals[at].category == w.category)
            invariant
                at <= totals@.len(),
                forall|j: int| 0 <= j < at ==> (#[trigger] totals@[j]).category@ != w@.category,
            decreases totals@.len() - at,
        {
            at += 1;
        }
        let found = at < totals.len();
        let ghost old_totals = totals@;
        if found {
            let entry = CategoryTotal {
                category: totals[at].category.clone(),
                count: totals[at].count + 1,
                total: totals[at].total + d as u128,
            };
            totals.set(at, entry);
            proof {
                assert forall|i: int| 0 <= i < totals@.len() implies (#[trigger] totals@[i]).count
                    == count_of(next, totals@[i].category@) && totals@[i].count > 0
                    && totals@[i].total == duration_of(next, totals@[i].category@) by {
                    assert(totals@[i].category@ == old_totals[i].category@);
                    if i != at {
                        assert(totals@[i] == old_totals[i]);
                        if i < at {
                            lemma_text_less_irreflexive(w@.category);
                            assert(text_less(old_totals[i].category@, old_totals[at as int].category@));
                        } else {
                            lemma_text_less_irreflexive(w@.category);
                            assert(text_less(old_totals[at as int].category@, old_totals[i].category@));
                        }
                    }
                }
                assert forall|i: int, j: int| 0 <= i < j < totals@.len() implies text_less(
                    (#[trigger] totals@[i]).category@,
                    (#[trigger] totals@[j]).category@,
                ) by {
                    assert(text_less(old_totals[i].category@, old_totals[j].category@));
                }
                assert forall|m: int| 0 <= m < next.len() implies exists|i: int|
                    0 <= i < totals@.len() && (#[trigger] totals@[i]).category@ == (
                    #[trigger] next[m]).category by {
                    if m < k {
                        assert(next[m] == seen[m]);
                        let i = choose|i: int|
                            0 <= i < old_totals.len() && (#[trigger] old_totals[i]).category@
                                == seen[m].category;
                        assert(totals@[i].category@ == next[m].category);
                    } else {
                        assert(totals@[at as int].category@ == next[m].category);
                    }
                }
            }
        } else {
            // A new category goes where its name belongs.
            let mut p: usize = 0;
            while p < totals.len() && !is_text_less(w.category.as_str(), totals[p].category.as_str())
                invariant
                    p <= totals@.len(),
                    forall|j: int|
                        0 <= j < p ==> !text_less(w@.category, (#[trigger] totals@[j]).category@),
                decreases totals@.len() - p,
            {
                p += 1;
            }
            let entry = CategoryTotal { category: w.category.clone(), count: 1, total: d as u128 };
            totals.insert(p, entry);
            proof {
                assert forall|m: int| 0 <= m < seen.len() implies (#[trigger] seen[m]).category
                    != w@.category by {
                    let i = choose|i: int|
                        0 <= i < old_totals.len() && (#[trigger] old_totals[i]).category@
                            == seen[m].category;
                }
                lemma_absent_category(seen, w@.category);
                assert forall|i: int| 0 <= i < totals@.len() implies (#[trigger] totals@[i]).count
                    == count_of(next, totals@[i].category@) && totals@[i].count > 0
                    && totals@[i].total == duration_of(next, totals@[i].category@) by {
                    if i < p {
                        assert(totals@[i] == old_totals[i]);
                    } else if i > p {
                        assert(totals@[i] == old_totals[i - 1]);
                    }
                }
                assert forall|i: int, j: int| 0 <= i < j < totals@.len() implies text_less(
                    (#[trigger] totals@[i]).category@,
                    (#[trigger] totals@[j]).category@,
                ) by {
                    let i0 = if i < p { i } else { i - 1 };
                    let j0 = if j < p { j } else { j - 1 };
                    if i == p {
                        assert(totals@[j] == old_totals[j0]);
                        assert(text_less(w@.category, old_totals[p as int].category@));
                        if j0 > p {
                            assert(text_less(old_totals[p as int].category@, old_totals[j0].category@));
                            lemma_text_less_transitive(
                                w@.category,
                                old_totals[p as int].category@,
                                old_totals[j0].category@,
                            );
                        }
                    } else if j == p {
                        assert(totals@[i] == old_totals[i0]);
                        assert(!text_less(w@.category, old_totals[i0].category@));
                        lemma_text_less_total(w@.category, old_totals[i0].category@);
                    } else {
                        assert(totals@[i] == old_totals[i0]);
                        assert(totals@[j] == old_totals[j0]);
                        assert(text_less(old_totals[i0].category@, old_totals[j0].category@));
                    }
                }
                assert forall|m: int| 0 <= m < next.len() implies exists|i: int|
                    0 <= i < totals@.len() && (#[trigger] totals@[i]).category@ == (
                    #[trigger] next[m]).category by {
                    if m < k {
                        assert(next[m] == seen[m]);
                        let i = choose|i: int|
                            0 <= i < old_totals.len() && (#[trigger] old_totals[i]).category@
                                == seen[m].category;
                        let i1 = if i < p { i } else { i + 1 };
                        assert(totals@[i1] == old_totals[i]);
                    } else {
                        assert(totals@[p as int].category@ == next[m].category);
                    }
                }
            }
        }
        k += 1;
    }
    proof {
        assert(rows.take(k as int) =~= rows);
    }
    Ok(Summary { total_count: times.len(), total_duration: sum, categories: totals })
}

/// The category as a CSV line shows it: a full stop for each comma, and no
/// line feeds or carriage returns.
pub open spec fn csv_safe(s: Seq<char>) -> Seq<char>
    decreases s.len(),
{
    if s.len() == 0 {
        s
    } else if s.last() == ',' {
        csv_safe(s.drop_last()).push('.')
    } else if s.last() == '\n' || s.last() == '\r' {
        csv_safe(s.drop_last())
    } else {
        csv_safe(s.drop_last()).push(s.last())
    }
}

/// The category as a CSV line shows it.
pub fn csv_category(category: &str) -> (r: String)
    ensures
        r@ == csv_safe(category@),
{
    let n = category.unicode_len();
    let mut out = String::new();
    let mut i: usize = 0;
    proof {
        reveal_strlit(".");
        assert(out@ =~= csv_safe(category@.take(0)));
    }
    while i < n
        invariant
            i <= n,
            n == category@.len(),
            "."@ == seq!['.'],
            out@ == csv_safe(category@.take(i as int)),
        decreases n - i,
    {
        let c = category.get_char(i);
        proof {
            assert(category@.take(i + 1).drop_last() =~= category@.take(i as int));
            assert(category@.take(i + 1).last() == c);
        }
        if c == ',' {
            out.append(".");
            assert(out@ =~= csv_safe(category@.take(i + 1)));
        } else if c == '\n' || c == '\r' {
        } else {
            let piece = category.substring_char(i, i + 1);
            assert(piece@ =~= seq![c]);
            out.append(piece);
            assert(out@ =~= csv_safe(category@.take(i + 1)));
        }
        i += 1;
    }
    proof {
        assert(category@.take(i as int) =~= category@);
    }
    out
}

/// The id as a CSV line shows it: -1 for a window without one.
pub fn csv_id(w: &TimeWindow) -> (r: i64)
    ensures
        r == match w.id {
            Some(id) => id,
            None => -1i64,
        },
{
    match w.id {
        Some(id) => id,
        None => -1,
    }
}

/// What the watch loop remembers: the modification stamp of the store at
/// the last export, if there was one.
#[derive(Clone, Copy, Debug, PartialEq, Eq)]
pub struct WatchState {
    pub last_modified: Option<u128>,
}

impl WatchState {
    /// The state before the first look at the store.
    pub fn new() -> (r: WatchState)
        ensures
            r.last_modified is None,
    {
        WatchState { last_modified: None }
    }

    /// Takes note of the store's modification stamp and says whether the
    /// export is to be made again: at the first look, and whenever the stamp
    /// differs from the last one. The state then holds the new stamp,
    /// whether or not the export that follows succeeds.
    pub fn observe(&mut self, modified: u128) -> (again: bool)
        ensures
            again == (old(self).last_modified != Some(modified)),
            final(self).last_modified == Some(modified),
    {
        let again = match self.last_modified {
            Some(seen) => seen != modified,
            None => true,
        };
        self.last_modified = Some(modified);
        again
    }
}


/// A number of seconds as hours and minutes, two digits each at least, as
/// in `01:30`.
pub open spec fn hours_minutes(seconds: nat) -> Seq<char> {
    two_digits(seconds / 60 / 60) + seq![':'] + two_digits(seconds / 60 % 60)
}

/// A number of seconds as hours, minutes and seconds, as in `01:30:00`.
pub open spec fn hours_minutes_seconds(seconds: nat) -> Seq<char> {
    hours_minutes(seconds) + seq![':'] + two_digits(seconds % 60)
}

/// Appends `seconds` as hours and minutes to `s`.
fn push_hours_minutes(s: &mut String, seconds: u128)
    ensures
        final(s)@ == old(s)@ + hours_minutes(seconds as nat),
{
    proof {
        reveal_strlit(":");
    }
    push_two_digits(s, seconds / 60 / 60);
    s.append(":");
    push_two_digits(s, seconds / 60 % 60);
    assert(s@ =~= old(s)@ + hours_minutes(seconds as nat));
}

/// A number of seconds as hours, minutes and seconds, as in `01:30:00`.
pub fn duration_text(seconds: u128) -> (r: String)
    ensures
        r@ == hours_minutes_seconds(seconds as nat),
{
    let mut r = String::new();
    proof {
        reveal_strlit(":");
    }
    push_hours_minutes(&mut r, seconds);
    r.append(":");
    push_two_digits(&mut r, seconds % 60);
    assert(r@ =~= hours_minutes_seconds(seconds as nat));
    r
}

/// The line of a summary that gives the totals over all windows.
pub open spec fn total_line(count: nat, seconds: nat) -> Seq<char> {
    "Logged "@ + decimal_nat(count) + " activites for a total of "@ + hours_minutes(seconds)
        + "\n"@
}

/// The line of a summary that gives the totals over all windows.
pub fn summary_total_line(summary: &Summary) -> (r: String)
    ensures
        r@ == total_line(summary.total_count as nat, summary.total_duration as nat),
{
    let mut r = String::from_str("Logged ");
    push_decimal(&mut r, summary.total_count as u128);
    r.append(" activites for a total of ");
    push_hours_minutes(&mut r, summary.total_duration);
    r.append("\n");
    assert(r@ =~= total_line(summary.total_count as nat, summary.total_duration as nat));
    r
}

/// The two lines of a summary on one category; `share` is the text of its
/// share of the total, in percent.
pub open spec fn category_lines(category: Seq<char>, count: nat, seconds: nat, share: Seq<char>) -> Seq<
    char,
> {
    category + ":\n  "@ + decimal_nat(count) + " logs, "@ + hours_minutes(seconds)
        + " cumulative, "@ + share + "% of total\n"@
}

/// The two lines of a summary on one category; `share` is the text of its
/// share of the total, in percent.
pub fn summary_category_lines(entry: &CategoryTotal, share: &str) -> (r: String)
    ensures
        r@ == category_lines(entry.category@, entry.count as nat, entry.total as nat, share@),
{
    let mut r = entry.category.clone();
    r.append(":\n  ");
    push_decimal(&mut r, entry.count as u128);
    r.append(" logs, ");
    push_hours_minutes(&mut r, entry.total);
    r.append(" cumulative, ");
    r.append(share);
    r.append("% of total\n");
    assert(r@ =~= category_lines(entry.category@, entry.count as nat, entry.total as nat, share@));
    r
}

/// The text of an optional number: empty for none.
pub open spec fn optional_decimal(n: Option<int>) -> Seq<char> {
    match n {
        Some(v) => decimal(v),
        None => Seq::empty(),
    }
}

/// One line of a CSV export. The two dates and the two durations are given
/// as the texts that the line shows for them.
pub open spec fn csv_line(
    w: WindowModel,
    start_text: Seq<char>,
    end_text: Seq<char>,
    hours_text: Seq<char>,
    seconds_text: Seq<char>,
) -> Seq<char> {
    decimal(
        match w.id {
            Some(id) => id,
            None => -1,
        },
    ) + seq![','] + csv_safe(w.category) + seq![','] + start_text + seq![','] + end_text + seq![',']
        + decimal(w.start_time) + seq![','] + optional_decimal(w.end_time) + seq![',']
        + hours_text + seq![','] + seconds_text + seq!['\n']
}

/// One line of a CSV export. The two dates and the two durations are given
/// as the texts that the line shows for them.
pub fn csv_record(
    w: &TimeWindow,
    start_text: &str,
    end_text: &str,
    hours_text: &str,
    seconds_text: &str,
) -> (r: String)
    ensures
        r@ == csv_line(w@, start_text@, end_text@, hours_text@, seconds_text@),
{
    proof {
        reveal_strlit(",");
        reveal_strlit("\n");
    }
    let mut r = String::new();
    push_signed(&mut r, csv_id(w));
    r.append(",");
    let category = csv_category(w.category.as_str());
    r.append(category.as_str());
    r.append(",");
    r.append(start_text);
    r.append(",");
    r.append(end_text);
    r.append(",");
    push_signed(&mut r, w.start_time);
    r.append(",");
    match w.end_time {
        Some(e) => {
            push_signed(&mut r, e);
        },
        None => {},
    }
    r.append(",");
    r.append(hours_text);
    r.append(",");
    r.append(seconds_text);
    r.append("\n");
    assert(r@ =~= csv_line(w@, start_text@, end_text@, hours_text@, seconds_text@));
    r
}

} // verus!
