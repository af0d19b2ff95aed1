//! Closing open windows at the end of the working day.

use vstd::prelude::*;
use chrono::{TimeZone, Timelike};
use crate::clock::HourMinute;
use crate::error::TTError;
use crate::laws::{ends_by, law_rollover_closes_each_open_window};
use crate::ledger::{
    models, refusal, rows_wf, stored_id, upsert_accepts, upsert_time, written, Ledger,
};
use crate::window::{TimeWindow, WindowModel};

verus! {

/// The last second of the year 9999. Windows that start later are not
/// closed at a time of day.
pub const MAX_TIMESTAMP: i64 = 253_402_300_799;

/// The seconds of one day.
pub const DAY: i64 = 86_400;

/// `seconds` is a difference between local time and UTC that a time zone can have.
pub open spec fn offset_in_range(seconds: int) -> bool {
    -86_400 < seconds < 86_400
}

/// The moment on the local calendar day of `start` at which the clock shows
/// the given hour and minute and the second of `start`, where local time is
/// `offset` seconds ahead of UTC.
pub open spec fn boundary_on_day(start: int, offset: int, hour: int, minute: int) -> int {
    let local = start + offset;
    local - local % 86_400 + hour * 3_600 + minute * 60 + local % 60 - offset
}

/// The first moment after `start` at which the boundary `at_boundary` of
/// the day of `start` or of the next day has come, or `now` if that is earlier.
pub open spec fn settled(start: int, at_boundary: int, now: int) -> int {
    let candidate = if at_boundary <= start {
        at_boundary + 86_400
    } else {
        at_boundary
    };
    if candidate <= now {
        candidate
    } else {
        now
    }
}

/// When a window that started at `start` is closed: at the next end of the
/// working day, but not after `now`.
pub open spec fn close_time(start: int, end_of_business: HourMinute, offset: int, now: int) -> int {
    settled(
        start,
        boundary_on_day(start, offset, end_of_business.0 as int, end_of_business.1 as int),
        now,
    )
}

/// Calls chrono: `FixedOffset::east_opt`, `TimeZone::timestamp_opt`,
/// `Timelike::with_hour`, `Timelike::with_minute` and `DateTime::timestamp`.
/// Trusted: for a start between 1970 and the end of the year 9999, an offset
/// of less than a day and a valid time of day, chrono places the start on
/// the calendar of the fixed offset, replaces hour and minute while keeping
/// date and second, and gives the timestamp of that moment.
#[verifier::external_body]
fn boundary_timestamp(start: i64, utc_offset: i32, hour: u32, minute: u32) -> (r: Option<i64>)
    requires
        0 <= start <= MAX_TIMESTAMP,
        offset_in_range(utc_offset as int),
        hour < 24,
        minute < 60,
    ensures
        r is Some,
        r matches Some(t) ==> t == boundary_on_day(start as int, utc_offset as int, hour as int, minute as int),
{
    let zone = chrono::FixedOffset::east_opt(utc_offset)?;
    let started = zone.timestamp_opt(start, 0).single()?;
    let moved = started.with_hour(hour)?.with_minute(minute)?;
    Some(moved.timestamp())
}

/// Settles the time to close a window at, given the boundary on the day of
/// its start: a boundary that is not after the start moves to the next day,
/// and a time after `now` gives way to `now`.
pub fn settle_close_time(start: i64, at_boundary: i64, now: i64) -> (r: i64)
    requires
        start <= i64::MAX - DAY,
    ensures
        r == settled(start as int, at_boundary as int, now as int),
        r <= now,
{
    let candidate = if at_boundary <= start {
        at_boundary + DAY
    } else {
        at_boundary
    };
    if candidate <= now {
        candidate
    } else {
        now
    }
}

/// The time at which a window that started at `start` is closed when the
/// working day ends at `end_of_business` and local time is `utc_offset`
/// seconds ahead of UTC. `None` where the start is negative or after
/// [`MAX_TIMESTAMP`], or the offset is a day or more.
pub fn close_time_of(start: i64, end_of_business: HourMinute, utc_offset: i32, now: i64) -> (r: Option<i64>)
    requires
        end_of_business.valid(),
    ensures
        r is Some == (0 <= start <= MAX_TIMESTAMP && offset_in_range(utc_offset as int)),
        r matches Some(t) ==> t == close_time(start as int, end_of_business, utc_offset as int, now as int)
            && t <= now,
{
    if start < 0 || start > MAX_TIMESTAMP || utc_offset <= -86_400 || utc_offset >= 86_400 {
        return None;
    }
    match boundary_timestamp(start, utc_offset, end_of_business.0, end_of_business.1) {
        Some(at_boundary) => Some(settle_close_time(start, at_boundary, now)),
        None => None,
    }
}

/// The open windows of `rows`, in stored order, each with the end that it
/// is to be closed at.
pub open spec fn pending_closes(rows: Seq<WindowModel>, end_of_business: HourMinute, offset: int, now: int) -> Seq<WindowModel>
    decreases rows.len(),
{
    if rows.len() == 0 {
        rows
    } else {
        let before = pending_closes(rows.drop_last(), end_of_business, offset, now);
        if rows.last().is_open() {
            before.push(
                WindowModel {
                    end_time: Some(close_time(rows.last().start_time, end_of_business, offset, now)),
                    ..rows.last()
                },
            )
        } else {
            before
        }
    }
}

/// The rows with every open window closed at the next end of the working
/// day after its start, or at `now` if that is earlier.
pub open spec fn closed_by_boundary(rows: Seq<WindowModel>, end_of_business: HourMinute, offset: int, now: int) -> Seq<
    WindowModel,
> {
    Seq::new(
        rows.len(),
        |i: int|
            if rows[i].is_open() {
                WindowModel {
                    end_time: Some(close_time(rows[i].start_time, end_of_business, offset, now)),
                    ..rows[i]
                }
            } else {
                rows[i]
            },
    )
}

/// The rows after the windows of `pending` are written back in turn;
/// `None` where the store refuses one of them.
pub open spec fn close_all(rows: Seq<WindowModel>, cats: Seq<Seq<char>>, pending: Seq<WindowModel>) -> Option<Seq<WindowModel>>
    decreases pending.len(),
{
    if pending.len() == 0 {
        Some(rows)
    } else if upsert_accepts(rows, cats, pending[0]) {
        close_all(written(rows, pending[0], stored_id(rows, pending[0])), cats, pending.skip(1))
    } else {
        None
    }
}

/// Where writing the windows of `pending` back in turn stops because the
/// store refuses one: the rows at that point and the window refused.
pub open spec fn refusal_point(rows: Seq<WindowModel>, cats: Seq<Seq<char>>, pending: Seq<WindowModel>) -> (
    Seq<WindowModel>,
    WindowModel,
)
    recommends
        close_all(rows, cats, pending) is None,
    decreases pending.len(),
{
    if pending.len() == 0 {
        (rows, arbitrary())
    } else if upsert_accepts(rows, cats, pending[0]) {
        refusal_point(written(rows, pending[0], stored_id(rows, pending[0])), cats, pending.skip(1))
    } else {
        (rows, pending[0])
    }
}

/// Some open window starts after [`MAX_TIMESTAMP`].
pub open spec fn open_out_of_range(rows: Seq<WindowModel>) -> bool {
    exists|i: int|
        0 <= i < rows.len() && (#[trigger] rows[i]).is_open() && rows[i].start_time > MAX_TIMESTAMP
}

/// The message for an offset from UTC of a day or more.
pub open spec fn offset_message() -> Seq<char> {
    "the offset from UTC is a day or more"@
}

/// The message for an open window that starts after [`MAX_TIMESTAMP`].
pub open spec fn starts_too_late_message() -> Seq<char> {
    "an open window starts too late to be closed at a time of day"@
}

/// `e` is the error with which closing at the end of the working day is
/// refused: for an offset of a day or more, for an open window that starts
/// too late, or else the error with which the store refuses the first
/// closed window that it does not take.
pub open spec fn rollover_refusal(
    rows: Seq<WindowModel>,
    cats: Seq<Seq<char>>,
    end_of_business: HourMinute,
    offset: int,
    now: int,
    e: TTError,
) -> bool {
    if !offset_in_range(offset) {
        e matches TTError::TTError { message } && message@ == offset_message()
    } else if open_out_of_range(rows) {
        e matches TTError::TTError { message } && message@ == starts_too_late_message()
    } else {
        let at = refusal_point(rows, cats, pending_closes(rows, end_of_business, offset, now));
        refusal(at.0, cats, at.1, e)
    }
}

/// Closes every open window at the next end of the working day after its
/// start, or at `now` if that is earlier, and writes each back as
/// [`upsert_time`] does, so that on success every other window is as it was. Local time is taken to be `utc_offset` seconds
/// ahead of UTC. An offset of a day or more and an open window that starts
/// after [`MAX_TIMESTAMP`] are refused; so is the whole operation where the
/// store refuses one of the closed windows. A refusal leaves the store as
/// it was.
pub fn end_open_times(
    ledger: &mut Ledger,
    end_of_business: HourMinute,
    utc_offset: i32,
    now: i64,
) -> (res: Result<(), TTError>)
    requires
        old(ledger).wf(),
        end_of_business.valid(),
    ensures
        final(ledger).wf(),
        final(ledger).category_names() == old(ledger).category_names(),
        final(ledger).option_pairs() == old(ledger).option_pairs(),
        res is Ok == (offset_in_range(utc_offset as int) && !open_out_of_range(old(ledger).rows())
            && close_all(
            old(ledger).rows(),
            old(ledger).category_names(),
            pending_closes(old(ledger).rows(), end_of_business, utc_offset as int, now as int),
        ) is Some),
        res is Ok ==> Some(final(ledger).rows()) == close_all(
            old(ledger).rows(),
            old(ledger).category_names(),
            pending_closes(old(ledger).rows(), end_of_business, utc_offset as int, now as int),
        ),
        res is Ok ==> final(ledger).rows() == closed_by_boundary(
            old(ledger).rows(),
            end_of_business,
            utc_offset as int,
            now as int,
        ),
        res is Ok ==> forall|i: int|
            0 <= i < old(ledger).rows().len() && (#[trigger] old(ledger).rows()[i]).is_open()
                ==> ends_by(final(ledger).rows()[i], now as int),
        res is Err ==> final(ledger).same_content(old(ledger)),
        res matches Err(e) ==> rollover_refusal(
            old(ledger).rows(),
            old(ledger).category_names(),
            end_of_business,
            utc_offset as int,
            now as int,
            e,
        ),
{
    if utc_offset <= -86_400 || utc_offset >= 86_400 {
        return Err(TTError::TTError { message: "the offset from UTC is a day or more".to_string() });
    }
    let ghost rows = ledger.rows();
    let ghost cats = ledger.category_names();
    let mut updated: Vec<TimeWindow> = Vec::new();
    let times = ledger.windows();
    let mut i: usize = 0;
    proof {
        assert(models(updated@) =~= pending_closes(
            rows.take(0),
            end_of_business,
            utc_offset as int,
            now as int,
        ));
    }
    while i < times.len()
        invariant
            i <= times@.len(),
            models(times@) == rows,
            rows_wf(rows, cats),
            *ledger == *old(ledger),
            ledger.wf(),
            rows == old(ledger).rows(),
            end_of_business.valid(),
            offset_in_range(utc_offset as int),
            models(updated@) == pending_closes(
                rows.take(i as int),
                end_of_business,
                utc_offset as int,
                now as int,
            ),
            forall|j: int|
                0 <= j < i ==> !((#[trigger] rows[j]).is_open() && rows[j].start_time > MAX_TIMESTAMP),
        decreases times@.len() - i,
    {
        proof {
            assert(rows.take(i + 1).drop_last() =~= rows.take(i as int));
            assert(rows.take(i + 1).last() == rows[i as int]);
            assert(rows[i as int] == times@[i as int]@);
            assert(rows[i as int].valid());
        }
        if times[i].end_time.is_none() {
            match close_time_of(times[i].start_time, end_of_business, utc_offset, now) {
                Some(end) => {
                    let ghost before = updated@;
                    let row = TimeWindow {
                        id: times[i].id,
                        category: times[i].category.clone(),
                        start_time: times[i].start_time,
                        end_time: Some(end),
                    };
                    updated.push(row);
                    proof {
                        assert(models(updated@) =~= models(before).push(row@));
                    }
                },
                None => {
                    proof {
                        assert(rows[i as int].is_open() && rows[i as int].start_time > MAX_TIMESTAMP);
                    }
                    return Err(
                        TTError::TTError {
                            message: "an open window starts too late to be closed at a time of day".to_string(),
                        },
                    );
                },
            }
        }
        i += 1;
    }
    proof {
        assert(rows.take(i as int) =~= rows);
        assert(!open_out_of_range(rows));
    }
    let ghost pending = models(updated@);
    let saved = ledger.snapshot();
    let mut k: usize = 0;
    proof {
        assert(pending.skip(0) =~= pending);
    }
    while k < updated.len()
        invariant
            k <= updated@.len(),
            pending == models(updated@),
            ledger.wf(),
            ledger.category_names() == cats,
            ledger.option_pairs() == old(ledger).option_pairs(),
            saved.wf(),
            saved.same_content(old(ledger)),
            !open_out_of_range(rows),
            offset_in_range(utc_offset as int),
            pending == pending_closes(rows, end_of_business, utc_offset as int, now as int),
            rows == old(ledger).rows(),
            cats == old(ledger).category_names(),
            close_all(rows, cats, pending) == close_all(ledger.rows(), cats, pending.skip(k as int)),
            close_all(rows, cats, pending) is None ==> refusal_point(rows, cats, pending)
                == refusal_point(ledger.rows(), cats, pending.skip(k as int)),
        decreases updated@.len() - k,
    {
        let row = updated[k].duplicate();
        proof {
            assert(pending.skip(k as int).len() > 0);
            assert(pending.skip(k as int)[0] == row@);
            assert(pending.skip(k as int).skip(1) =~= pending.skip(k + 1));
        }
        let ghost before = ledger.rows();
        match upsert_time(ledger, row) {
            Ok(()) => {},
            Err(e) => {
                proof {
                    assert(!upsert_accepts(before, cats, row@));
                    assert(close_all(before, cats, pending.skip(k as int)) is None);
                    assert(refusal_point(before, cats, pending.skip(k as int)) == (before, row@));
                }
                *ledger = saved;
                return Err(e);
            },
        }
        k += 1;
    }
    proof {
        assert(pending.skip(k as int).len() == 0);
        law_rollover_closes_each_open_window(
            rows,
            cats,
            end_of_business,
            utc_offset as int,
            now as int,
        );
    }
    Ok(())
}

} // verus!
