//! The operations of the command layer: each either takes effect as a
//! whole or leaves the store as it was.

use vstd::prelude::*;
use vstd::string::*;
use crate::clock::HourMinute;
use crate::config::{boundary_of, get_end_of_day};
use crate::error::TTError;
use crate::ledger::{
    bulk_filter, chosen, closed_at, closes_before_start_message, get_last_open_time, get_time,
    has_id, has_open, is_last_open, next_id, open_after, opening, position_of, range_message,
    refusal, upsert_accepts, upsert_time, Ledger,
};
use crate::rollover::{
    close_all, end_open_times, offset_in_range, open_out_of_range, pending_closes,
    rollover_refusal,
};
use crate::window::{opt_int, TimeWindow, WindowModel};

verus! {

/// The rows after timing has stopped: with a configured end of the working
/// day every open window is closed at the next one after its start or at
/// `now`, whichever is earlier, and written back; without one every open
/// window is closed at `now`. `None` where stopping is refused.
pub open spec fn stopped(
    rows: Seq<WindowModel>,
    cats: Seq<Seq<char>>,
    boundary: Option<HourMinute>,
    offset: int,
    now: int,
) -> Option<Seq<WindowModel>> {
    match boundary {
        Some(end_of_business) => if offset_in_range(offset) && !open_out_of_range(rows) {
            close_all(rows, cats, pending_closes(rows, end_of_business, offset, now))
        } else {
            None
        },
        None => if open_after(rows, now) {
            None
        } else {
            Some(closed_at(rows, now))
        },
    }
}

/// `e` is the error with which stopping is refused: with a configured end
/// of the working day that of closing at it, and without one that of
/// closing at a time before the start of an open window.
pub open spec fn stop_refusal(
    rows: Seq<WindowModel>,
    cats: Seq<Seq<char>>,
    boundary: Option<HourMinute>,
    offset: int,
    now: int,
    e: TTError,
) -> bool {
    match boundary {
        Some(end_of_business) => rollover_refusal(rows, cats, end_of_business, offset, now, e),
        None => e matches TTError::TTError { message } && message@
            == closes_before_start_message(),
    }
}

/// `e` is the error with which starting to time `category` is refused: for
/// a category that is not stored, for timing that cannot be stopped, or
/// else the error with which the store refuses the new open window.
pub open spec fn start_refusal(
    rows: Seq<WindowModel>,
    cats: Seq<Seq<char>>,
    boundary: Option<HourMinute>,
    offset: int,
    now: int,
    category: Seq<char>,
    e: TTError,
) -> bool {
    if !cats.contains(category) {
        e == TTError::NotFound
    } else {
        match stopped(rows, cats, boundary, offset, now) {
            Some(after) => refusal(after, cats, opening(category, now), e),
            None => stop_refusal(rows, cats, boundary, offset, now, e),
        }
    }
}

/// `e` is the error with which amending the window with the id `id` is
/// refused: for an id that is not stored, or else the error with which the
/// store refuses the amended window.
pub open spec fn amend_refusal(
    rows: Seq<WindowModel>,
    cats: Seq<Seq<char>>,
    id: int,
    start_time: Option<int>,
    end_time: Option<int>,
    category: Option<Seq<char>>,
    e: TTError,
) -> bool {
    if !has_id(rows, id) {
        e == TTError::NotFound
    } else {
        refusal(rows, cats, amended(rows[position_of(rows, id)], start_time, end_time, category), e)
    }
}

/// Closes the open windows as the store is configured and leaves the rest
/// of the store alone.
fn close_open(ledger: &mut Ledger, utc_offset: i32, now: i64) -> (res: Result<(), TTError>)
    requires
        old(ledger).wf(),
    ensures
        final(ledger).wf(),
        final(ledger).category_names() == old(ledger).category_names(),
        final(ledger).option_pairs() == old(ledger).option_pairs(),
        res is Ok == stopped(
            old(ledger).rows(),
            old(ledger).category_names(),
            boundary_of(old(ledger).option_pairs()),
            utc_offset as int,
            now as int,
        ) is Some,
        res is Ok ==> Some(final(ledger).rows()) == stopped(
            old(ledger).rows(),
            old(ledger).category_names(),
            boundary_of(old(ledger).option_pairs()),
            utc_offset as int,
            now as int,
        ),
        res is Err ==> final(ledger).same_content(old(ledger)),
        res matches Err(e) ==> stop_refusal(
            old(ledger).rows(),
            old(ledger).category_names(),
            boundary_of(old(ledger).option_pairs()),
            utc_offset as int,
            now as int,
            e,
        ),
{
    match get_end_of_day(ledger) {
        Some(end_of_business) => end_open_times(ledger, end_of_business, utc_offset, now),
        None => crate::ledger::end_open_times_immediately(ledger, now),
    }
}

/// Stops timing: closes the open windows as the store is configured, where
/// local time is `utc_offset` seconds ahead of UTC. Returns the window that
/// was open last, for whoever reports it. A refusal leaves the store as it was.
pub fn stop_timing(ledger: &mut Ledger, utc_offset: i32, now: i64) -> (res: Result<
    Option<TimeWindow>,
    TTError,
>)
    requires
        old(ledger).wf(),
    ensures
        final(ledger).wf(),
        final(ledger).category_names() == old(ledger).category_names(),
        final(ledger).option_pairs() == old(ledger).option_pairs(),
        res is Ok == stopped(
            old(ledger).rows(),
            old(ledger).category_names(),
            boundary_of(old(ledger).option_pairs()),
            utc_offset as int,
            now as int,
        ) is Some,
        res is Ok ==> Some(final(ledger).rows()) == stopped(
            old(ledger).rows(),
            old(ledger).category_names(),
            boundary_of(old(ledger).option_pairs()),
            utc_offset as int,
            now as int,
        ),
        res matches Ok(last) ==> (last is Some == has_open(old(ledger).rows())) && (
        last matches Some(w) ==> exists|k: int|
            is_last_open(old(ledger).rows(), k) && w@ == old(ledger).rows()[k]),
        res is Err ==> final(ledger).same_content(old(ledger)),
        res matches Err(e) ==> stop_refusal(
            old(ledger).rows(),
            old(ledger).category_names(),
            boundary_of(old(ledger).option_pairs()),
            utc_offset as int,
            now as int,
            e,
        ),
{
    let last = match get_last_open_time(ledger) {
        Ok(last) => last,
        Err(e) => {
            return Err(e);
        },
    };
    match close_open(ledger, utc_offset, now) {
        Ok(()) => Ok(last),
        Err(e) => Err(e),
    }
}

/// Starts timing `category_name` at `now`: stops what is being timed, as
/// [`stop_timing`] does, and writes a new open window. A category that is
/// not stored is refused with [`TTError::NotFound`]. Returns the window that
/// was open before. A refusal leaves the store as it was.
pub fn start_timing(ledger: &mut Ledger, category_name: &String, utc_offset: i32, now: i64) -> (res:
    Result<Option<TimeWindow>, TTError>)
    requires
        old(ledger).wf(),
    ensures
        final(ledger).wf(),
        final(ledger).category_names() == old(ledger).category_names(),
        final(ledger).option_pairs() == old(ledger).option_pairs(),
        res matches Err(e) ==> start_refusal(
            old(ledger).rows(),
            old(ledger).category_names(),
            boundary_of(old(ledger).option_pairs()),
            utc_offset as int,
            now as int,
            category_name@,
            e,
        ),
        res is Ok == (old(ledger).category_names().contains(category_name@) && (stopped(
            old(ledger).rows(),
            old(ledger).category_names(),
            boundary_of(old(ledger).option_pairs()),
            utc_offset as int,
            now as int,
        ) matches Some(rows) && upsert_accepts(
            rows,
            old(ledger).category_names(),
            opening(category_name@, now as int),
        ))),
        res is Ok ==> (stopped(
            old(ledger).rows(),
            old(ledger).category_names(),
            boundary_of(old(ledger).option_pairs()),
            utc_offset as int,
            now as int,
        ) matches Some(rows) && final(ledger).rows() == rows.push(
            WindowModel { id: Some(next_id(rows)), ..opening(category_name@, now as int) },
        )),
        res matches Ok(last) ==> (last is Some == has_open(old(ledger).rows())) && (
        last matches Some(w) ==> exists|k: int|
            is_last_open(old(ledger).rows(), k) && w@ == old(ledger).rows()[k]),
        res is Err ==> final(ledger).same_content(old(ledger)),
{
    if !ledger.has_category(category_name) {
        return Err(TTError::NotFound);
    }
    let saved = ledger.snapshot();
    let last = match stop_timing(ledger, utc_offset, now) {
        Ok(last) => last,
        Err(e) => {
            return Err(e);
        },
    };
    match crate::ledger::start_timing(ledger, category_name, now) {
        Ok(()) => Ok(last),
        Err(e) => {
            *ledger = saved;
            Err(e)
        },
    }
}

/// The window `w` with a new start, end or category, each where one is given.
pub open spec fn amended(
    w: WindowModel,
    start_time: Option<int>,
    end_time: Option<int>,
    category: Option<Seq<char>>,
) -> WindowModel {
    WindowModel {
        id: w.id,
        category: match category {
            Some(c) => c,
            None => w.category,
        },
        start_time: match start_time {
            Some(s) => s,
            None => w.start_time,
        },
        end_time: match end_time {
            Some(e) => Some(e),
            None => w.end_time,
        },
    }
}

/// The text of an optional string.
pub open spec fn opt_text(o: Option<String>) -> Option<Seq<char>> {
    match o {
        Some(s) => Some(s@),
        None => None,
    }
}

/// Changes the start, the end or the category of the stored window with
/// the id `time_id`, each where one is given, and writes the window back as
/// [`upsert_time`] does, so that the store checks it again. An id that is
/// not stored is refused with [`TTError::NotFound`]. A refusal leaves the
/// store as it was.
pub fn amend_time(
    ledger: &mut Ledger,
    time_id: &i64,
    start_time: Option<i64>,
    end_time: Option<i64>,
    category_name: &Option<String>,
) -> (res: Result<(), TTError>)
    requires
        old(ledger).wf(),
    ensures
        final(ledger).wf(),
        final(ledger).category_names() == old(ledger).category_names(),
        final(ledger).option_pairs() == old(ledger).option_pairs(),
        res matches Err(e) ==> amend_refusal(
            old(ledger).rows(),
            old(ledger).category_names(),
            *time_id as int,
            opt_int(start_time),
            opt_int(end_time),
            opt_text(*category_name),
            e,
        ),
        res is Ok == (has_id(old(ledger).rows(), *time_id as int) && upsert_accepts(
            old(ledger).rows(),
            old(ledger).category_names(),
            amended(
                old(ledger).rows()[position_of(old(ledger).rows(), *time_id as int)],
                opt_int(start_time),
                opt_int(end_time),
                opt_text(*category_name),
            ),
        )),
        res is Ok ==> final(ledger).rows() == old(ledger).rows().update(
            position_of(old(ledger).rows(), *time_id as int),
            amended(
                old(ledger).rows()[position_of(old(ledger).rows(), *time_id as int)],
                opt_int(start_time),
                opt_int(end_time),
                opt_text(*category_name),
            ),
        ),
        res is Err ==> *final(ledger) == *old(ledger),
{
    let mut time = match get_time(ledger, *time_id) {
        Ok(time) => time,
        Err(e) => {
            return Err(e);
        },
    };
    let ghost row = time@;
    if let Some(start) = start_time {
        time.start_time = start;
    }
    if let Some(end) = end_time {
        time.end_time = Some(end);
    }
    if let Some(category) = category_name {
        time.category = category.clone();
    }
    proof {
        assert(time@ == amended(row, opt_int(start_time), opt_int(end_time), opt_text(*category_name)));
        assert((WindowModel { id: Some(*time_id as int), ..time@ }) == time@);
    }
    upsert_time(ledger, time)
}

/// Deletes the stored window with the id `time_id`. An id that is not
/// stored is refused with [`TTError::NotFound`].
pub fn delete_time(ledger: &mut Ledger, time_id: &i64) -> (res: Result<(), TTError>)
    requires
        old(ledger).wf(),
    ensures
        final(ledger).wf(),
        final(ledger).category_names() == old(ledger).category_names(),
        final(ledger).option_pairs() == old(ledger).option_pairs(),
        final(ledger).last_id() == old(ledger).last_id(),
        res is Ok == has_id(old(ledger).rows(), *time_id as int),
        res is Ok ==> final(ledger).rows() == old(ledger).rows().remove(
            position_of(old(ledger).rows(), *time_id as int),
        ),
        res matches Err(e) ==> e == TTError::NotFound && final(ledger).rows() == old(ledger).rows(),
{
    match crate::ledger::delete_time(ledger, time_id) {
        Ok(n) => if n == 0 {
            Err(TTError::NotFound)
        } else {
            Ok(())
        },
        Err(e) => Err(e),
    }
}

/// The message for a range of which one end or both could not be read;
/// `start_text` and `end_text` are the ends as they were written.
pub open spec fn unread_range_message(
    start_time: Option<int>,
    end_time: Option<int>,
    start_text: Seq<char>,
    end_text: Seq<char>,
) -> Seq<char> {
    if start_time is Some {
        "Could not parse --end-time, got \""@ + end_text + "\""@
    } else if end_time is Some {
        "Could not parse --start-time, got \""@ + end_text + "\""@
    } else {
        "Could not parse --start-time, got \""@ + start_text + "\" or --end-time, got("@ + end_text
            + ")"@
    }
}

/// Deletes the stored windows that the range selects, as
/// [`crate::ledger::bulk_delete_times`] does, once both ends of the range
/// are known: `start_time` and `end_time` are what the texts `start_text`
/// and `end_text` were read as. A range of which an end could not be read
/// is refused with a message that quotes the text.
pub fn bulk_delete_times(
    ledger: &mut Ledger,
    start_text: &String,
    end_text: &String,
    start_time: Option<i64>,
    end_time: Option<i64>,
    non_inclusive: &bool,
) -> (res: Result<usize, TTError>)
    requires
        old(ledger).wf(),
    ensures
        final(ledger).wf(),
        final(ledger).category_names() == old(ledger).category_names(),
        final(ledger).option_pairs() == old(ledger).option_pairs(),
        final(ledger).last_id() == old(ledger).last_id(),
        res is Ok == (start_time matches Some(s) && end_time matches Some(e) && e > s),
        res matches Ok(n) ==> final(ledger).rows() == chosen(
            old(ledger).rows(),
            bulk_filter(start_time->Some_0 as int, end_time->Some_0 as int, *non_inclusive),
            false,
        ) && n == old(ledger).rows().len() - final(ledger).rows().len(),
        res matches Err(e) ==> final(ledger).rows() == old(ledger).rows() && (e matches TTError::TTError {
            message,
        } && message@ == (if start_time is Some && end_time is Some {
            range_message(start_time->Some_0 as int, end_time->Some_0 as int)
        } else {
            unread_range_message(opt_int(start_time), opt_int(end_time), start_text@, end_text@)
        })),
{
    match (start_time, end_time) {
        (Some(s), Some(e)) => crate::ledger::bulk_delete_times(ledger, &s, &e, non_inclusive),
        (Some(_), None) => {
            let mut message = String::from_str("Could not parse --end-time, got \"");
            message.append(end_text.as_str());
            message.append("\"");
            Err(TTError::TTError { message })
        },
        (None, Some(_)) => {
            let mut message = String::from_str("Could not parse --start-time, got \"");
            message.append(end_text.as_str());
            message.append("\"");
            Err(TTError::TTError { message })
        },
        (None, None) => {
            let mut message = String::from_str("Could not parse --start-time, got \"");
            message.append(start_text.as_str());
            message.append("\" or --end-time, got(");
            message.append(end_text.as_str());
            message.append(")");
            Err(TTError::TTError { message })
        },
    }
}

} // verus!
