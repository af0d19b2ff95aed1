//! The commands of the command line and what each does to the store.

use vstd::prelude::*;
use crate::commands::{
    amend_refusal, amend_time, amended, bulk_delete_times, delete_time, opt_text, start_refusal,
    start_timing, stop_refusal, stop_timing, stopped, unread_range_message,
};
use crate::config::{boundary_of, get_config, pairs, set_option, unset_option, Config, OptionName};
use crate::clock::{parse_error_message, parsed};
use crate::error::TTError;
use crate::export::ExportFormat;
use crate::ledger::{
    add_category, bulk_filter, category_exists_message, chosen, delete_category, end_of_day_name,
    get_last_open_time, get_time, get_times, has_id, has_open, in_use, is_last_open, models,
    name_in_use_message, names, next_id, opening, position_of, range_message, recategorized,
    rename_category, upsert_accepts, without_name, Ledger, RowFilter,
};
use crate::window::{opt_int, TimeWindow, WindowModel};

verus! {

/// What was asked on the command line.
#[derive(Debug)]
pub struct Cli {
    pub db_path: Option<String>,
    pub command: Commands,
}

/// The commands. Times are held as they were written; what they were read
/// as comes with the [`Moment`].
#[derive(Debug)]
#[allow(inconsistent_fields)]
pub enum Commands {
    ShowConfig,
    AddCategory { category_name: String },
    DeleteCategory { category_name: String, delete_logged_times: bool },
    SetOption { option_name: OptionName, option_value: String },
    UnsetOption { option_name: OptionName },
    StartTiming { category_name: String, notify: bool },
    StopTiming { notify: bool },
    AmendTime {
        time_id: i64,
        start_time: Option<String>,
        end_time: Option<String>,
        category: Option<String>,
    },
    RenameCategory { old: String, new: String },
    CurrentlyTiming { notify: bool },
    BulkDeleteTimes { non_inclusive: bool, start_time: String, end_time: String },
    DeleteTime { time_id: i64 },
    Export {
        format: ExportFormat,
        listen: bool,
        outfile: String,
        start_time: Option<String>,
        end_time: Option<String>,
    },
}

/// What the clock of the machine gives when a command is carried out, and
/// what the start and end time of the command, where it has them, were
/// read as against that clock; `None` for a time that is not there or
/// could not be read.
#[derive(Clone, Copy, Debug, PartialEq, Eq)]
pub struct Moment {
    pub now: i64,
    pub utc_offset: i32,
    pub start_time: Option<i64>,
    pub end_time: Option<i64>,
}

/// What is left to do once the store has taken a command.
#[derive(Debug, PartialEq, Eq)]
pub enum Outcome {
    /// Nothing is to be reported.
    Done,
    /// The configuration is to be shown.
    Config(Config),
    /// Timing has started; `previous` was open before.
    Started { previous: Option<TimeWindow>, notify: bool },
    /// Timing has stopped; `previous` was open before.
    Stopped { previous: Option<TimeWindow>, notify: bool },
    /// The window that is open, if one is, is to be shown.
    Timing { open: Option<TimeWindow>, notify: bool },
    /// So many windows were deleted.
    Deleted(usize),
    /// These windows are to be exported.
    Export { times: Vec<TimeWindow> },
}

/// The message for a start time that is there and could not be read.
pub open spec fn unread_start_message() -> Seq<char> {
    "Was unable to parse start-time"@
}

/// The message for an end time that is there and could not be read.
pub open spec fn unread_end_message() -> Seq<char> {
    "was unable to parse end-time"@
}

/// The rows of `ledger` after timing has stopped at `moment`; `None` where
/// stopping is refused.
pub open spec fn stopped_at(ledger: &Ledger, moment: &Moment) -> Option<Seq<WindowModel>> {
    stopped(
        ledger.rows(),
        ledger.category_names(),
        boundary_of(ledger.option_pairs()),
        moment.utc_offset as int,
        moment.now as int,
    )
}

/// `found` is the window of `ledger` that was open last, or nothing where
/// none is open.
pub open spec fn is_open_one(ledger: &Ledger, found: Option<TimeWindow>) -> bool {
    (found is Some == has_open(ledger.rows())) && (found matches Some(w) ==> exists|k: int|
        is_last_open(ledger.rows(), k) && w@ == ledger.rows()[k])
}

/// The stored window with the id `time_id` as the command to amend it
/// would have it.
pub open spec fn amended_row(
    ledger: &Ledger,
    time_id: i64,
    moment: &Moment,
    category: Option<String>,
) -> WindowModel {
    amended(
        ledger.rows()[position_of(ledger.rows(), time_id as int)],
        opt_int(moment.start_time),
        opt_int(moment.end_time),
        opt_text(category),
    )
}

/// The command went through and nothing is to be reported.
pub open spec fn is_done(res: Result<Outcome, TTError>) -> bool {
    res == Ok::<Outcome, TTError>(Outcome::Done)
}

/// Carries out a command on the store. Every command either takes effect
/// as a whole or is refused and leaves the store as it was; what each
/// command does is what the function of the same name does. A command to
/// amend or to export whose start or end time is written but could not be
/// read is refused; to amend, the window must be stored first of all.
pub fn execute(cli: &Cli, ledger: &mut Ledger, moment: &Moment) -> (res: Result<Outcome, TTError>)
    requires
        old(ledger).wf(),
    ensures
        final(ledger).wf(),
        res is Err ==> final(ledger).same_content(old(ledger)),
        res is Ok ==> match cli.command {
            Commands::ShowConfig => final(ledger).same_content(old(ledger)) && (
            res matches Ok(Outcome::Config(c)) && pairs(c.options@) == old(ledger).option_pairs()
                && names(c.categories@) == old(ledger).category_names()),
            Commands::AddCategory { category_name } => is_done(res)
                && final(ledger).rows() == old(ledger).rows()
                && final(ledger).category_names() == old(ledger).category_names().push(
                category_name@,
            ),
            Commands::DeleteCategory { category_name, delete_logged_times } => is_done(res)
                && final(ledger).rows() == chosen(
                old(ledger).rows(),
                RowFilter::InCategory { name: category_name@ },
                false,
            ) && final(ledger).category_names() == without_name(
                old(ledger).category_names(),
                category_name@,
            ),
            Commands::SetOption { option_name, option_value } => is_done(res)
                && final(ledger).rows() == old(ledger).rows()
                && final(ledger).option_pairs() == seq![(end_of_day_name(), option_value@)],
            Commands::UnsetOption { option_name } => is_done(res)
                && final(ledger).rows() == old(ledger).rows()
                && final(ledger).option_pairs() == Seq::<(Seq<char>, Seq<char>)>::empty(),
            Commands::StartTiming { category_name, notify } => (
            stopped_at(old(ledger), moment) matches Some(rows) && final(ledger).rows() == rows.push(
                WindowModel {
                    id: Some(next_id(rows)),
                    ..opening(category_name@, moment.now as int)
                },
            )) && (res matches Ok(Outcome::Started { previous, notify: n }) && n == notify
                && is_open_one(old(ledger), previous)),
            Commands::StopTiming { notify } => Some(final(ledger).rows()) == stopped_at(
                old(ledger),
                moment,
            ) && (res matches Ok(Outcome::Stopped { previous, notify: n }) && n == notify
                && is_open_one(old(ledger), previous)),
            Commands::AmendTime { time_id, start_time, end_time, category } => is_done(res)
                && final(ledger).rows() == old(ledger).rows().update(
                position_of(old(ledger).rows(), time_id as int),
                amended_row(old(ledger), time_id, moment, category),
            ),
            Commands::RenameCategory { old: old_name, new: new_name } => is_done(res)
                && final(ledger).rows() == recategorized(old(ledger).rows(), old_name@, new_name@)
                && final(ledger).category_names() == old(ledger).category_names().update(
                old(ledger).category_names().index_of(old_name@),
                new_name@,
            ),
            Commands::CurrentlyTiming { notify } => final(ledger).same_content(old(ledger)) && (
            res matches Ok(Outcome::Timing { open, notify: n }) && n == notify && is_open_one(
                old(ledger),
                open,
            )),
            Commands::BulkDeleteTimes { non_inclusive, start_time, end_time } => (
            res matches Ok(Outcome::Deleted(n)) && final(ledger).rows() == chosen(
                old(ledger).rows(),
                bulk_filter(
                    moment.start_time->Some_0 as int,
                    moment.end_time->Some_0 as int,
                    non_inclusive,
                ),
                false,
            ) && n == old(ledger).rows().len() - final(ledger).rows().len()),
            Commands::DeleteTime { time_id } => is_done(res)
                && final(ledger).rows() == old(ledger).rows().remove(
                position_of(old(ledger).rows(), time_id as int),
            ),
            Commands::Export { format, listen, outfile, start_time, end_time } => final(ledger)
                .same_content(old(ledger))
                && (res matches Ok(Outcome::Export { times }) && models(
                times@,
            ) == chosen(
                old(ledger).rows(),
                RowFilter::StartBetween {
                    earliest: opt_int(moment.start_time),
                    latest: opt_int(moment.end_time),
                },
                true,
            )),
        },
        res is Ok == match cli.command {
            Commands::ShowConfig => true,
            Commands::AddCategory { category_name } => !old(ledger).category_names().contains(
                category_name@,
            ),
            Commands::DeleteCategory { category_name, delete_logged_times } => delete_logged_times
                || (old(ledger).category_names().contains(category_name@) && !in_use(
                old(ledger).rows(),
                category_name@,
            )),
            Commands::SetOption { option_name, option_value } => parsed(option_value@) is Some,
            Commands::UnsetOption { option_name } => true,
            Commands::StartTiming { category_name, notify } => old(ledger)
                .category_names().contains(category_name@) && (
            stopped_at(old(ledger), moment) matches Some(rows) && upsert_accepts(
                rows,
                old(ledger).category_names(),
                opening(category_name@, moment.now as int),
            )),
            Commands::StopTiming { notify } => stopped_at(old(ledger), moment) is Some,
            Commands::AmendTime { time_id, start_time, end_time, category } => has_id(
                old(ledger).rows(),
                time_id as int,
            ) && (start_time is Some ==> moment.start_time is Some) && (end_time is Some
                ==> moment.end_time is Some) && upsert_accepts(
                old(ledger).rows(),
                old(ledger).category_names(),
                amended_row(old(ledger), time_id, moment, category),
            ),
            Commands::RenameCategory { old: old_name, new: new_name } => old(ledger)
                .category_names().contains(old_name@)
                && (new_name@ == old_name@
                || !old(ledger).category_names().contains(new_name@)),
            Commands::CurrentlyTiming { notify } => true,
            Commands::BulkDeleteTimes { non_inclusive, start_time, end_time } => (
            moment.start_time matches Some(s) && moment.end_time matches Some(e) && e > s),
            Commands::DeleteTime { time_id } => has_id(old(ledger).rows(), time_id as int),
            Commands::Export { format, listen, outfile, start_time, end_time } => (
            start_time is Some ==> moment.start_time is Some) && (end_time is Some
                ==> moment.end_time is Some),
        },
        res matches Err(e) ==> match cli.command {
            Commands::AddCategory { category_name } => (e matches TTError::TTError { message }
                && message@ == category_exists_message()),
            Commands::DeleteCategory { category_name, delete_logged_times } => e == (if old(ledger)
                .category_names().contains(category_name@) {
                TTError::Integrity
            } else {
                TTError::NotFound
            }),
            Commands::SetOption { option_name, option_value } => (
            e matches TTError::TTError { message } && message@ == parse_error_message(
                option_value@,
            )),
            Commands::BulkDeleteTimes { non_inclusive, start_time, end_time } => (
            e matches TTError::TTError { message } && message@ == (if moment.start_time is Some
                && moment.end_time is Some {
                range_message(moment.start_time->Some_0 as int, moment.end_time->Some_0 as int)
            } else {
                unread_range_message(
                    opt_int(moment.start_time),
                    opt_int(moment.end_time),
                    start_time@,
                    end_time@,
                )
            })),
            Commands::StartTiming { category_name, notify } => start_refusal(
                old(ledger).rows(),
                old(ledger).category_names(),
                boundary_of(old(ledger).option_pairs()),
                moment.utc_offset as int,
                moment.now as int,
                category_name@,
                e,
            ),
            Commands::StopTiming { notify } => stop_refusal(
                old(ledger).rows(),
                old(ledger).category_names(),
                boundary_of(old(ledger).option_pairs()),
                moment.utc_offset as int,
                moment.now as int,
                e,
            ),
            Commands::AmendTime { time_id, start_time, end_time, category } => if has_id(
                old(ledger).rows(),
                time_id as int,
            ) && start_time is Some && moment.start_time is None {
                e matches TTError::TTError { message } && message@ == unread_start_message()
            } else if has_id(old(ledger).rows(), time_id as int) && end_time is Some
                && moment.end_time is None {
                e matches TTError::TTError { message } && message@ == unread_end_message()
            } else {
                amend_refusal(
                    old(ledger).rows(),
                    old(ledger).category_names(),
                    time_id as int,
                    opt_int(moment.start_time),
                    opt_int(moment.end_time),
                    opt_text(category),
                    e,
                )
            },
            Commands::RenameCategory { old: old_name, new: new_name } => if old(ledger)
                .category_names().contains(old_name@) {
                e matches TTError::TTError { message } && message@ == name_in_use_message()
            } else {
                e == TTError::NotFound
            },
            Commands::DeleteTime { time_id } => e == TTError::NotFound,
            Commands::Export { format, listen, outfile, start_time, end_time } => (
            e matches TTError::TTError { message } && message@ == (if start_time is Some
                && moment.start_time is None {
                unread_start_message()
            } else {
                unread_end_message()
            })),
            _ => false,
        },
{
    match &cli.command {
        Commands::ShowConfig => match get_config(ledger) {
            Ok(config) => Ok(Outcome::Config(config)),
            Err(e) => Err(e),
        },
        Commands::AddCategory { category_name } => match add_category(ledger, category_name) {
            Ok(()) => Ok(Outcome::Done),
            Err(e) => Err(e),
        },
        Commands::DeleteCategory { category_name, delete_logged_times } => match delete_category(
            ledger,
            category_name,
            delete_logged_times,
        ) {
            Ok(()) => Ok(Outcome::Done),
            Err(e) => Err(e),
        },
        Commands::SetOption { option_name, option_value } => match set_option(
            ledger,
            option_name,
            option_value,
        ) {
            Ok(()) => Ok(Outcome::Done),
            Err(e) => Err(e),
        },
        Commands::UnsetOption { option_name } => match unset_option(ledger, option_name) {
            Ok(()) => Ok(Outcome::Done),
            Err(e) => Err(e),
        },
        Commands::StartTiming { category_name, notify } => match start_timing(
            ledger,
            category_name,
            moment.utc_offset,
            moment.now,
        ) {
            Ok(previous) => Ok(Outcome::Started { previous, notify: *notify }),
            Err(e) => Err(e),
        },
        Commands::StopTiming { notify } => match stop_timing(ledger, moment.utc_offset, moment.now) {
            Ok(previous) => Ok(Outcome::Stopped { previous, notify: *notify }),
            Err(e) => Err(e),
        },
        Commands::AmendTime { time_id, start_time, end_time, category } => {
            if let Err(e) = get_time(ledger, *time_id) {
                return Err(e);
            }
            if start_time.is_some() && moment.start_time.is_none() {
                return Err(
                    TTError::TTError { message: "Was unable to parse start-time".to_string() },
                );
            }
            if end_time.is_some() && moment.end_time.is_none() {
                return Err(TTError::TTError { message: "was unable to parse end-time".to_string() });
            }
            match amend_time(ledger, time_id, moment.start_time, moment.end_time, category) {
                Ok(()) => Ok(Outcome::Done),
                Err(e) => Err(e),
            }
        },
        Commands::RenameCategory { old: old_name, new: new_name } => match rename_category(
            ledger,
            old_name,
            new_name,
        ) {
            Ok(()) => Ok(Outcome::Done),
            Err(e) => Err(e),
        },
        Commands::CurrentlyTiming { notify } => match get_last_open_time(ledger) {
            Ok(open) => Ok(Outcome::Timing { open, notify: *notify }),
            Err(e) => Err(e),
        },
        Commands::BulkDeleteTimes { non_inclusive, start_time, end_time } => match bulk_delete_times(
            ledger,
            start_time,
            end_time,
            moment.start_time,
            moment.end_time,
            non_inclusive,
        ) {
            Ok(n) => Ok(Outcome::Deleted(n)),
            Err(e) => Err(e),
        },
        Commands::DeleteTime { time_id } => match delete_time(ledger, time_id) {
            Ok(()) => Ok(Outcome::Done),
            Err(e) => Err(e),
        },
        Commands::Export { format: _, listen: _, outfile: _, start_time, end_time } => {
            if start_time.is_some() && moment.start_time.is_none() {
                return Err(
                    TTError::TTError { message: "Was unable to parse start-time".to_string() },
                );
            }
            if end_time.is_some() && moment.end_time.is_none() {
                return Err(TTError::TTError { message: "was unable to parse end-time".to_string() });
            }
            match get_times(ledger, moment.start_time, moment.end_time) {
                Ok(times) => Ok(Outcome::Export { times }),
                Err(e) => Err(e),
            }
        },
    }
}

} // verus!
