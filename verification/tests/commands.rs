use timetrack_jr::cli::{execute, Cli, Commands, Moment, Outcome};
use timetrack_jr::clock::HourMinute;
use timetrack_jr::export::ExportFormat;
use timetrack_jr::commands::{amend_time, bulk_delete_times, delete_time, start_timing, stop_timing};
use timetrack_jr::config::{
    get_categories, get_config, get_end_of_day, get_options, set_option, unset_option, Config,
    OptionName,
};
use timetrack_jr::error::TTError;
use timetrack_jr::ledger::{get_time, Ledger};
use timetrack_jr::window::TimeWindow;

fn window(id: Option<i64>, category: &str, start_time: i64, end_time: Option<i64>) -> TimeWindow {
    TimeWindow { id, category: category.to_string(), start_time, end_time }
}

fn store(end_of_day: Option<&str>, times: Vec<TimeWindow>) -> Ledger {
    Ledger::load(
        vec!["work".to_string(), "play".to_string()],
        end_of_day.map(|v| v.to_string()),
        times,
    )
    .unwrap()
}

#[test]
fn amend_checks_the_window_again() {
    let rows = vec![window(Some(1), "work", 10, Some(20)), window(Some(2), "work", 30, Some(40))];
    let mut ledger = store(None, rows.clone());
    assert_eq!(
        Err(TTError::Overlap {
            ids: vec![1],
            time: window(Some(2), "work", 15, Some(40)),
            example: window(Some(1), "work", 10, Some(20))
        }),
        amend_time(&mut ledger, &2, Some(15), None, &None)
    );
    assert_eq!(rows, *ledger.windows());
    assert!(matches!(
        amend_time(&mut ledger, &1, None, Some(30), &None),
        Err(TTError::Overlap { .. })
    ));
    assert_eq!(rows, *ledger.windows());
    assert_eq!(Err(TTError::NotFound), amend_time(&mut ledger, &3, Some(50), None, &None));
    assert_eq!(Err(TTError::NotFound), amend_time(&mut ledger, &1, None, None, &Some("rest".to_string())));
    assert!(matches!(
        amend_time(&mut ledger, &1, Some(25), None, &None),
        Err(TTError::TTError { .. })
    ));
    assert_eq!(rows, *ledger.windows());
    assert_eq!(Ok(()), amend_time(&mut ledger, &2, Some(21), Some(25), &Some("play".to_string())));
    assert_eq!(Ok(window(Some(2), "play", 21, Some(25))), get_time(&ledger, 2));
    assert_eq!(window(Some(1), "work", 10, Some(20)), ledger.windows()[0]);
}

#[test]
fn delete_time_reports_an_unknown_id() {
    let mut ledger = store(None, vec![window(Some(1), "work", 10, Some(20))]);
    assert_eq!(Err(TTError::NotFound), delete_time(&mut ledger, &2));
    assert_eq!(Ok(()), delete_time(&mut ledger, &1));
    assert!(ledger.windows().is_empty());
}

#[test]
fn bulk_delete_needs_both_ends() {
    let mut ledger = store(None, vec![window(Some(1), "work", 10, Some(20))]);
    let from = "yesterday".to_string();
    let to = "soonish".to_string();
    assert_eq!(
        Err(TTError::TTError {
            message: "Could not parse --start-time, got \"soonish\"".to_string()
        }),
        bulk_delete_times(&mut ledger, &from, &to, None, Some(5), &false)
    );
    assert_eq!(
        Err(TTError::TTError {
            message: "Could not parse --end-time, got \"soonish\"".to_string()
        }),
        bulk_delete_times(&mut ledger, &from, &to, Some(5), None, &false)
    );
    assert_eq!(
        Err(TTError::TTError {
            message: "Could not parse --start-time, got \"yesterday\" or --end-time, got(soonish)"
                .to_string()
        }),
        bulk_delete_times(&mut ledger, &from, &to, None, None, &false)
    );
    assert_eq!(
        Err(TTError::TTError {
            message: "end time (5) must be greater than start time (9)".to_string()
        }),
        bulk_delete_times(&mut ledger, &from, &to, Some(9), Some(5), &false)
    );
    assert_eq!(1, ledger.windows().len());
    assert_eq!(Ok(1), bulk_delete_times(&mut ledger, &from, &to, Some(5), Some(10), &false));
    assert!(ledger.windows().is_empty());
}

#[test]
fn stop_timing_without_a_boundary_closes_now() {
    let mut ledger = store(None, vec![window(Some(1), "work", 100, None)]);
    assert_eq!(Ok(Some(window(Some(1), "work", 100, None))), stop_timing(&mut ledger, 0, 500));
    assert_eq!(Some(500), ledger.windows()[0].end_time);
    assert_eq!(Ok(None), stop_timing(&mut ledger, 0, 900));
    assert_eq!(Some(500), ledger.windows()[0].end_time);
}

#[test]
fn stop_timing_with_a_boundary_closes_at_it() {
    // 1970-01-01 08:00 UTC, the working day ends at 17:00
    let mut ledger = store(Some("17:00"), vec![window(Some(1), "work", 8 * 3600, None)]);
    stop_timing(&mut ledger, 0, 3 * 86_400).unwrap();
    assert_eq!(Some(17 * 3600), ledger.windows()[0].end_time);
    // an hour east of UTC the same boundary comes an hour earlier
    let mut east = store(Some("17:00"), vec![window(Some(1), "work", 8 * 3600, None)]);
    stop_timing(&mut east, 3600, 3 * 86_400).unwrap();
    assert_eq!(Some(16 * 3600), east.windows()[0].end_time);
    // a value that is no time of day counts as no boundary
    let mut odd = store(Some("late"), vec![window(Some(1), "work", 8 * 3600, None)]);
    stop_timing(&mut odd, 0, 3 * 86_400).unwrap();
    assert_eq!(Some(3 * 86_400), odd.windows()[0].end_time);
}

#[test]
fn start_timing_stops_what_was_timed() {
    let mut ledger = store(None, vec![window(Some(1), "work", 100, None)]);
    assert_eq!(Err(TTError::NotFound), start_timing(&mut ledger, &"rest".to_string(), 0, 500));
    assert_eq!(None, ledger.windows()[0].end_time);
    // the new window would start when the old one ends
    assert!(matches!(
        start_timing(&mut ledger, &"play".to_string(), 0, 500),
        Err(TTError::Overlap { .. })
    ));
    assert_eq!(vec![window(Some(1), "work", 100, None)], *ledger.windows());

    let mut bounded = store(Some("0:10"), vec![window(Some(1), "work", 100, None)]);
    assert_eq!(
        Ok(Some(window(Some(1), "work", 100, None))),
        start_timing(&mut bounded, &"play".to_string(), 0, 5_000)
    );
    assert_eq!(
        vec![window(Some(1), "work", 100, Some(640)), window(Some(2), "play", 5_000, None)],
        *bounded.windows()
    );
}

#[test]
fn options_hold_the_end_of_day() {
    let mut ledger = Ledger::new();
    assert_eq!(None, get_end_of_day(&ledger));
    assert!(get_options(&ledger).unwrap().is_empty());
    assert_eq!(
        Err(TTError::TTError { message: "Got hour=25, but hour must be 0-23".to_string() }),
        set_option(&mut ledger, &OptionName::EndOfDay, &"25:00".to_string())
    );
    assert_eq!(None, ledger.end_of_day());
    assert_eq!(Ok(()), set_option(&mut ledger, &OptionName::EndOfDay, &"9:05".to_string()));
    assert_eq!(Some(HourMinute(9, 5)), get_end_of_day(&ledger));
    assert_eq!(
        vec![("end-of-day".to_string(), "9:05".to_string())],
        get_options(&ledger).unwrap()
    );
    assert_eq!("end-of-day", OptionName::EndOfDay.name());
    assert_eq!(Ok(()), unset_option(&mut ledger, &OptionName::EndOfDay));
    assert_eq!(None, get_end_of_day(&ledger));
}

#[test]
fn config_lists_options_and_categories() {
    let ledger = store(Some("17:00"), vec![]);
    assert_eq!(
        Ok(Config {
            options: vec![("end-of-day".to_string(), "17:00".to_string())],
            categories: vec!["work".to_string(), "play".to_string()],
        }),
        get_config(&ledger)
    );
    assert_eq!(Ok(vec!["work".to_string(), "play".to_string()]), get_categories(&ledger));
}

fn ask(command: Commands) -> Cli {
    Cli { db_path: None, command }
}

fn at(now: i64) -> Moment {
    Moment { now, utc_offset: 0, start_time: None, end_time: None }
}

#[test]
fn commands_run_against_the_store() {
    let mut ledger = Ledger::new();
    assert_eq!(
        Ok(Outcome::Done),
        execute(&ask(Commands::AddCategory { category_name: "work".to_string() }), &mut ledger, &at(0))
    );
    assert_eq!(
        Ok(Outcome::Started { previous: None, notify: true }),
        execute(
            &ask(Commands::StartTiming { category_name: "work".to_string(), notify: true }),
            &mut ledger,
            &at(100)
        )
    );
    assert_eq!(
        Ok(Outcome::Timing { open: Some(window(Some(1), "work", 100, None)), notify: false }),
        execute(&ask(Commands::CurrentlyTiming { notify: false }), &mut ledger, &at(150))
    );
    assert_eq!(
        Ok(Outcome::Stopped { previous: Some(window(Some(1), "work", 100, None)), notify: false }),
        execute(&ask(Commands::StopTiming { notify: false }), &mut ledger, &at(200))
    );
    assert_eq!(
        Ok(Outcome::Done),
        execute(
            &ask(Commands::AmendTime {
                time_id: 1,
                start_time: Some("earlier".to_string()),
                end_time: None,
                category: None
            }),
            &mut ledger,
            &Moment { now: 300, utc_offset: 0, start_time: Some(50), end_time: None }
        )
    );
    assert_eq!(vec![window(Some(1), "work", 50, Some(200))], *ledger.windows());
    assert_eq!(
        Ok(Outcome::Done),
        execute(
            &ask(Commands::SetOption {
                option_name: OptionName::EndOfDay,
                option_value: "17:00".to_string()
            }),
            &mut ledger,
            &at(300)
        )
    );
    assert_eq!(
        Ok(Outcome::Config(Config {
            options: vec![("end-of-day".to_string(), "17:00".to_string())],
            categories: vec!["work".to_string()],
        })),
        execute(&ask(Commands::ShowConfig), &mut ledger, &at(300))
    );
    assert_eq!(
        Ok(Outcome::Done),
        execute(&ask(Commands::UnsetOption { option_name: OptionName::EndOfDay }), &mut ledger, &at(300))
    );
    assert_eq!(
        Ok(Outcome::Done),
        execute(
            &ask(Commands::RenameCategory { old: "work".to_string(), new: "toil".to_string() }),
            &mut ledger,
            &at(300)
        )
    );
    assert_eq!(
        Err(TTError::Integrity),
        execute(
            &ask(Commands::DeleteCategory {
                category_name: "toil".to_string(),
                delete_logged_times: false
            }),
            &mut ledger,
            &at(300)
        )
    );
    assert_eq!(
        Ok(Outcome::Export { times: vec![window(Some(1), "toil", 50, Some(200))] }),
        execute(
            &ask(Commands::Export {
                format: ExportFormat::Csv,
                listen: false,
                outfile: "-".to_string(),
                start_time: None,
                end_time: Some("today".to_string())
            }),
            &mut ledger,
            &Moment { now: 300, utc_offset: 0, start_time: None, end_time: Some(60) }
        )
    );
    assert_eq!(
        Ok(Outcome::Deleted(1)),
        execute(
            &ask(Commands::BulkDeleteTimes {
                non_inclusive: true,
                start_time: "a".to_string(),
                end_time: "b".to_string()
            }),
            &mut ledger,
            &Moment { now: 300, utc_offset: 0, start_time: Some(0), end_time: Some(200) }
        )
    );
    assert_eq!(
        Err(TTError::NotFound),
        execute(&ask(Commands::DeleteTime { time_id: 1 }), &mut ledger, &at(300))
    );
    assert_eq!(
        Ok(Outcome::Done),
        execute(
            &ask(Commands::DeleteCategory {
                category_name: "toil".to_string(),
                delete_logged_times: false
            }),
            &mut ledger,
            &at(300)
        )
    );
    assert!(ledger.category_list().is_empty());
}

#[test]
fn export_needs_its_times_read() {
    let mut ledger = store(None, vec![window(Some(1), "work", 10, Some(20))]);
    let export = |start_time: Option<&str>, end_time: Option<&str>| {
        ask(Commands::Export {
            format: ExportFormat::Summary,
            listen: false,
            outfile: "-".to_string(),
            start_time: start_time.map(|s| s.to_string()),
            end_time: end_time.map(|s| s.to_string()),
        })
    };
    assert_eq!(
        Err(TTError::TTError { message: "Was unable to parse start-time".to_string() }),
        execute(&export(Some("?"), Some("?")), &mut ledger, &at(0))
    );
    assert_eq!(
        Err(TTError::TTError { message: "was unable to parse end-time".to_string() }),
        execute(
            &export(Some("?"), Some("?")),
            &mut ledger,
            &Moment { now: 0, utc_offset: 0, start_time: Some(1), end_time: None }
        )
    );
    assert_eq!(
        Ok(Outcome::Export { times: vec![] }),
        execute(
            &export(Some("later"), None),
            &mut ledger,
            &Moment { now: 0, utc_offset: 0, start_time: Some(11), end_time: None }
        )
    );
}

#[test]
fn amend_needs_its_times_read() {
    let rows = vec![window(Some(1), "work", 10, Some(20))];
    let mut ledger = store(None, rows.clone());
    let amend = |time_id: i64, start_time: Option<&str>, end_time: Option<&str>| {
        ask(Commands::AmendTime {
            time_id,
            start_time: start_time.map(|s| s.to_string()),
            end_time: end_time.map(|s| s.to_string()),
            category: None,
        })
    };
    assert_eq!(
        Err(TTError::TTError { message: "Was unable to parse start-time".to_string() }),
        execute(&amend(1, Some("whenever"), Some("whenever")), &mut ledger, &at(0))
    );
    assert_eq!(
        Err(TTError::TTError { message: "was unable to parse end-time".to_string() }),
        execute(
            &amend(1, Some("then"), Some("whenever")),
            &mut ledger,
            &Moment { now: 0, utc_offset: 0, start_time: Some(12), end_time: None }
        )
    );
    assert_eq!(
        Err(TTError::NotFound),
        execute(&amend(2, Some("whenever"), None), &mut ledger, &at(0))
    );
    assert_eq!(rows, *ledger.windows());
    assert_eq!(
        Ok(Outcome::Done),
        execute(
            &amend(1, None, Some("then")),
            &mut ledger,
            &Moment { now: 0, utc_offset: 0, start_time: None, end_time: Some(30) }
        )
    );
    assert_eq!(vec![window(Some(1), "work", 10, Some(30))], *ledger.windows());
    // a time that is not given leaves its field alone
    assert_eq!(Ok(Outcome::Done), execute(&amend(1, None, None), &mut ledger, &at(0)));
    assert_eq!(vec![window(Some(1), "work", 10, Some(30))], *ledger.windows());
}

#[test]
fn refusals_of_the_store_come_through_the_commands() {
    // starting while the old window ends at the same second
    let mut ledger = store(None, vec![window(Some(1), "work", 100, None)]);
    assert_eq!(
        Err(TTError::Overlap {
            ids: vec![1],
            time: window(None, "play", 500, None),
            example: window(Some(1), "work", 100, Some(500)),
        }),
        start_timing(&mut ledger, &"play".to_string(), 0, 500)
    );
    assert_eq!(vec![window(Some(1), "work", 100, None)], *ledger.windows());
    // stopping before the open window started
    assert_eq!(
        Err(TTError::TTError {
            message: "an open window starts after the time to close it at".to_string()
        }),
        stop_timing(&mut ledger, 0, 99)
    );
    // stopping at a boundary while two windows are open
    let mut two = store(
        Some("17:00"),
        vec![window(Some(1), "work", 100, None), window(Some(2), "work", 200, None)],
    );
    assert_eq!(
        Err(TTError::Overlap {
            ids: vec![2],
            time: window(Some(1), "work", 100, Some(61_240)),
            example: window(Some(2), "work", 200, None),
        }),
        stop_timing(&mut two, 0, 100_000)
    );
    assert_eq!(
        Err(TTError::Overlap {
            ids: vec![2],
            time: window(Some(1), "work", 100, Some(61_240)),
            example: window(Some(2), "work", 200, None),
        }),
        execute(&ask(Commands::StopTiming { notify: false }), &mut two, &at(100_000))
    );
    assert_eq!(
        Err(TTError::TTError { message: "the offset from UTC is a day or more".to_string() }),
        stop_timing(&mut two, 86_400, 100_000)
    );
    // amending a window into no window at all
    let mut one = store(None, vec![window(Some(1), "work", 100, Some(200))]);
    assert_eq!(
        Err(TTError::TTError {
            message: "start time must not be negative and end time must not be before start time"
                .to_string()
        }),
        amend_time(&mut one, &1, Some(300), None, &None)
    );
}
