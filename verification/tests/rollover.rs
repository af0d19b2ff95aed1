use chrono::{Duration, FixedOffset, TimeZone, Timelike};
use timetrack_jr::clock::HourMinute;
use timetrack_jr::error::TTError;
use timetrack_jr::ledger::{add_category, end_open_times_immediately, get_time, start_timing, upsert_time, Ledger};
use timetrack_jr::rollover::{close_time_of, end_open_times, settle_close_time, MAX_TIMESTAMP};
use timetrack_jr::window::TimeWindow;

const EAST: i32 = 2 * 3600;

fn open_store(start_time: i64) -> Ledger {
    let times = vec![TimeWindow {
        id: Some(1),
        category: "work".to_string(),
        start_time,
        end_time: None,
    }];
    Ledger::load(vec!["work".to_string()], None, times).unwrap()
}

#[test]
fn test_timing() {
    let mut tx = Ledger::new();
    let zone = FixedOffset::east_opt(EAST).unwrap();
    let now = zone.with_ymd_and_hms(2022, 6, 1, 9, 0, 0).unwrap().timestamp();
    assert!(start_timing(&mut tx, &"work".to_string(), now).is_err());

    add_category(&mut tx, &"work".to_string()).unwrap();

    assert!(start_timing(&mut tx, &"work".to_string(), now).is_ok());
    let mut time = get_time(&tx, 1).unwrap();
    assert_eq!(Some(1), time.id);
    assert_eq!("work".to_string(), time.category);
    assert_eq!(None, time.end_time);

    end_open_times_immediately(&mut tx, now + 1).unwrap();
    time = get_time(&tx, 1).unwrap();
    assert_eq!(Some(1), time.id);
    assert_eq!("work".to_string(), time.category);
    assert!(time.end_time.is_some());
    assert!(time.end_time.unwrap() > time.start_time);

    //un-set the end time
    let start_datetime = zone.with_ymd_and_hms(2020, 12, 31, 12, 12, 0).unwrap();
    time.end_time = None;
    time.start_time = start_datetime.timestamp();
    upsert_time(&mut tx, time).unwrap();

    end_open_times(&mut tx, HourMinute(13, 0), EAST, now).unwrap();

    time = get_time(&tx, 1).unwrap();

    //should have been ended at EOB
    assert_eq!(
        time.end_time.unwrap(),
        start_datetime.with_hour(13).unwrap().with_minute(0).unwrap().timestamp()
    );

    //What if EOB is less than start time
    time = get_time(&tx, 1).unwrap();
    time.end_time = None;
    upsert_time(&mut tx, time).unwrap();
    end_open_times(&mut tx, HourMinute(11, 0), EAST, now).unwrap();
    time = get_time(&tx, 1).unwrap();
    //should have been ended at EOB the next day
    assert_eq!(
        time.end_time.unwrap(),
        (start_datetime.with_hour(11).unwrap().with_minute(0).unwrap() + Duration::days(1))
            .timestamp()
    );

    //what if current time is less than next EOB?
    time = get_time(&tx, 1).unwrap();
    time.end_time = None;
    let start_datetime = zone.timestamp_opt(now, 0).unwrap();
    let mut eob = HourMinute(0, 0);
    if start_datetime.hour() == 0 {
        eob.0 = 23
    }
    time.start_time = start_datetime.timestamp();
    upsert_time(&mut tx, time).unwrap();
    end_open_times(&mut tx, eob, EAST, now + 3).unwrap();
    time = get_time(&tx, 1).unwrap();
    //should have been ended nowish not EOB
    assert!(start_datetime.timestamp() - time.end_time.unwrap() < 10,);
    assert_eq!(Some(now + 3), time.end_time);
}

#[test]
fn boundary_after_the_start_closes_on_the_same_day() {
    for offset in [0, EAST, -5 * 3600, 5 * 3600 + 1800, 14 * 3600, -12 * 3600] {
        let zone = FixedOffset::east_opt(offset).unwrap();
        let start = zone.with_ymd_and_hms(2020, 12, 31, 12, 12, 0).unwrap().timestamp();
        let close = zone.with_ymd_and_hms(2020, 12, 31, 13, 0, 0).unwrap().timestamp();
        let mut store = open_store(start);
        end_open_times(&mut store, HourMinute(13, 0), offset, i64::MAX).unwrap();
        assert_eq!(Some(close), get_time(&store, 1).unwrap().end_time);
        assert_eq!(Some(close), close_time_of(start, HourMinute(13, 0), offset, i64::MAX));
    }
}

#[test]
fn boundary_before_the_start_closes_on_the_next_day() {
    for offset in [0, EAST, -5 * 3600, 5 * 3600 + 1800, 14 * 3600, -12 * 3600] {
        let zone = FixedOffset::east_opt(offset).unwrap();
        let start = zone.with_ymd_and_hms(2020, 12, 31, 12, 12, 0).unwrap().timestamp();
        let close = zone.with_ymd_and_hms(2021, 1, 1, 11, 0, 0).unwrap().timestamp();
        let mut store = open_store(start);
        end_open_times(&mut store, HourMinute(11, 0), offset, i64::MAX).unwrap();
        assert_eq!(Some(close), get_time(&store, 1).unwrap().end_time);
    }
}

#[test]
fn boundary_at_the_start_moves_to_the_next_day() {
    let zone = FixedOffset::east_opt(EAST).unwrap();
    let start = zone.with_ymd_and_hms(2020, 12, 31, 12, 12, 0).unwrap().timestamp();
    let close = zone.with_ymd_and_hms(2021, 1, 1, 12, 12, 0).unwrap().timestamp();
    assert_eq!(Some(close), close_time_of(start, HourMinute(12, 12), EAST, i64::MAX));
}

#[test]
fn boundary_keeps_the_second_of_the_start() {
    let zone = FixedOffset::east_opt(EAST).unwrap();
    let start = zone.with_ymd_and_hms(2020, 12, 31, 23, 0, 42).unwrap().timestamp();
    let close = zone.with_ymd_and_hms(2021, 1, 1, 9, 0, 42).unwrap().timestamp();
    assert_eq!(Some(close), close_time_of(start, HourMinute(9, 0), EAST, i64::MAX));
    // plain numbers: one minute into 1970, UTC, boundary 00:02
    assert_eq!(Some(127), close_time_of(67, HourMinute(0, 2), 0, i64::MAX));
    assert_eq!(Some(86_400 + 7), close_time_of(67, HourMinute(0, 0), 0, i64::MAX));
    assert_eq!(Some(3_600 + 7 - 1_800), close_time_of(7, HourMinute(1, 0), 1_800, i64::MAX));
}

#[test]
fn rollover_never_closes_in_the_future() {
    let zone = FixedOffset::east_opt(EAST).unwrap();
    let start = zone.with_ymd_and_hms(2021, 3, 4, 10, 0, 0).unwrap().timestamp();
    let now = start + 5;
    let mut store = open_store(start);
    end_open_times(&mut store, HourMinute(17, 30), EAST, now).unwrap();
    assert_eq!(Some(now), get_time(&store, 1).unwrap().end_time);
    for later in [start, start + 1, start + 27_000, start + 27_001, start + 200_000] {
        let close = close_time_of(start, HourMinute(17, 30), EAST, later).unwrap();
        assert!(close <= later);
        assert_eq!(later.min(start + 27_000), close);
    }
}

#[test]
fn settle_close_time_by_numbers() {
    assert_eq!(150, settle_close_time(100, 150, 1_000));
    assert_eq!(100 + 86_400, settle_close_time(100, 100, 1_000_000));
    assert_eq!(50 + 86_400, settle_close_time(100, 50, 1_000_000));
    assert_eq!(120, settle_close_time(100, 150, 120));
    assert_eq!(90, settle_close_time(100, 150, 90));
}

#[test]
fn close_time_is_refused_out_of_range() {
    assert_eq!(None, close_time_of(-1, HourMinute(9, 0), 0, 10));
    assert_eq!(None, close_time_of(MAX_TIMESTAMP + 1, HourMinute(9, 0), 0, 10));
    assert_eq!(None, close_time_of(0, HourMinute(9, 0), 86_400, 10));
    assert_eq!(None, close_time_of(0, HourMinute(9, 0), -86_400, 10));
    assert!(close_time_of(MAX_TIMESTAMP, HourMinute(23, 59), 86_399, i64::MAX).is_some());
    assert_eq!(
        Some(MAX_TIMESTAMP + 86_400 - 60),
        close_time_of(MAX_TIMESTAMP, HourMinute(23, 58), 0, i64::MAX)
    );
}

#[test]
fn end_open_times_is_all_or_nothing() {
    let zone = FixedOffset::east_opt(0).unwrap();
    let start = zone.with_ymd_and_hms(2021, 3, 4, 10, 0, 0).unwrap().timestamp();
    // now lies before the start: the closed window would end before it starts
    let mut store = open_store(start);
    assert!(matches!(
        end_open_times(&mut store, HourMinute(17, 0), 0, start - 1),
        Err(TTError::TTError { .. })
    ));
    assert_eq!(None, get_time(&store, 1).unwrap().end_time);
    // an offset of a whole day
    assert!(matches!(
        end_open_times(&mut store, HourMinute(17, 0), 86_400, start + 1),
        Err(TTError::TTError { .. })
    ));
    // two open windows: closing the first runs into the second
    let times = vec![
        TimeWindow { id: Some(1), category: "work".to_string(), start_time: start, end_time: None },
        TimeWindow { id: Some(2), category: "work".to_string(), start_time: start + 60, end_time: None },
    ];
    let mut two = Ledger::load(vec!["work".to_string()], None, times.clone()).unwrap();
    assert!(matches!(
        end_open_times(&mut two, HourMinute(17, 0), 0, start + 100_000),
        Err(TTError::Overlap { .. })
    ));
    assert_eq!(times, *two.windows());
    // closed windows are left alone
    let mut done = Ledger::load(
        vec!["work".to_string()],
        None,
        vec![TimeWindow { id: Some(1), category: "work".to_string(), start_time: 5, end_time: Some(6) }],
    )
    .unwrap();
    assert_eq!(Ok(()), end_open_times(&mut done, HourMinute(17, 0), 0, 1_000));
    assert_eq!(Some(6), done.windows()[0].end_time);
}

#[test]
fn rollover_closes_each_open_window_and_no_other() {
    let times = vec![
        TimeWindow { id: Some(1), category: "work".to_string(), start_time: 10, end_time: Some(20) },
        TimeWindow { id: Some(2), category: "work".to_string(), start_time: 3_600, end_time: None },
        TimeWindow { id: Some(3), category: "work".to_string(), start_time: 30, end_time: Some(40) },
    ];
    let mut store = Ledger::load(vec!["work".to_string()], None, times).unwrap();
    assert_eq!(Ok(()), end_open_times(&mut store, HourMinute(2, 30), 0, 1_000_000));
    assert_eq!(
        vec![
            TimeWindow { id: Some(1), category: "work".to_string(), start_time: 10, end_time: Some(20) },
            TimeWindow { id: Some(2), category: "work".to_string(), start_time: 3_600, end_time: Some(9_000) },
            TimeWindow { id: Some(3), category: "work".to_string(), start_time: 30, end_time: Some(40) },
        ],
        *store.windows()
    );
}
