use timetrack_jr::error::TTError;
use timetrack_jr::ledger::{
    add_category, bulk_delete_times, delete_category, delete_time, end_open_times_immediately,
    get_last_open_time, get_time, get_times, rename_category, start_timing, upsert_time, Ledger,
};
use timetrack_jr::window::TimeWindow;

fn window(id: Option<i64>, category: &str, start_time: i64, end_time: Option<i64>) -> TimeWindow {
    TimeWindow { id, category: category.to_string(), start_time, end_time }
}

fn store_with(categories: &[&str], times: Vec<TimeWindow>) -> Ledger {
    let categories = categories.iter().map(|c| c.to_string()).collect();
    Ledger::load(categories, None, times).unwrap()
}

fn intersect(a: &TimeWindow, b: &TimeWindow) -> bool {
    match (a.end_time, b.end_time) {
        (Some(ea), Some(eb)) => a.start_time <= eb && b.start_time <= ea,
        _ => false,
    }
}

#[test]
fn test_rename_category() {
    let mut tx = Ledger::new();
    add_category(&mut tx, &"work".to_string()).unwrap();

    assert_eq!(vec!["work".to_string()], tx.category_list());

    upsert_time(
        &mut tx,
        TimeWindow {
            id: None,
            category: "work".to_string(),
            start_time: 47,
            end_time: None,
        },
    )
    .unwrap();

    assert_eq!(
        Ok(TimeWindow {
            id: Some(1),
            category: "work".to_string(),
            start_time: 47,
            end_time: None
        }),
        get_time(&tx, tx.last_insert_rowid())
    );

    rename_category(&mut tx, &"work".to_string(), &"play".to_string()).unwrap();
    assert_eq!(vec!["play".to_string()], tx.category_list());

    assert_eq!(
        Ok(TimeWindow {
            id: Some(1),
            category: "play".to_string(),
            start_time: 47,
            end_time: None
        }),
        get_time(&tx, tx.last_insert_rowid())
    );
}

#[test]
fn test_upsert() {
    let mut tx = Ledger::new();
    add_category(&mut tx, &"work".to_string()).unwrap();
    upsert_time(
        &mut tx,
        TimeWindow {
            id: None,
            category: "work".to_string(),
            start_time: 47,
            end_time: None,
        },
    )
    .unwrap();

    assert_eq!(
        Ok(TimeWindow {
            id: Some(1),
            category: "work".to_string(),
            start_time: 47,
            end_time: None
        }),
        get_time(&tx, tx.last_insert_rowid())
    );

    //should fail because it potentially overlaps an open time
    assert!(matches!(
        upsert_time(
            &mut tx,
            TimeWindow {
                id: None,
                category: "work".to_string(),
                start_time: 51,
                end_time: None,
            },
        ),
        Err(_)
    ));

    //should fail because it potentially overlaps an open time
    assert!(matches!(
        upsert_time(
            &mut tx,
            TimeWindow {
                id: None,
                category: "work".to_string(),
                start_time: 40,
                end_time: Some(51),
            },
        ),
        Err(_)
    ));

    //close off the open time
    upsert_time(
        &mut tx,
        TimeWindow {
            id: Some(1),
            category: "work".to_string(),
            start_time: 47,
            end_time: Some(51),
        },
    )
    .unwrap();

    //now should be able to insert a new open time
    upsert_time(
        &mut tx,
        TimeWindow {
            id: Some(2),
            category: "work".to_string(),
            start_time: 52,
            end_time: None,
        },
    )
    .unwrap();

    //check that new open time was inserted correctly
    assert_eq!(
        Ok(TimeWindow {
            id: Some(2),
            category: "work".to_string(),
            start_time: 52,
            end_time: None
        }),
        get_time(&tx, tx.last_insert_rowid())
    );

    //should fail because it potentially overlaps an open time
    assert!(matches!(
        upsert_time(
            &mut tx,
            TimeWindow {
                id: None,
                category: "work".to_string(),
                start_time: 48,
                end_time: None,
            },
        ),
        Err(_)
    ));

    //should fail because it overlaps closed time
    assert!(matches!(
        upsert_time(
            &mut tx,
            TimeWindow {
                id: None,
                category: "work".to_string(),
                start_time: 40,
                end_time: Some(48),
            },
        ),
        Err(_)
    ));

    //change the start and end time
    upsert_time(
        &mut tx,
        TimeWindow {
            id: Some(2),
            category: "work".to_string(),
            start_time: 111,
            end_time: Some(112),
        },
    )
    .unwrap();
    //check that modified time is reflected in DB
    assert_eq!(
        Ok(TimeWindow {
            id: Some(2),
            category: "work".to_string(),
            start_time: 111,
            end_time: Some(112)
        }),
        get_time(&tx, tx.last_insert_rowid())
    );
}

#[test]
fn overlap_error_names_every_conflict_and_shows_the_first() {
    let mut store = store_with(
        &["work"],
        vec![
            window(Some(3), "work", 10, Some(20)),
            window(Some(5), "work", 30, Some(40)),
            window(Some(9), "work", 50, Some(60)),
        ],
    );
    let before = store.windows().clone();
    let res = upsert_time(&mut store, window(None, "work", 35, Some(55)));
    assert_eq!(
        Err(TTError::Overlap {
            ids: vec![5, 9],
            time: window(None, "work", 35, Some(55)),
            example: window(Some(5), "work", 30, Some(40))
        }),
        res
    );
    assert_eq!(&before, store.windows());
    // the endpoints are inclusive
    assert!(matches!(
        upsert_time(&mut store, window(None, "work", 20, Some(25))),
        Err(TTError::Overlap { .. })
    ));
    assert!(matches!(
        upsert_time(&mut store, window(None, "work", 25, Some(30))),
        Err(TTError::Overlap { .. })
    ));
    assert_eq!(Ok(()), upsert_time(&mut store, window(None, "work", 21, Some(29))));
    assert_eq!(10, store.last_insert_rowid());
}

#[test]
fn upsert_refuses_invalid_windows_and_unknown_categories() {
    let mut store = store_with(&["work"], vec![]);
    assert!(matches!(
        upsert_time(&mut store, window(None, "work", -1, None)),
        Err(TTError::TTError { .. })
    ));
    assert!(matches!(
        upsert_time(&mut store, window(None, "work", 10, Some(9))),
        Err(TTError::TTError { .. })
    ));
    assert_eq!(Err(TTError::NotFound), upsert_time(&mut store, window(None, "play", 10, None)));
    assert!(store.windows().is_empty());
    assert_eq!(Ok(()), upsert_time(&mut store, window(None, "work", 10, Some(10))));
    assert_eq!(1, store.last_insert_rowid());
}

#[test]
fn upsert_refuses_when_no_id_is_left() {
    let mut store = store_with(&["work"], vec![window(Some(i64::MAX), "work", 1, Some(2))]);
    assert!(matches!(
        upsert_time(&mut store, window(None, "work", 5, Some(6))),
        Err(TTError::TTError { .. })
    ));
    assert_eq!(1, store.windows().len());
}

#[test]
fn new_ids_follow_the_largest() {
    let mut store = store_with(
        &["work"],
        vec![window(Some(7), "work", 1, Some(2)), window(Some(4), "work", 3, Some(4))],
    );
    upsert_time(&mut store, window(None, "work", 5, Some(6))).unwrap();
    assert_eq!(8, store.last_insert_rowid());
    assert_eq!(Ok(window(Some(8), "work", 5, Some(6))), get_time(&store, 8));
    // a replaced window stays where it stood
    upsert_time(&mut store, window(Some(7), "work", 0, Some(2))).unwrap();
    assert_eq!(window(Some(7), "work", 0, Some(2)), store.windows()[0]);
    assert_eq!(3, store.windows().len());
}

#[test]
fn successful_upserts_keep_closed_windows_apart_and_one_open() {
    let mut store = store_with(&["work", "play"], vec![]);
    let candidates = vec![
        window(None, "work", 100, Some(200)),
        window(None, "play", 150, Some(160)),
        window(None, "play", 201, Some(300)),
        window(None, "work", 0, Some(99)),
        window(None, "work", 99, Some(100)),
        window(None, "work", 400, None),
        window(None, "play", 500, None),
        window(None, "play", 350, Some(399)),
        window(None, "play", 350, Some(400)),
        window(Some(1), "work", 100, Some(250)),
        window(Some(1), "work", 120, Some(180)),
    ];
    for candidate in candidates {
        let _ = upsert_time(&mut store, candidate);
        let rows = store.windows();
        for i in 0..rows.len() {
            for j in 0..rows.len() {
                if i != j {
                    assert!(!intersect(&rows[i], &rows[j]));
                }
            }
        }
        assert!(rows.iter().filter(|w| w.end_time.is_none()).count() <= 1);
    }
    assert_eq!(5, store.windows().len());
}

#[test]
fn get_time_and_delete_time_by_id() {
    let mut store = store_with(
        &["work"],
        vec![window(Some(1), "work", 1, Some(2)), window(Some(2), "work", 3, Some(4))],
    );
    assert_eq!(Err(TTError::NotFound), get_time(&store, 3));
    assert_eq!(Ok(0), delete_time(&mut store, &3));
    assert_eq!(Ok(1), delete_time(&mut store, &1));
    assert_eq!(Err(TTError::NotFound), get_time(&store, 1));
    assert_eq!(vec![window(Some(2), "work", 3, Some(4))], *store.windows());
}

#[test]
fn last_open_time_is_the_one_that_started_last() {
    let store = store_with(
        &["work"],
        vec![
            window(Some(1), "work", 5, None),
            window(Some(2), "work", 9, None),
            window(Some(3), "work", 7, Some(8)),
            window(Some(4), "work", 9, None),
        ],
    );
    assert_eq!(Ok(Some(window(Some(2), "work", 9, None))), get_last_open_time(&store));
    let closed = store_with(&["work"], vec![window(Some(1), "work", 5, Some(6))]);
    assert_eq!(Ok(None), get_last_open_time(&closed));
}

#[test]
fn get_times_filters_by_start() {
    let store = store_with(
        &["work"],
        vec![
            window(Some(1), "work", 10, Some(20)),
            window(Some(2), "work", 30, Some(40)),
            window(Some(3), "work", 50, None),
        ],
    );
    assert_eq!(3, get_times(&store, None, None).unwrap().len());
    assert_eq!(
        vec![window(Some(2), "work", 30, Some(40)), window(Some(3), "work", 50, None)],
        get_times(&store, Some(30), None).unwrap()
    );
    assert_eq!(
        vec![window(Some(1), "work", 10, Some(20)), window(Some(2), "work", 30, Some(40))],
        get_times(&store, None, Some(30)).unwrap()
    );
    assert_eq!(
        vec![window(Some(2), "work", 30, Some(40))],
        get_times(&store, Some(11), Some(49)).unwrap()
    );
    assert!(get_times(&store, Some(41), Some(49)).unwrap().is_empty());
}

#[test]
fn bulk_delete_inclusive_and_non_inclusive() {
    let rows = vec![
        window(Some(1), "work", 10, Some(20)),
        window(Some(2), "work", 15, Some(25)),
        window(Some(3), "work", 30, Some(40)),
    ];
    let mut inclusive = store_with(&["work"], rows.clone());
    assert_eq!(Ok(2), bulk_delete_times(&mut inclusive, &12, &22, &false));
    assert_eq!(vec![window(Some(3), "work", 30, Some(40))], *inclusive.windows());

    let mut non_inclusive = store_with(&["work"], rows.clone());
    assert_eq!(Ok(0), bulk_delete_times(&mut non_inclusive, &12, &22, &true));
    assert_eq!(rows, *non_inclusive.windows());

    let mut contained = store_with(&["work"], rows.clone());
    assert_eq!(Ok(2), bulk_delete_times(&mut contained, &10, &25, &true));
    assert_eq!(vec![window(Some(3), "work", 30, Some(40))], *contained.windows());
}

#[test]
fn bulk_delete_leaves_open_windows_in_non_inclusive_mode() {
    let rows = vec![window(Some(1), "work", 10, Some(20)), window(Some(2), "work", 30, None)];
    let mut strict = store_with(&["work"], rows.clone());
    assert_eq!(Ok(1), bulk_delete_times(&mut strict, &0, &100, &true));
    assert_eq!(vec![window(Some(2), "work", 30, None)], *strict.windows());
    let mut loose = store_with(&["work"], rows);
    assert_eq!(Ok(2), bulk_delete_times(&mut loose, &0, &100, &false));
    assert!(loose.windows().is_empty());
}

#[test]
fn bulk_delete_refuses_a_range_that_does_not_grow() {
    let mut store = store_with(&["work"], vec![window(Some(1), "work", 10, Some(20))]);
    assert_eq!(
        Err(TTError::TTError {
            message: "end time (5) must be greater than start time (5)".to_string()
        }),
        bulk_delete_times(&mut store, &5, &5, &false)
    );
    assert_eq!(
        Err(TTError::TTError {
            message: "end time (-120) must be greater than start time (3)".to_string()
        }),
        bulk_delete_times(&mut store, &3, &-120, &false)
    );
    assert_eq!(
        Err(TTError::TTError {
            message:
                "end time (-9223372036854775808) must be greater than start time (9223372036854775807)"
                    .to_string()
        }),
        bulk_delete_times(&mut store, &i64::MAX, &i64::MIN, &true)
    );
    assert_eq!(1, store.windows().len());
}

#[test]
fn category_deletion_keeps_logged_windows_safe() {
    let mut store = store_with(
        &["work", "play"],
        vec![
            window(Some(1), "work", 10, Some(20)),
            window(Some(2), "play", 30, Some(40)),
            window(Some(3), "work", 50, None),
        ],
    );
    assert_eq!(Err(TTError::Integrity), delete_category(&mut store, &"work".to_string(), &false));
    assert_eq!(3, store.windows().len());
    assert!(store.has_category(&"work".to_string()));

    assert_eq!(Ok(()), delete_category(&mut store, &"work".to_string(), &true));
    assert!(!store.has_category(&"work".to_string()));
    assert!(store.has_category(&"play".to_string()));
    assert_eq!(vec![window(Some(2), "play", 30, Some(40))], *store.windows());

    assert_eq!(Err(TTError::NotFound), delete_category(&mut store, &"work".to_string(), &false));
    assert_eq!(Ok(()), delete_category(&mut store, &"work".to_string(), &true));
    assert_eq!(1, store.windows().len());
}

#[test]
fn deleting_an_unused_category_needs_no_cascade() {
    let mut store = store_with(&["work", "play"], vec![window(Some(1), "work", 10, Some(20))]);
    assert_eq!(Ok(()), delete_category(&mut store, &"play".to_string(), &false));
    assert_eq!(vec!["work".to_string()], store.category_list());
}

#[test]
fn categories_are_unique() {
    let mut store = Ledger::new();
    assert_eq!(Ok(()), add_category(&mut store, &"work".to_string()));
    assert!(matches!(
        add_category(&mut store, &"work".to_string()),
        Err(TTError::TTError { .. })
    ));
    assert_eq!(Ok(()), add_category(&mut store, &"play".to_string()));
    assert!(matches!(
        rename_category(&mut store, &"work".to_string(), &"play".to_string()),
        Err(TTError::TTError { .. })
    ));
    assert_eq!(
        Err(TTError::NotFound),
        rename_category(&mut store, &"rest".to_string(), &"sleep".to_string())
    );
    assert_eq!(Ok(()), rename_category(&mut store, &"work".to_string(), &"work".to_string()));
    assert_eq!(vec!["work".to_string(), "play".to_string()], store.category_list());
}

#[test]
fn closing_immediately_closes_every_open_window() {
    let mut store = store_with(
        &["work"],
        vec![window(Some(1), "work", 10, Some(20)), window(Some(2), "work", 30, None)],
    );
    assert!(matches!(
        end_open_times_immediately(&mut store, 29),
        Err(TTError::TTError { .. })
    ));
    assert_eq!(None, store.windows()[1].end_time);
    assert_eq!(Ok(()), end_open_times_immediately(&mut store, 45));
    assert_eq!(
        vec![window(Some(1), "work", 10, Some(20)), window(Some(2), "work", 30, Some(45))],
        *store.windows()
    );
    // closing again changes nothing
    assert_eq!(Ok(()), end_open_times_immediately(&mut store, 99));
    assert_eq!(Some(45), store.windows()[1].end_time);
}

#[test]
fn start_timing_opens_a_window_now() {
    let mut store = Ledger::new();
    assert!(start_timing(&mut store, &"work".to_string(), 1000).is_err());
    add_category(&mut store, &"work".to_string()).unwrap();
    assert!(start_timing(&mut store, &"work".to_string(), 1000).is_ok());
    let time = get_time(&store, 1).unwrap();
    assert_eq!(Some(1), time.id);
    assert_eq!("work".to_string(), time.category);
    assert_eq!(None, time.end_time);
    // the window before is still open
    assert!(matches!(
        start_timing(&mut store, &"work".to_string(), 1001),
        Err(TTError::Overlap { .. })
    ));
    end_open_times_immediately(&mut store, 1001).unwrap();
    assert_eq!(Ok(()), start_timing(&mut store, &"work".to_string(), 1002));
    assert_eq!(2, store.last_insert_rowid());
}

#[test]
fn load_refuses_what_is_not_well_formed() {
    let cats = || vec!["work".to_string()];
    assert!(Ledger::load(cats(), None, vec![window(None, "work", 1, None)]).is_none());
    assert!(Ledger::load(cats(), None, vec![window(Some(1), "play", 1, None)]).is_none());
    assert!(Ledger::load(cats(), None, vec![window(Some(1), "work", -1, None)]).is_none());
    assert!(Ledger::load(cats(), None, vec![window(Some(1), "work", 5, Some(4))]).is_none());
    assert!(Ledger::load(
        cats(),
        None,
        vec![window(Some(1), "work", 1, Some(2)), window(Some(1), "work", 3, Some(4))]
    )
    .is_none());
    assert!(Ledger::load(vec!["work".to_string(), "work".to_string()], None, vec![]).is_none());
    let store = Ledger::load(cats(), Some("17:00".to_string()), vec![window(Some(4), "work", 1, None)])
        .unwrap();
    assert_eq!(Some("17:00".to_string()), store.end_of_day());
    let copy = store.snapshot();
    assert_eq!(store.windows(), copy.windows());
    assert_eq!(store.category_list(), copy.category_list());
    assert_eq!(store.end_of_day(), copy.end_of_day());
}

#[test]
fn conflict_rule_looks_at_the_endpoints_only() {
    // a candidate that reaches beyond a stored window on both sides is taken
    let mut closed = store_with(&["work"], vec![window(Some(1), "work", 10, Some(20))]);
    assert_eq!(Ok(()), upsert_time(&mut closed, window(None, "work", 5, Some(25))));
    assert!(intersect(&closed.windows()[0], &closed.windows()[1]));
    // so is an open candidate that starts before the open window
    let mut open = store_with(&["work"], vec![window(Some(1), "work", 10, None)]);
    assert_eq!(Ok(()), upsert_time(&mut open, window(None, "work", 5, None)));
    assert_eq!(2, open.windows().iter().filter(|w| w.end_time.is_none()).count());
    // while one that starts at or after it is refused
    assert!(matches!(
        upsert_time(&mut open, window(None, "work", 10, None)),
        Err(TTError::Overlap { .. })
    ));
    // a window is never in conflict with itself
    let mut alone = store_with(&["work"], vec![window(Some(1), "work", 10, Some(20))]);
    assert_eq!(Ok(()), upsert_time(&mut alone, window(Some(1), "work", 11, Some(19))));
    assert_eq!(vec![window(Some(1), "work", 11, Some(19))], *alone.windows());
}
