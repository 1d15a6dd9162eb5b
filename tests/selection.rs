use one_thing::date::{parse_due, Date, DueAt, LocalClock};
use one_thing::error::Error;
use one_thing::items::{comes_before, filter_not_in_future, scheduled, select, DateInfo, Item};

fn clock() -> LocalClock {
    LocalClock { today: Date { year: 2024, month: 3, day: 10 }, utc_offset: 0 }
}

fn task(id: &str, priority: u8, due: Option<&str>, recurring: bool) -> Item {
    Item {
        id: String::from(id),
        content: format!("task {}", id),
        checked: false,
        description: String::new(),
        due: due.map(|d| DateInfo {
            date: String::from(d),
            is_recurring: recurring,
            timezone: None,
        }),
        priority,
        is_deleted: false,
    }
}

#[test]
fn parses_bare_date() {
    assert_eq!(
        parse_due("2061-11-13"),
        Some(DueAt { date: Date { year: 2061, month: 11, day: 13 }, seconds: None, utc: false })
    );
}

#[test]
fn parses_local_and_utc_times() {
    assert_eq!(
        parse_due("2024-03-10T16:30:05"),
        Some(DueAt {
            date: Date { year: 2024, month: 3, day: 10 },
            seconds: Some(16 * 3600 + 30 * 60 + 5),
            utc: false
        })
    );
    assert_eq!(
        parse_due("2024-03-10T00:00:00Z"),
        Some(DueAt { date: Date { year: 2024, month: 3, day: 10 }, seconds: Some(0), utc: true })
    );
}

#[test]
fn rejects_bad_dates() {
    assert_eq!(parse_due("2023-02-29"), None);
    assert_eq!(parse_due("2024-13-01"), None);
    assert_eq!(parse_due("2024-03-10T24:00:00"), None);
    assert_eq!(parse_due("2024-03-10X"), None);
    assert_eq!(parse_due("tomorrow"), None);
    assert_eq!(parse_due(""), None);
    assert!(parse_due("2024-02-29").is_some());
}

#[test]
fn utc_time_moves_to_local_day() {
    // 23:30 UTC is already the next day two hours east of UTC.
    let east = LocalClock { today: Date { year: 2024, month: 12, day: 31 }, utc_offset: 7200 };
    let t = task("1", 1, Some("2024-12-31T23:30:00Z"), false);
    let m = t.due_moment(&east).unwrap();
    assert_eq!(m.date, Date { year: 2025, month: 1, day: 1 });
    assert_eq!(m.seconds, Some(5400));
    // So it is not yet due on the local 31st.
    assert!(!t.is_eligible(&east));
    // 00:30 UTC on March 1st is still February 29th five hours west.
    let west = LocalClock { today: Date { year: 2024, month: 2, day: 29 }, utc_offset: -18000 };
    let t = task("2", 1, Some("2024-03-01T00:30:00Z"), false);
    let m = t.due_moment(&west).unwrap();
    assert_eq!(m.date, Date { year: 2024, month: 2, day: 29 });
    assert_eq!(m.seconds, Some(86400 - 16200));
    assert!(t.is_eligible(&west));
}

#[test]
fn recurring_task_a_year_ahead_is_eligible() {
    let recurring = task("1", 1, Some("2025-03-10"), true);
    let one_off = task("2", 1, Some("2025-03-10"), false);
    assert!(recurring.is_eligible(&clock()));
    assert!(!one_off.is_eligible(&clock()));
}

#[test]
fn eligibility_by_date_and_state() {
    assert!(task("1", 1, None, false).is_eligible(&clock()));
    assert!(task("1", 1, Some("2024-03-10"), false).is_eligible(&clock()));
    assert!(task("1", 1, Some("2023-01-01"), false).is_eligible(&clock()));
    assert!(!task("1", 1, Some("2024-03-11"), false).is_eligible(&clock()));
    assert!(!task("1", 1, Some("not a date"), false).is_eligible(&clock()));
    let mut done = task("1", 1, None, false);
    done.checked = true;
    assert!(!done.is_eligible(&clock()));
    let mut deleted = task("1", 1, None, false);
    deleted.is_deleted = true;
    assert!(!deleted.is_eligible(&clock()));
}

#[test]
fn rank_is_total_with_ties_broken_by_id() {
    let c = clock();
    let high = task("9", 4, None, false);
    let low = task("1", 1, Some("2020-01-01"), false);
    assert!(comes_before(&high, &low, &c));
    assert!(!comes_before(&low, &high, &c));

    let early = task("5", 2, Some("2024-03-01"), false);
    let late = task("4", 2, Some("2024-03-09"), false);
    let undated = task("3", 2, None, false);
    assert!(comes_before(&early, &late, &c));
    assert!(comes_before(&late, &undated, &c));
    assert!(comes_before(&early, &undated, &c));

    let a = task("100", 2, Some("2024-03-09"), false);
    let b = task("99", 2, Some("2024-03-09"), false);
    // "100" sorts before "99" byte by byte.
    assert!(comes_before(&a, &b, &c));
    assert!(!comes_before(&b, &a, &c));
    assert!(!comes_before(&a, &a, &c));

    let bare = task("7", 2, Some("2024-03-09"), false);
    let timed = task("6", 2, Some("2024-03-09T08:00:00"), false);
    assert!(comes_before(&bare, &timed, &c));
}

#[test]
fn select_picks_top_and_first_of_equals() {
    let c = clock();
    let items = vec![
        task("3", 2, None, false),
        task("2", 3, Some("2024-03-11"), false),
        task("1", 3, Some("2024-03-05"), false),
        task("0", 3, None, false),
    ];
    assert_eq!(select(&items, &c), Some(2));
    let same = vec![task("1", 2, None, false), task("1", 2, None, false)];
    assert_eq!(select(&same, &c), Some(0));
    assert_eq!(select(&vec![], &c), None);
    assert_eq!(select(&vec![task("1", 4, Some("2030-01-01"), false)], &c), None);
}

#[test]
fn filter_keeps_order_and_needs_zone() {
    let c = clock();
    let items = vec![
        task("a", 1, Some("2024-03-11"), false),
        task("b", 1, None, false),
        task("c", 1, Some("2024-03-10"), false),
    ];
    assert_eq!(filter_not_in_future(items.clone(), &None, &c), Err(Error::MissingTimezone));
    let kept = filter_not_in_future(items.clone(), &Some(String::from("US/Pacific")), &c).unwrap();
    let ids: Vec<&str> = kept.iter().map(|t| t.id.as_str()).collect();
    assert_eq!(ids, vec!["b", "c"]);

    let mut zoned = items;
    for t in zoned.iter_mut() {
        if let Some(d) = t.due.as_mut() {
            d.timezone = Some(String::from("Europe/Paris"));
        }
    }
    assert_eq!(filter_not_in_future(zoned, &None, &c).unwrap().len(), 2);
    let undated = vec![task("x", 1, None, false)];
    assert_eq!(filter_not_in_future(undated, &None, &c).unwrap().len(), 1);
}

#[test]
fn item_text_shows_description_and_due() {
    let mut t = task("222", 3, Some("2061-11-13"), false);
    t.content = String::from("Get gifts for the twins");
    assert_eq!(t.fmt(), "Get gifts for the twins\nDue: 2061-11-13");
    t.description = String::from("two of them");
    t.due.as_mut().unwrap().is_recurring = true;
    assert_eq!(t.fmt(), "Get gifts for the twins\ntwo of them\nDue: 2061-11-13 (recurring)");
    t.due = None;
    assert_eq!(t.fmt(), "Get gifts for the twins\ntwo of them");
}

#[test]
fn schedule_lists_timed_tasks_of_today_by_time() {
    let c = clock();
    let items = vec![
        task("late", 1, Some("2024-03-10T18:00:00"), false),
        task("bare", 4, Some("2024-03-10"), false),
        task("early", 1, Some("2024-03-10T08:15:00"), false),
        task("tomorrow", 1, Some("2024-03-11T09:00:00"), false),
        task("utc", 1, Some("2024-03-10T12:00:00Z"), false),
        task("undated", 1, None, false),
    ];
    let zone = Some(String::from("UTC"));
    let plan = scheduled(items.clone(), &zone, &c).unwrap();
    let ids: Vec<&str> = plan.iter().map(|t| t.id.as_str()).collect();
    assert_eq!(ids, vec!["early", "utc", "late"]);
    assert_eq!(scheduled(items, &None, &c), Err(Error::MissingTimezone));
    assert!(scheduled(vec![], &None, &c).unwrap().is_empty());
}
