use toggl2slack::calendar::{Date, ZonedTime};
use toggl2slack::message::MessageCreator;
use toggl2slack::slack::SlackAccessor;
use toggl2slack::table::DurationTable;
use toggl2slack::toggl::{RecordKey, TogglAccessor};
use toggl2slack::values::{Duration, Period, PeriodError, Project, ProjectRecords, User};

fn ymd(y: i32, m: u32, d: u32) -> Date {
    Date::from_ymd(y, m, d).unwrap()
}

fn key(user: &str, project: Option<&str>, date: Date) -> RecordKey {
    RecordKey {
        user: User::new(user),
        project: Project::new(project),
        date,
    }
}

#[test]
fn duration_rounding_boundaries() {
    let mc = MessageCreator {};
    assert_eq!(mc.format_duration_time(&Duration::new(1_799_999)), "0");
    assert_eq!(mc.format_duration_time(&Duration::new(1_800_000)), "0.5");
    assert_eq!(mc.format_duration_time(&Duration::new(3_600_000)), "1");
    assert_eq!(mc.format_duration_time(&Duration::new(0)), "0");
    assert_eq!(mc.format_duration_time(&Duration::new(5_340_000)), "1");
    assert_eq!(mc.format_duration_time(&Duration::new(5_400_000)), "1.5");
    assert_eq!(mc.format_duration_time(&Duration::new(36_000_000_000)), "10000");
    assert_eq!(mc.format_duration_time(&Duration::new(u64::MAX)), "5124095576030");
}

#[test]
fn aggregation_ignores_record_order() {
    let mc = MessageCreator {};
    let d1 = ymd(2020, 12, 1);
    let a = vec![
        (key("Bob", Some("P"), d1), Duration::new(5)),
        (key("Alice", Some("P"), d1), Duration::new(7)),
        (key("Bob", Some("P"), d1), Duration::new(11)),
    ];
    let b = vec![a[2].clone(), a[0].clone(), a[1].clone()];
    let ta = mc.sumup_durations(&a);
    let tb = mc.sumup_durations(&b);
    assert_eq!(ta.len(), 2);
    assert_eq!(tb.len(), 2);
    for k in [key("Bob", Some("P"), d1), key("Alice", Some("P"), d1)] {
        assert_eq!(ta.get(&k), tb.get(&k));
    }
    assert_eq!(ta.get(&key("Bob", Some("P"), d1)), Some(Duration::new(16)));
}

#[test]
fn aggregation_of_empty_input_is_empty() {
    let table = DurationTable::try_from_records(&vec![]).unwrap();
    assert_eq!(table.len(), 0);
    assert!(table.users().is_empty());
    assert!(table.projects().is_empty());
}

#[test]
fn aggregation_reports_a_sum_that_overflows() {
    let k = key("Alice", None, ymd(2020, 12, 1));
    let records = vec![(k.clone(), Duration::new(u64::MAX)), (k, Duration::new(1))];
    assert!(DurationTable::try_from_records(&records).is_none());
}

#[test]
fn aggregation_keeps_the_largest_sum_that_fits() {
    let k = key("Alice", None, ymd(2020, 12, 1));
    let other = key("Bob", None, ymd(2020, 12, 1));
    let records = vec![
        (k.clone(), Duration::new(u64::MAX - 1)),
        (other, Duration::new(u64::MAX)),
        (k.clone(), Duration::new(1)),
    ];
    let table = DurationTable::try_from_records(&records).unwrap();
    assert_eq!(table.get(&k), Some(Duration::new(u64::MAX)));
}

#[test]
fn table_users_and_projects_are_sorted_and_distinct() {
    let d = ymd(2020, 12, 1);
    let records = vec![
        (key("Bob", Some("Zeta"), d), Duration::new(1)),
        (key("Alice", None, d), Duration::new(1)),
        (key("Bob", Some("Alpha"), d), Duration::new(1)),
        (key("Carol", Some("Zeta"), d), Duration::new(1)),
    ];
    let table = DurationTable::try_from_records(&records).unwrap();
    let users: Vec<String> = table.users().iter().map(|u| u.to_string()).collect();
    assert_eq!(users, vec!["Alice", "Bob", "Carol"]);
    let projects: Vec<String> = table.projects().iter().map(|p| p.to_string()).collect();
    assert_eq!(projects, vec!["EmptyProject", "Alpha", "Zeta"]);
}

#[test]
fn period_spans_month_and_year_boundaries() {
    let period = Period::new(ymd(2020, 2, 27), ymd(2020, 3, 1)).unwrap();
    let dates = period.dates();
    assert_eq!(
        dates,
        vec![ymd(2020, 2, 27), ymd(2020, 2, 28), ymd(2020, 2, 29), ymd(2020, 3, 1)]
    );
    let year = Period::new(ymd(2020, 1, 1), ymd(2020, 12, 31)).unwrap();
    let days = year.dates();
    assert_eq!(days.len(), 366);
    assert_eq!(days[0], ymd(2020, 1, 1));
    assert_eq!(days[365], ymd(2020, 12, 31));
    assert!(days.windows(2).all(|w| w[0].days + 1 == w[1].days));
}

#[test]
fn period_of_one_day() {
    let mc = MessageCreator {};
    let d = ymd(2021, 6, 15);
    assert_eq!(mc.get_sorted_dates_in_period(&d, &d), Ok(vec![d]));
}

#[test]
fn period_with_end_before_begin_is_rejected() {
    assert_eq!(
        Period::new(ymd(2020, 12, 2), ymd(2020, 12, 1)).err(),
        Some(PeriodError::InvalidRange)
    );
    let mc = MessageCreator {};
    assert_eq!(
        mc.get_sorted_dates_in_period(&ymd(2021, 1, 1), &ymd(2020, 12, 31)),
        Err(PeriodError::InvalidRange)
    );
}

#[test]
fn table_fills_missing_days_with_zero() {
    let mc = MessageCreator {};
    let day1 = ymd(2020, 12, 1);
    let day2 = ymd(2020, 12, 2);
    let records = vec![(key("UserA", Some("ProjectA"), day1), Duration::new(5_400_000))];
    let actual = mc.create_text_for_csv(&records, &day1, &day2);
    assert_eq!(actual, "Project,User,2020-12-01,2020-12-02\nProjectA,UserA,1.5,0\n");
}

#[test]
fn table_is_the_same_for_records_in_any_order() {
    let mc = MessageCreator {};
    let d1 = ymd(2020, 12, 1);
    let d2 = ymd(2020, 12, 2);
    let a = vec![
        (key("Bob", Some("ProjectB"), d2), Duration::new(3_600_000)),
        (key("Alice", Some("ProjectA"), d1), Duration::new(1_800_000)),
        (key("Alice", Some("ProjectA"), d1), Duration::new(1_800_000)),
        (key("Alice", None, d2), Duration::new(7_200_000)),
    ];
    let b = vec![a[3].clone(), a[1].clone(), a[0].clone(), a[2].clone()];
    let ta = mc.create_text_for_csv(&a, &d1, &d2);
    let tb = mc.create_text_for_csv(&b, &d1, &d2);
    assert_eq!(ta, tb);
    let expected = [
        "Project,User,2020-12-01,2020-12-02\n",
        "EmptyProject,Alice,0,2\n",
        "EmptyProject,Bob,0,0\n",
        "ProjectA,Alice,1,0\n",
        "ProjectA,Bob,0,0\n",
        "ProjectB,Alice,0,0\n",
        "ProjectB,Bob,0,1\n",
    ]
    .concat();
    assert_eq!(ta, expected);
}

#[test]
fn table_of_no_records_is_the_header_only() {
    let mc = MessageCreator {};
    let d = ymd(2020, 12, 1);
    assert_eq!(mc.create_text_for_csv(&vec![], &d, &d), "Project,User,2020-12-01\n");
}

#[test]
fn table_quotes_fields_that_hold_the_delimiter_or_a_quote() {
    let mc = MessageCreator {};
    let d = ymd(2020, 12, 1);
    let records = vec![(key("Doe, \"J\"", Some("A,B"), d), Duration::new(0))];
    assert_eq!(
        mc.create_text_for_csv(&records, &d, &d),
        "Project,User,2020-12-01\n\"A,B\",\"Doe, \"\"J\"\"\",0\n"
    );
}

#[test]
fn empty_project_is_labelled_and_kept_apart() {
    let mc = MessageCreator {};
    let d = ymd(2020, 12, 1);
    let records = vec![
        (key("Alice", Some("EmptyProject"), d), Duration::new(3_600_000)),
        (key("Alice", None, d), Duration::new(1_800_000)),
    ];
    let table = mc.sumup_durations(&records);
    assert_eq!(table.len(), 2);
    assert_eq!(
        mc.create_text_for_csv(&records, &d, &d),
        "Project,User,2020-12-01\nEmptyProject,Alice,0.5\nEmptyProject,Alice,1\n"
    );
    let summary = ProjectRecords::new(vec![(
        User::new("Alice"),
        vec![(Project::new(None), Duration::new(1_800_000))],
    )]);
    assert_eq!(
        mc.get_project_message(&summary, &d, &d),
        "*Toggl summary report* [2020/12/01-2020/12/01]\n\n*Alice*\n\n```EmptyProject: 0.5h\n```"
    );
    assert_eq!(Project::new(None).to_string(), "EmptyProject");
}

#[test]
fn summary_keeps_project_order_and_last_entry_of_a_user() {
    let mc = MessageCreator {};
    let d = ymd(2020, 12, 1);
    let summary = ProjectRecords::new(vec![
        (User::new("Bob"), vec![(Project::new(Some("X")), Duration::new(0))]),
        (
            User::new("Bob"),
            vec![
                (Project::new(Some("Z")), Duration::new(3_600_000)),
                (Project::new(Some("A")), Duration::new(1_800_000)),
            ],
        ),
    ]);
    assert_eq!(
        mc.get_project_message(&summary, &d, &d),
        "*Toggl summary report* [2020/12/01-2020/12/01]\n\n*Bob*\n\n```Z: 1h\nA: 0.5h\n```"
    );
}

#[test]
fn summary_of_no_users_is_the_title_only() {
    let mc = MessageCreator {};
    let summary = ProjectRecords::new(vec![]);
    assert_eq!(
        mc.get_project_message(&summary, &ymd(2020, 1, 31), &ymd(2020, 2, 1)),
        "*Toggl summary report* [2020/01/31-2020/02/01]\n"
    );
}

#[test]
fn dates_are_built_and_formatted_by_the_calendar() {
    assert!(Date::from_ymd(2021, 2, 29).is_none());
    assert!(Date::from_ymd(2020, 13, 1).is_none());
    assert_eq!(Date::from_ymd(1970, 1, 1).unwrap().days, 719_163);
    assert_eq!(ymd(2020, 3, 7).format("%Y-%m-%d"), "2020-03-07");
    assert_eq!(ymd(2020, 3, 7).format("%Y/%m/%d"), "2020/03/07");
}

#[test]
fn local_date_is_taken_at_the_offset() {
    // 2020-11-30T23:30:00Z seen from +09:00 is already the next day.
    let t = ZonedTime::new(1_606_779_000, 9 * 3600).unwrap();
    assert_eq!(t.local_date(), ymd(2020, 12, 1));
    let utc = ZonedTime::new(1_606_779_000, 0).unwrap();
    assert_eq!(utc.local_date(), ymd(2020, 11, 30));
    // Before the epoch, days are rounded down.
    let early = ZonedTime::new(-1, 0).unwrap();
    assert_eq!(early.local_date(), ymd(1969, 12, 31));
    assert!(ZonedTime::new(0, 86_400).is_none());
    assert!(ZonedTime::new(i64::MAX, 0).is_none());
}

#[test]
fn page_count_rounds_up() {
    assert_eq!(TogglAccessor::page_count(0, 50), 0);
    assert_eq!(TogglAccessor::page_count(50, 50), 1);
    assert_eq!(TogglAccessor::page_count(51, 50), 2);
    assert_eq!(TogglAccessor::page_count(u64::MAX, 2), u64::MAX / 2 + 1);
    assert_eq!(TogglAccessor::page_count(10, 0), 1);
}

#[test]
fn queries_name_the_workspace_and_period() {
    let accessor = TogglAccessor {
        token: "t".to_string(),
        workspace: "42".to_string(),
        email: "a@b.c".to_string(),
    };
    let pairs = |q: Vec<(String, String)>| -> Vec<String> {
        q.into_iter().map(|(k, v)| format!("{}={}", k, v)).collect()
    };
    assert_eq!(
        pairs(accessor.summary_query("2020-12-01", "2020-12-31")),
        vec![
            "workspace_id=42",
            "since=2020-12-01",
            "until=2020-12-31",
            "user_agent=a@b.c",
            "grouping=users",
            "subgrouping=projects"
        ]
    );
    assert_eq!(
        pairs(accessor.details_page_query("2020-12-01", "2020-12-31", 12)),
        vec![
            "workspace_id=42",
            "since=2020-12-01",
            "until=2020-12-31",
            "user_agent=a@b.c",
            "page=12"
        ]
    );
}

#[test]
fn slack_authorization_is_a_bearer_token() {
    let slack = SlackAccessor { token: "xoxb-1".to_string() };
    assert_eq!(slack.authorization_value(), "Bearer xoxb-1");
}

#[test]
fn names_sort_by_code_point() {
    assert!(User::new("Alice").less_than(&User::new("Bob")));
    assert!(User::new("Al").less_than(&User::new("Alice")));
    assert!(!User::new("b").less_than(&User::new("B")));
    assert!(User::new("Z").less_than(&User::new("é")));
    assert!(Project::new(None).less_than(&Project::new(Some(""))));
    assert!(!Project::new(Some("A")).less_than(&Project::new(None)));
}
