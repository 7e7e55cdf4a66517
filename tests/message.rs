use toggl2slack::calendar::Date;
use toggl2slack::message::MessageCreator;
use toggl2slack::table::DurationTable;
use toggl2slack::toggl::RecordKey;
use toggl2slack::values::{Duration, PeriodError, Project, ProjectRecords, User};

fn ymd(y: i32, m: u32, d: u32) -> Date {
    Date::from_ymd(y, m, d).unwrap()
}

#[test]
fn get_project_message_must_work_when_there_is_only_one_user() {
    let mc = MessageCreator {};

    let user = User::new("Alice");
    let project1 = Project::new(Some("ProjectA"));
    let project2 = Project::new(Some("ProjectB"));
    let dur1 = Duration::new(3600_000);
    let dur2 = Duration::new(7200_000);
    let project_times_by_user = ProjectRecords::new(vec![(
        user.clone(),
        vec![(project1.clone(), dur1), (project2.clone(), dur2)],
    )]);
    let begin_date = ymd(2020, 12, 1);
    let end_date = ymd(2020, 12, 31);

    let actual = mc.get_project_message(&project_times_by_user, &begin_date, &end_date);
    println!("{:?}", actual);
    let expected = format!(
        "{}{}",
        "*Toggl summary report* [2020/12/01-2020/12/31]\n",
        "\n*Alice*\n\n```ProjectA: 1h\nProjectB: 2h\n```",
    );
    assert_eq!(actual, expected)
}

#[test]
fn get_project_message_must_return_text_ordered_by_user_and_project_when_there_are_two_users() {
    let mc = MessageCreator {};

    let user1 = User::new("Alice");
    let user2 = User::new("Bob");
    let project1 = Project::new(Some("ProjectA"));
    let project2 = Project::new(Some("ProjectB"));
    let dur1 = Duration::new(3600_000);
    let dur2 = Duration::new(7200_000);
    let project_times_by_user = ProjectRecords::new(vec![
        (
            user2.clone(),
            vec![(project1.clone(), dur2), (project2.clone(), dur1)],
        ),
        (
            user1.clone(),
            vec![(project1.clone(), dur1), (project2.clone(), dur2)],
        ),
    ]);
    let begin_date = ymd(2020, 12, 1);
    let end_date = ymd(2020, 12, 31);

    let actual = mc.get_project_message(&project_times_by_user, &begin_date, &end_date);
    let expected = format!(
        "{}{}{}",
        "*Toggl summary report* [2020/12/01-2020/12/31]\n",
        "\n*Alice*\n\n```ProjectA: 1h\nProjectB: 2h\n```",
        "\n*Bob*\n\n```ProjectA: 2h\nProjectB: 1h\n```",
    );
    assert_eq!(actual, expected)
}

#[test]
fn get_project_message_user_entry_must_return_text_for_the_given_user() {
    let mc = MessageCreator {};

    let user = User::new("Alice");
    let project1 = Project::new(Some("ProjectA"));
    let project2 = Project::new(Some("ProjectB"));
    let dur1 = Duration::new(3600_000);
    let dur2 = Duration::new(7200_000);
    let project_times = vec![(project1.clone(), dur1), (project2.clone(), dur2)];

    let actual = mc.get_project_message_user_entry(&user, &project_times);
    let expected = "\n*Alice*\n\n```ProjectA: 1h\nProjectB: 2h\n```";

    assert_eq!(actual, expected)
}

#[test]
fn get_project_message_title_must_return_title_text() {
    let mc = MessageCreator {};

    let begin_date = ymd(2020, 12, 1);
    let end_date = ymd(2021, 12, 1);

    let actual = mc.get_project_message_title(&begin_date, &end_date);
    let expected = "*Toggl summary report* [2020/12/01-2021/12/01]\n";

    assert_eq!(actual, expected)
}

#[test]
fn get_sorted_dates_in_period_must_return_dates_in_the_given_period() {
    let mc = MessageCreator {};

    let begin = ymd(2019, 12, 29);
    let end = ymd(2020, 1, 2);

    let actual = mc.get_sorted_dates_in_period(&begin, &end).unwrap();
    let expected = vec![
        ymd(2019, 12, 29),
        ymd(2019, 12, 30),
        ymd(2019, 12, 31),
        ymd(2020, 1, 1),
        ymd(2020, 1, 2),
    ];
    assert_eq!(actual, expected)
}

#[test]
fn get_sorted_dates_in_period_must_fail_if_end_is_prior_to_begin() {
    let mc = MessageCreator {};

    let begin = ymd(2020, 12, 1);
    let end = ymd(2020, 11, 30);

    assert_eq!(
        mc.get_sorted_dates_in_period(&begin, &end),
        Err(PeriodError::InvalidRange)
    );
}

#[test]
fn write_csv_must_return_() {
    let mc = MessageCreator {};

    let user1 = User::new("Alice");
    let user2 = User::new("Bob");
    let users = vec![user1.clone(), user2.clone()];

    let project1 = Project::new(Some("ProjectA"));
    let project2 = Project::new(Some("ProjectB"));
    let projects = vec![project1.clone(), project2.clone()];

    let date1 = ymd(2020, 12, 1);
    let date2 = ymd(2020, 12, 2);
    let dates = vec![date1, date2];
    let record_key1 = RecordKey {
        user: user1.clone(),
        project: project1.clone(),
        date: date1,
    };
    let record_key2 = RecordKey {
        user: user2.clone(),
        project: project2.clone(),
        date: date2,
    };
    let dur1 = Duration::new(3600_000);
    let dur2 = Duration::new(3600_000);
    let dur_times_for_record_key =
        DurationTable::try_from_records(&vec![(record_key1, dur1), (record_key2, dur2)]).unwrap();

    let actual = mc.write_csv(&users, &projects, &dates, &dur_times_for_record_key);
    let expected = format!(
        "{}\n{}\n{}\n{}\n{}\n",
        "Project,User,2020-12-01,2020-12-02",
        "ProjectA,Alice,1,0",
        "ProjectA,Bob,0,0",
        "ProjectB,Alice,0,0",
        "ProjectB,Bob,0,1",
    );

    assert_eq!(actual, expected)
}

#[test]
fn search_duration_time_must_return_the_corresponding_duration_time_when_it_exists() {
    let mc = MessageCreator {};

    let user = User::new("Alice");
    let project = Project::new(Some("Project"));
    let date = ymd(2020, 12, 1);
    let dates = vec![date];
    let record_key = RecordKey {
        user: user.clone(),
        project: project.clone(),
        date: date,
    };
    let dur = Duration::new(100);
    let dur_times_for_record_key = DurationTable::try_from_records(&vec![(record_key, dur)]).unwrap();

    let actual = mc.search_duration_time(&dates, &user, &project, &dur_times_for_record_key);
    let expected = vec![dur];

    assert_eq!(actual, expected)
}

#[test]
fn search_duration_time_must_return_0_when_it_does_not_exist() {
    let mc = MessageCreator {};

    let user = User::new("Alice");
    let project = Project::new(Some("Project"));
    let date = ymd(2020, 12, 1);
    let dates = vec![date];
    let dur_times_for_record_key = DurationTable::try_from_records(&vec![]).unwrap();

    let actual = mc.search_duration_time(&dates, &user, &project, &dur_times_for_record_key);
    let expected = vec![Duration::new(0)];

    assert_eq!(actual, expected)
}

#[test]
fn format_duration_time_must_1000_000_to_0() {
    let mc = MessageCreator {};

    let input = Duration::new(1000_000);
    let actual = mc.format_duration_time(&input);
    let expected = "0".to_string();

    assert_eq!(actual, expected)
}

#[test]
fn format_duration_time_must_1800_000_to_05() {
    let mc = MessageCreator {};

    let input = Duration::new(1800_000);
    let actual = mc.format_duration_time(&input);
    let expected = "0.5".to_string();

    assert_eq!(actual, expected)
}

#[test]
fn format_duration_time_must_3600_000_to_1() {
    let mc = MessageCreator {};

    let input = Duration::new(3600_000);
    let actual = mc.format_duration_time(&input);
    let expected = "1".to_string();

    assert_eq!(actual, expected)
}

#[test]
fn sumup_durations_must_sum_up_2_elements_which_have_the_same_record_key() {
    let mc = MessageCreator {};

    let record_key = RecordKey {
        user: User::new("Alice"),
        project: Project::new(Some("Project")),
        date: ymd(2020, 12, 1),
    };
    let dur1 = Duration::new(100);
    let dur2 = Duration::new(200);

    let input = vec![(record_key.clone(), dur1), (record_key.clone(), dur2)];
    let actual = mc.sumup_durations(&input);
    assert_eq!(actual.len(), 1);
    assert_eq!(actual.get(&record_key), Some(dur1 + dur2));
}

#[test]
fn sumup_durations_must_not_sum_up_2_elements_which_have_different_record_keys() {
    let mc = MessageCreator {};

    let record_key1 = RecordKey {
        user: User::new("Alice"),
        project: Project::new(Some("Project")),
        date: ymd(2020, 12, 1),
    };
    let record_key2 = RecordKey {
        user: User::new("Alice"),
        project: Project::new(Some("ProjectB")),
        date: ymd(2020, 12, 1),
    };
    let dur1 = Duration::new(100);
    let dur2 = Duration::new(200);

    let input = vec![(record_key1.clone(), dur1), (record_key2.clone(), dur2)];
    let actual = mc.sumup_durations(&input);
    assert_eq!(actual.len(), 2);
    assert_eq!(actual.get(&record_key1), Some(dur1));
    assert_eq!(actual.get(&record_key2), Some(dur2));
}
