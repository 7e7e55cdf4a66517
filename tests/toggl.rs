use chrono::{DateTime, Datelike, FixedOffset, NaiveDate};
use toggl2slack::calendar::{Date, ZonedTime};
use toggl2slack::toggl::{
    RecordKey, TogglAccessor, TogglDetail, TogglItem, TogglItemTitle, TogglSummary,
    TogglSummaryResponse, TogglSummaryTitle,
};
use toggl2slack::values::{Duration, Project, ProjectRecords, User};

fn zoned(text: &str) -> ZonedTime {
    let dt = text.parse::<DateTime<FixedOffset>>().expect("");
    ZonedTime::new(dt.timestamp(), dt.offset().local_minus_utc()).unwrap()
}

fn day(text: &str) -> Date {
    Date::from_days_from_ce(text.parse::<NaiveDate>().expect("").num_days_from_ce())
}

#[test]
fn convert_summary_to_hashmap_must_work_well() {
    let user_name_1 = User::new("Alice");
    let user_name_2 = User::new("Bob");
    let project_1 = Project::new(Some("ProjectA"));
    let project_2 = Project::new(Some("ProjectB"));
    let project_3 = Project::new(None);
    let t1 = Duration::new(100);
    let t2 = Duration::new(200);
    let t3 = Duration::new(400);
    let t4 = Duration::new(800);

    let res = TogglSummaryResponse {
        data: vec![
            TogglSummary {
                id: 1,
                title: TogglSummaryTitle {
                    user: user_name_1.clone(),
                },
                items: vec![
                    TogglItem {
                        title: TogglItemTitle {
                            project: project_1.clone(),
                        },
                        time: t1,
                    },
                    TogglItem {
                        title: TogglItemTitle {
                            project: project_2.clone(),
                        },
                        time: t2,
                    },
                ],
            },
            TogglSummary {
                id: 2,
                title: TogglSummaryTitle {
                    user: user_name_2.clone(),
                },
                items: vec![
                    TogglItem {
                        title: TogglItemTitle {
                            project: project_3.clone(),
                        },
                        time: t3,
                    },
                    TogglItem {
                        title: TogglItemTitle {
                            project: project_1.clone(),
                        },
                        time: t4,
                    },
                ],
            },
        ],
    };
    let actual = TogglAccessor::convert_summary_to_hashmap(&res);
    let expected: ProjectRecords = ProjectRecords::new(vec![
        (
            user_name_1.clone(),
            vec![(project_1.clone(), t1), (project_2.clone(), t2)],
        ),
        (
            user_name_2.clone(),
            vec![(project_3.clone(), t3), (project_1.clone(), t4)],
        ),
    ]);
    assert_eq!(actual, expected)
}

#[test]
fn convert_details_to_vec_must_work() {
    let user1 = User::new("Alice");
    let user2 = User::new("Bob");
    let project = Project::new(Some("ProjectA"));
    let dur1 = Duration::new(100);
    let dur2 = Duration::new(200);
    let dur3 = Duration::new(400);
    let desc = "".to_string();

    let data = vec![
        TogglDetail {
            description: desc.clone(),
            start: zoned("2020-12-01T10:00:00+09:00"),
            dur: dur1,
            user: user1.clone(),
            project: project.clone(),
        },
        TogglDetail {
            description: desc.clone(),
            start: zoned("2020-12-01T20:00:00+09:00"),
            dur: dur2,
            user: user1.clone(),
            project: project.clone(),
        },
        TogglDetail {
            description: desc.clone(),
            start: zoned("2020-12-01T15:00:00+09:00"),
            dur: dur3,
            user: user2.clone(),
            project: project.clone(),
        },
    ];

    let actual = TogglAccessor::convert_details_to_vec(&data);
    let expected = vec![
        (
            RecordKey {
                user: user1.clone(),
                project: project.clone(),
                date: day("2020-12-01"),
            },
            dur1,
        ),
        (
            RecordKey {
                user: user1.clone(),
                project: project.clone(),
                date: day("2020-12-01"),
            },
            dur2,
        ),
        (
            RecordKey {
                user: user2.clone(),
                project: project.clone(),
                date: day("2020-12-01"),
            },
            dur3,
        ),
    ];
    assert_eq!(actual, expected)
}
