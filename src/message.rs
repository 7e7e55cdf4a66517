//! The two reports: a summary message per user, and a table per project,
//! user and day.
use crate::assoc::{lemma_pairs_map_dom, lemma_pairs_map_value, pairs_map};
use crate::calendar::{date_text, Date};
use crate::order::{lemma_name_order, lemma_sorted_unique, name_order, sorted_by};
use crate::table::{
    aggregate, law_aggregate_order_independent, project_views, projects_in, record_views, totals_fit, user_views, users_in,
    DurationTable,
};
use crate::toggl::{KeyView, RecordKey};
use crate::text::{decimal, push_decimal};
use crate::values::{
    entry_users, lemma_sorted_users_distinct, project_label, times_view, user_entry_views,
    date_views, days_between, lemma_project_order, project_order, Duration, Period, PeriodError,
    Project, ProjectRecords, ProjectTimesView, User,
};
use vstd::prelude::*;

verus! {

/// A duration in milliseconds shown in hours, to the half hour below: whole
/// minutes are counted, and a remainder of 30 minutes or more adds `.5`.
pub open spec fn hours_text(ms: nat) -> Seq<char> {
    let minutes = ms / 60000;
    if minutes % 60 >= 30 {
        decimal(minutes / 60) + ".5"@
    } else {
        decimal(minutes / 60)
    }
}

/// The names of `names` in ascending order.
pub open spec fn sorted_names(names: Set<Seq<char>>) -> Seq<Seq<char>> {
    choose|s: Seq<Seq<char>>| sorted_by(s, name_order()) && s.to_set() == names
}

/// The first line of the summary message, with the period's dates.
pub open spec fn summary_title(begin: int, end: int) -> Seq<char> {
    "*Toggl summary report* ["@ + date_text(begin, "%Y/%m/%d"@) + "-"@ + date_text(
        end,
        "%Y/%m/%d"@,
    ) + "]\n"@
}

/// One line per project, in the order given: `<project>: <hours>h`.
pub open spec fn times_text(times: ProjectTimesView) -> Seq<char>
    decreases times.len(),
{
    if times.len() == 0 {
        Seq::empty()
    } else {
        times_text(times.drop_last()) + project_label(times.last().0) + ": "@ + hours_text(
            times.last().1,
        ) + "h\n"@
    }
}

/// A user's block of the summary message: the name, then the project lines
/// in a code block.
pub open spec fn user_entry_text(user: Seq<char>, times: ProjectTimesView) -> Seq<char> {
    "\n*"@ + user + "*\n\n```"@ + times_text(times) + "```"@
}

/// The blocks of the given users, in the order given.
pub open spec fn users_text(users: Seq<Seq<char>>, records: Map<Seq<char>, ProjectTimesView>) -> Seq<
    char,
>
    decreases users.len(),
{
    if users.len() == 0 {
        Seq::empty()
    } else {
        users_text(users.drop_last(), records) + user_entry_text(
            users.last(),
            records[users.last()],
        )
    }
}

/// The summary message: the title, then one block per user, users
/// ascending.
pub open spec fn summary_text(records: Map<Seq<char>, ProjectTimesView>, begin: int, end: int) -> Seq<
    char,
> {
    summary_title(begin, end) + users_text(sorted_names(records.dom()), records)
}

/// The text that the csv crate's writer, with its default settings, writes
/// for one record with these fields, terminator included.
pub uninterp spec fn csv_record_text(fields: Seq<Seq<char>>) -> Seq<char>;

/// Relies on csv's `Writer` (as `WriterBuilder::new` sets it up): the text
/// of one record, with quoting where a field needs it.
#[verifier::external_body]
fn csv_record(fields: &Vec<String>) -> (r: String)
    ensures
        r@ == csv_record_text(field_views(fields@)),
{
    let mut writer = csv::WriterBuilder::new().from_writer(Vec::new());
    let _ = writer.write_record(fields);
    match writer.into_inner() {
        Ok(bytes) => String::from_utf8(bytes).unwrap_or_default(),
        Err(_) => String::new(),
    }
}

/// The summed duration for key `k`, zero where it does not occur.
pub open spec fn duration_at(m: Map<KeyView, nat>, k: KeyView) -> nat {
    if m.contains_key(k) {
        m[k]
    } else {
        0
    }
}

/// The texts of a sequence of strings.
pub open spec fn field_views(fields: Seq<String>) -> Seq<Seq<char>> {
    fields.map_values(|f: String| f@)
}

/// Each day as `YYYY-MM-DD`.
pub open spec fn day_labels(days: Seq<int>) -> Seq<Seq<char>> {
    days.map_values(|d: int| date_text(d, "%Y-%m-%d"@))
}

/// The hours of `user` on `project` on each day.
pub open spec fn day_hours(
    project: Option<Seq<char>>,
    user: Seq<char>,
    days: Seq<int>,
    m: Map<KeyView, nat>,
) -> Seq<Seq<char>> {
    days.map_values(|d: int| hours_text(duration_at(m, (user, project, d))))
}

/// The header of the table: `Project`, `User`, then each day as
/// `YYYY-MM-DD`.
pub open spec fn header_fields(days: Seq<int>) -> Seq<Seq<char>> {
    seq!["Project"@, "User"@] + day_labels(days)
}

/// The row of a project and a user: their labels, then the hours of each day.
pub open spec fn row_fields(
    project: Option<Seq<char>>,
    user: Seq<char>,
    days: Seq<int>,
    m: Map<KeyView, nat>,
) -> Seq<Seq<char>> {
    seq![project_label(project), user] + day_hours(project, user, days, m)
}

/// The rows of one project, one per user in the order given.
pub open spec fn project_rows_text(
    project: Option<Seq<char>>,
    users: Seq<Seq<char>>,
    days: Seq<int>,
    m: Map<KeyView, nat>,
) -> Seq<char>
    decreases users.len(),
{
    if users.len() == 0 {
        Seq::empty()
    } else {
        project_rows_text(project, users.drop_last(), days, m) + csv_record_text(
            row_fields(project, users.last(), days, m),
        )
    }
}

/// The rows of the table: projects in the order given, and within each,
/// users in the order given.
pub open spec fn rows_text(
    projects: Seq<Option<Seq<char>>>,
    users: Seq<Seq<char>>,
    days: Seq<int>,
    m: Map<KeyView, nat>,
) -> Seq<char>
    decreases projects.len(),
{
    if projects.len() == 0 {
        Seq::empty()
    } else {
        rows_text(projects.drop_last(), users, days, m) + project_rows_text(
            projects.last(),
            users,
            days,
            m,
        )
    }
}

/// The table for the given projects, users and days.
pub open spec fn table_text(
    projects: Seq<Option<Seq<char>>>,
    users: Seq<Seq<char>>,
    days: Seq<int>,
    m: Map<KeyView, nat>,
) -> Seq<char> {
    csv_record_text(header_fields(days)) + rows_text(projects, users, days, m)
}

/// The projects of `projects` in ascending order.
pub open spec fn sorted_projects(projects: Set<Option<Seq<char>>>) -> Seq<Option<Seq<char>>> {
    choose|s: Seq<Option<Seq<char>>>| sorted_by(s, project_order()) && s.to_set() == projects
}

/// The detailed report of summed durations `m` over the days from `begin` to
/// `end`: a row for each project and user that occur in `m`, projects
/// ascending and, within a project, users ascending.
pub open spec fn report_table_text(m: Map<KeyView, nat>, begin: int, end: int) -> Seq<char> {
    table_text(
        sorted_projects(projects_in(m)),
        sorted_names(users_in(m)),
        days_between(begin, end),
        m,
    )
}

/// The detailed report depends on the records only, not on their order:
/// records given in any rearrangement render to the same text.
pub proof fn law_table_independent_of_record_order(
    a: Seq<(KeyView, nat)>,
    b: Seq<(KeyView, nat)>,
    begin: int,
    end: int,
)
    requires
        a.to_multiset() == b.to_multiset(),
    ensures
        report_table_text(aggregate(a), begin, end) == report_table_text(aggregate(b), begin, end),
{
    law_aggregate_order_independent(a, b);
}

/// Renders reports from tracked time.
pub struct MessageCreator {}

impl MessageCreator {
    /// The summary message: a title with the period, then for each user,
    /// in ascending order, the time spent on each project.
    pub fn get_project_message(
        &self,
        project_times_by_user: &ProjectRecords,
        begin_date: &Date,
        end_date: &Date,
    ) -> (r: String)
        ensures
            r@ == summary_text(project_times_by_user@, begin_date@, end_date@),
    {
        let ghost m = project_times_by_user@;
        let entries = project_times_by_user.entries();
        let ghost es = user_entry_views(entries@);
        let ghost us = entry_users(es);
        proof {
            lemma_name_order();
            lemma_sorted_users_distinct(es);
            lemma_pairs_map_dom(es);
            assert(us.to_set() =~= m.dom()) by {
                assert forall|k: Seq<char>| us.contains(k) implies m.dom().contains(k) by {
                    let i = choose|i: int| 0 <= i < us.len() && us[i] == k;
                    assert(es[i].0 == k);
                }
                assert forall|k: Seq<char>| m.dom().contains(k) implies us.contains(k) by {
                    let i = choose|i: int| 0 <= i < es.len() && es[i].0 == k;
                    assert(us[i] == k);
                }
            }
            let c = sorted_names(m.dom());
            assert(sorted_by(c, name_order()) && c.to_set() == m.dom());
            lemma_sorted_unique(c, us, name_order());
        }
        let mut text = self.get_project_message_title(begin_date, end_date);
        let mut i: usize = 0;
        proof {
            assert(us.take(0) =~= Seq::<Seq<char>>::empty());
            assert(text@ =~= summary_title(begin_date@, end_date@) + users_text(us.take(0), m));
        }
        while i < entries.len()
            invariant
                i <= entries@.len(),
                es == user_entry_views(entries@),
                us == entry_users(es),
                m == pairs_map(es),
                crate::assoc::keys_distinct(es),
                text@ == summary_title(begin_date@, end_date@) + users_text(us.take(i as int), m),
            decreases entries@.len() - i,
        {
            let entry = self.get_project_message_user_entry(&entries[i].0, &entries[i].1);
            proof {
                lemma_pairs_map_value(es, i as int);
                assert(us.take(i + 1).drop_last() =~= us.take(i as int));
                assert(us.take(i + 1).last() == es[i as int].0);
            }
            text.append(entry.as_str());
            proof {
                assert(text@ =~= summary_title(begin_date@, end_date@) + users_text(
                    us.take(i + 1),
                    m,
                ));
            }
            i = i + 1;
        }
        proof {
            assert(us.take(i as int) =~= us);
        }
        text
    }

    /// The title line of the summary message.
    pub fn get_project_message_title(&self, begin_date: &Date, end_date: &Date) -> (r: String)
        ensures
            r@ == summary_title(begin_date@, end_date@),
    {
        let mut text = String::from_str("*Toggl summary report* [");
        text.append(begin_date.format("%Y/%m/%d").as_str());
        text.append("-");
        text.append(end_date.format("%Y/%m/%d").as_str());
        text.append("]\n");
        assert(text@ =~= summary_title(begin_date@, end_date@));
        text
    }

    /// A user's block of the summary message.
    pub fn get_project_message_user_entry(
        &self,
        user: &User,
        project_times: &Vec<(Project, Duration)>,
    ) -> (r: String)
        ensures
            r@ == user_entry_text(user@, times_view(project_times@)),
    {
        let ghost tv = times_view(project_times@);
        let mut lines = String::new();
        let mut i: usize = 0;
        proof {
            assert(tv.take(0) =~= Seq::<(Option<Seq<char>>, nat)>::empty());
        }
        while i < project_times.len()
            invariant
                i <= project_times@.len(),
                tv == times_view(project_times@),
                lines@ == times_text(tv.take(i as int)),
            decreases project_times@.len() - i,
        {
            lines.append(project_times[i].0.to_string().as_str());
            lines.append(": ");
            lines.append(self.format_duration_time(&project_times[i].1).as_str());
            lines.append("h\n");
            proof {
                assert(tv.take(i + 1).drop_last() =~= tv.take(i as int));
                assert(tv.take(i + 1).last() == tv[i as int]);
                assert(lines@ =~= times_text(tv.take(i + 1)));
            }
            i = i + 1;
        }
        proof {
            assert(tv.take(i as int) =~= tv);
        }
        let mut text = String::from_str("\n*");
        text.append(user.value.as_str());
        text.append("*\n\n```");
        text.append(lines.as_str());
        text.append("```");
        assert(text@ =~= user_entry_text(user@, tv));
        text
    }

    /// Every day from `begin_date` to `end_date`, ascending; an error where
    /// `end_date` comes before `begin_date`.
    pub fn get_sorted_dates_in_period(&self, begin_date: &Date, end_date: &Date) -> (r: Result<
        Vec<Date>,
        PeriodError,
    >)
        ensures
            r is Ok <==> begin_date@ <= end_date@,
            r is Ok ==> date_views(r->Ok_0@) == days_between(begin_date@, end_date@),
            r is Err ==> r->Err_0 == PeriodError::InvalidRange,
    {
        match Period::new(*begin_date, *end_date) {
            Ok(period) => Ok(period.dates()),
            Err(e) => Err(e),
        }
    }

    /// Sums the durations of the records per key.
    pub fn sumup_durations(&self, dur_time_by_project_user_date: &Vec<(RecordKey, Duration)>) -> (r:
        DurationTable)
        requires
            totals_fit(record_views(dur_time_by_project_user_date@)),
        ensures
            r@ == aggregate(record_views(dur_time_by_project_user_date@)),
    {
        let table = DurationTable::try_from_records(dur_time_by_project_user_date);
        table.unwrap()
    }

    /// The summed duration of `user` on `project` for each of `dates`, zero
    /// where there is none.
    pub fn search_duration_time(
        &self,
        dates: &Vec<Date>,
        user: &User,
        project: &Project,
        dur_times_for_record_key: &DurationTable,
    ) -> (r: Vec<Duration>)
        ensures
            r@.len() == dates@.len(),
            forall|i: int|
                0 <= i < dates@.len() ==> (#[trigger] r@[i])@ == duration_at(
                    dur_times_for_record_key@,
                    (user@, project@, dates@[i]@),
                ),
    {
        let mut out: Vec<Duration> = Vec::new();
        let mut i: usize = 0;
        while i < dates.len()
            invariant
                i <= dates@.len(),
                out@.len() == i,
                forall|k: int|
                    0 <= k < i ==> (#[trigger] out@[k])@ == duration_at(
                        dur_times_for_record_key@,
                        (user@, project@, dates@[k]@),
                    ),
            decreases dates@.len() - i,
        {
            let key = RecordKey {
                user: User { value: user.value.clone() },
                project: project.duplicate(),
                date: dates[i],
            };
            let d = match dur_times_for_record_key.get(&key) {
                Some(d) => d,
                None => Duration { value: 0 },
            };
            out.push(d);
            i = i + 1;
        }
        out
    }

    /// The table of `dur_times_for_record_key` over `dates`: a header, then
    /// one row per project and user, projects in the order of `projects`
    /// and, within each, users in the order of `users`.
    pub fn write_csv(
        &self,
        users: &Vec<User>,
        projects: &Vec<Project>,
        dates: &Vec<Date>,
        dur_times_for_record_key: &DurationTable,
    ) -> (r: String)
        ensures
            r@ == table_text(
                project_views(projects@),
                user_views(users@),
                date_views(dates@),
                dur_times_for_record_key@,
            ),
    {
        let ghost m = dur_times_for_record_key@;
        let ghost days = date_views(dates@);
        let ghost pv = project_views(projects@);
        let ghost uv = user_views(users@);
        let mut header: Vec<String> = Vec::new();
        header.push(String::from_str("Project"));
        header.push(String::from_str("User"));
        let mut i: usize = 0;
        while i < dates.len()
            invariant
                i <= dates@.len(),
                days == date_views(dates@),
                field_views(header@) == seq!["Project"@, "User"@] + day_labels(
                    days.take(i as int),
                ),
            decreases dates@.len() - i,
        {
            let ghost before = header@;
            header.push(dates[i].format("%Y-%m-%d"));
            proof {
                assert(days.take(i + 1) =~= days.take(i as int).push(days[i as int]));
                assert(field_views(header@) =~= field_views(before).push(
                    date_text(days[i as int], "%Y-%m-%d"@),
                ));
                assert(day_labels(days.take(i + 1)) =~= day_labels(days.take(i as int)).push(
                    date_text(days[i as int], "%Y-%m-%d"@),
                ));
                assert(field_views(header@) =~= seq!["Project"@, "User"@] + day_labels(
                    days.take(i + 1),
                ));
            }
            i = i + 1;
        }
        proof {
            assert(days.take(i as int) =~= days);
        }
        let mut text = csv_record(&header);
        let mut p: usize = 0;
        proof {
            assert(pv.take(0) =~= Seq::<Option<Seq<char>>>::empty());
        }
        while p < projects.len()
            invariant
                p <= projects@.len(),
                pv == project_views(projects@),
                uv == user_views(users@),
                days == date_views(dates@),
                m == dur_times_for_record_key@,
                text@ == csv_record_text(header_fields(days)) + rows_text(
                    pv.take(p as int),
                    uv,
                    days,
                    m,
                ),
            decreases projects@.len() - p,
        {
            let ghost before = text@;
            let mut u: usize = 0;
            proof {
                assert(uv.take(0) =~= Seq::<Seq<char>>::empty());
                assert(text@ =~= before + project_rows_text(pv[p as int], uv.take(0), days, m));
            }
            while u < users.len()
                invariant
                    p < projects@.len(),
                    u <= users@.len(),
                    pv == project_views(projects@),
                    uv == user_views(users@),
                    days == date_views(dates@),
                    m == dur_times_for_record_key@,
                    text@ == before + project_rows_text(pv[p as int], uv.take(u as int), days, m),
                decreases users@.len() - u,
            {
                let row = self.csv_row(&projects[p], &users[u], dates, dur_times_for_record_key);
                text.append(csv_record(&row).as_str());
                proof {
                    assert(uv.take(u + 1).drop_last() =~= uv.take(u as int));
                    assert(uv.take(u + 1).last() == uv[u as int]);
                    assert(text@ =~= before + project_rows_text(
                        pv[p as int],
                        uv.take(u + 1),
                        days,
                        m,
                    ));
                }
                u = u + 1;
            }
            proof {
                assert(uv.take(u as int) =~= uv);
                assert(pv.take(p + 1).drop_last() =~= pv.take(p as int));
                assert(pv.take(p + 1).last() == pv[p as int]);
                assert(text@ =~= csv_record_text(header_fields(days)) + rows_text(
                    pv.take(p + 1),
                    uv,
                    days,
                    m,
                ));
            }
            p = p + 1;
        }
        proof {
            assert(pv.take(p as int) =~= pv);
        }
        text
    }

    /// The fields of the row of `project` and `user`.
    fn csv_row(
        &self,
        project: &Project,
        user: &User,
        dates: &Vec<Date>,
        dur_times_for_record_key: &DurationTable,
    ) -> (r: Vec<String>)
        ensures
            field_views(r@) == row_fields(
                project@,
                user@,
                date_views(dates@),
                dur_times_for_record_key@,
            ),
    {
        let ghost days = date_views(dates@);
        let durations = self.search_duration_time(dates, user, project, dur_times_for_record_key);
        let mut row: Vec<String> = Vec::new();
        row.push(project.to_string());
        row.push(user.to_string());
        let mut i: usize = 0;
        while i < durations.len()
            invariant
                i <= durations@.len(),
                durations@.len() == dates@.len(),
                days == date_views(dates@),
                forall|k: int|
                    0 <= k < dates@.len() ==> (#[trigger] durations@[k])@ == duration_at(
                        dur_times_for_record_key@,
                        (user@, project@, dates@[k]@),
                    ),
                field_views(row@) == seq![project_label(project@), user@] + day_hours(
                    project@,
                    user@,
                    days.take(i as int),
                    dur_times_for_record_key@,
                ),
            decreases durations@.len() - i,
        {
            let ghost before = row@;
            row.push(self.format_duration_time(&durations[i]));
            proof {
                assert(days.take(i + 1) =~= days.take(i as int).push(days[i as int]));
                let h = hours_text(
                    duration_at(dur_times_for_record_key@, (user@, project@, days[i as int])),
                );
                assert(field_views(row@) =~= field_views(before).push(h));
                assert(day_hours(project@, user@, days.take(i + 1), dur_times_for_record_key@)
                    =~= day_hours(
                    project@,
                    user@,
                    days.take(i as int),
                    dur_times_for_record_key@,
                ).push(h));
                assert(field_views(row@) =~= seq![project_label(project@), user@] + day_hours(
                    project@,
                    user@,
                    days.take(i + 1),
                    dur_times_for_record_key@,
                ));
            }
            i = i + 1;
        }
        proof {
            assert(days.take(i as int) =~= days);
        }
        row
    }

    /// The detailed report: the records summed per key, then a table with a
    /// column per day from `begin_date` to `end_date` and a row per project
    /// and user that occur in the records, zero where nothing was tracked.
    pub fn create_text_for_csv(
        &self,
        dur_time_by_project_user_date: &Vec<(RecordKey, Duration)>,
        begin_date: &Date,
        end_date: &Date,
    ) -> (r: String)
        requires
            begin_date@ <= end_date@,
            totals_fit(record_views(dur_time_by_project_user_date@)),
        ensures
            r@ == report_table_text(
                aggregate(record_views(dur_time_by_project_user_date@)),
                begin_date@,
                end_date@,
            ),
    {
        let summed = self.sumup_durations(dur_time_by_project_user_date);
        let dates = match self.get_sorted_dates_in_period(begin_date, end_date) {
            Ok(dates) => dates,
            Err(_) => Vec::new(),
        };
        let projects = summed.projects();
        let users = summed.users();
        proof {
            lemma_name_order();
            lemma_project_order();
            let cp = sorted_projects(projects_in(summed@));
            assert(sorted_by(cp, project_order()) && cp.to_set() == projects_in(summed@));
            lemma_sorted_unique(cp, project_views(projects@), project_order());
            let cu = sorted_names(users_in(summed@));
            assert(sorted_by(cu, name_order()) && cu.to_set() == users_in(summed@));
            lemma_sorted_unique(cu, user_views(users@), name_order());
        }
        self.write_csv(&users, &projects, &dates, &summed)
    }

    /// Formats a duration as hours, to the half hour below.
    pub fn format_duration_time(&self, dur: &Duration) -> (r: String)
        ensures
            r@ == hours_text(dur@),
    {
        let minutes = dur.value / 60000;
        let mut text = String::new();
        push_decimal(&mut text, minutes / 60);
        if minutes % 60 >= 30 {
            text.append(".5");
        }
        text
    }
}

} // verus!
