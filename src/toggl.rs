//! Records as the reporting service delivers them, and their conversion
//! into the shapes that the reports are built from.
use crate::assoc::pairs_map;
use crate::calendar::{local_day, Date, ZonedTime};
use crate::text::{decimal, push_decimal};
use crate::values::{
    times_view, user_entry_views, Duration, Project, ProjectRecords, ProjectTimesView, User,
};
use vstd::prelude::*;

verus! {

/// What a record's key looks like to specifications: user, project, day.
pub type KeyView = (Seq<char>, Option<Seq<char>>, int);

/// The key that tracked time is grouped by: who, on what, on which local day.
#[derive(Clone, Debug, PartialEq, Eq, Hash)]
pub struct RecordKey {
    pub user: User,
    pub project: Project,
    pub date: Date,
}

impl View for RecordKey {
    type V = KeyView;

    open spec fn view(&self) -> KeyView {
        (self.user@, self.project@, self.date@)
    }
}

impl RecordKey {
    /// Whether the two keys name the same user, project and day.
    pub fn same_as(&self, other: &RecordKey) -> (r: bool)
        ensures
            r == (self@ == other@),
    {
        self.user.value == other.user.value && self.project.same_as(&other.project)
            && self.date.days == other.date.days
    }

    /// A copy of the key.
    pub fn duplicate(&self) -> (r: RecordKey)
        ensures
            r@ == self@,
    {
        RecordKey {
            user: User { value: self.user.value.clone() },
            project: self.project.duplicate(),
            date: self.date,
        }
    }
}

/// The summary report: per user, the time spent on each project.
pub struct TogglSummaryResponse {
    pub data: Vec<TogglSummary>,
}

/// One user's part of the summary report.
pub struct TogglSummary {
    pub id: u64,
    pub title: TogglSummaryTitle,
    pub items: Vec<TogglItem>,
}

pub struct TogglSummaryTitle {
    pub user: User,
}

/// The time a user spent on one project.
pub struct TogglItem {
    pub title: TogglItemTitle,
    pub time: Duration,
}

pub struct TogglItemTitle {
    pub project: Project,
}

/// One entry of the detailed report.
pub struct TogglDetail {
    pub description: String,
    pub start: ZonedTime,
    pub dur: Duration,
    pub user: User,
    pub project: Project,
}

/// The projects and durations of a user's items, in order.
pub open spec fn item_times(items: Seq<TogglItem>) -> ProjectTimesView {
    items.map_values(|it: TogglItem| (it.title.project@, it.time@))
}

/// Each user of the summary report with the projects and durations of its
/// items.
pub open spec fn summary_entries(data: Seq<TogglSummary>) -> Seq<(Seq<char>, ProjectTimesView)> {
    data.map_values(|d: TogglSummary| (d.title.user@, item_times(d.items@)))
}

/// The key of a detailed entry: its user, its project, and the local day
/// on which it started.
pub open spec fn detail_key(d: TogglDetail) -> KeyView {
    (d.user@, d.project@, local_day(d.start@.0, d.start@.1))
}

/// `p`'s name and value as texts.
pub open spec fn pair_view(p: (String, String)) -> (Seq<char>, Seq<char>) {
    (p.0@, p.1@)
}

/// The names and values of a query, as texts.
pub open spec fn query_views(query: Seq<(String, String)>) -> Seq<(Seq<char>, Seq<char>)> {
    query.map_values(|p: (String, String)| pair_view(p))
}

/// The number of pages of `per_page` entries that hold `total_count`
/// entries; a page size of zero leaves the first page only.
pub open spec fn pages_for(total_count: nat, per_page: nat) -> nat {
    if per_page == 0 {
        1
    } else {
        ((total_count + per_page - 1) / (per_page as int)) as nat
    }
}

/// Access to the reporting service of one workspace.
pub struct TogglAccessor {
    pub token: String,
    pub workspace: String,
    pub email: String,
}

impl TogglAccessor {
    /// The query of the summary report from `date_from` to `date_to`,
    /// grouped by user and then by project.
    pub fn summary_query(&self, date_from: &str, date_to: &str) -> (r: Vec<(String, String)>)
        ensures
            query_views(r@) == seq![
                ("workspace_id"@, self.workspace@),
                ("since"@, date_from@),
                ("until"@, date_to@),
                ("user_agent"@, self.email@),
                ("grouping"@, "users"@),
                ("subgrouping"@, "projects"@),
            ],
    {
        let mut query = self.details_query(date_from, date_to);
        let ghost first = query@;
        query.push((String::from_str("grouping"), String::from_str("users")));
        let ghost second = query@;
        query.push((String::from_str("subgrouping"), String::from_str("projects")));
        assert(query_views(second) =~= query_views(first).push(("grouping"@, "users"@)));
        assert(query_views(query@) =~= query_views(second).push(("subgrouping"@, "projects"@)));
        assert(query_views(query@) =~= seq![
            ("workspace_id"@, self.workspace@),
            ("since"@, date_from@),
            ("until"@, date_to@),
            ("user_agent"@, self.email@),
            ("grouping"@, "users"@),
            ("subgrouping"@, "projects"@),
        ]);
        query
    }

    /// The query of the first page of the detailed report from `date_from`
    /// to `date_to`.
    pub fn details_query(&self, date_from: &str, date_to: &str) -> (r: Vec<(String, String)>)
        ensures
            query_views(r@) == seq![
                ("workspace_id"@, self.workspace@),
                ("since"@, date_from@),
                ("until"@, date_to@),
                ("user_agent"@, self.email@),
            ],
    {
        let mut query: Vec<(String, String)> = Vec::new();
        query.push((String::from_str("workspace_id"), self.workspace.clone()));
        query.push((String::from_str("since"), String::from_str(date_from)));
        query.push((String::from_str("until"), String::from_str(date_to)));
        query.push((String::from_str("user_agent"), self.email.clone()));
        assert(query_views(query@) =~= seq![
            ("workspace_id"@, self.workspace@),
            ("since"@, date_from@),
            ("until"@, date_to@),
            ("user_agent"@, self.email@),
        ]);
        query
    }

    /// The query of page `page` of the detailed report.
    pub fn details_page_query(&self, date_from: &str, date_to: &str, page: u64) -> (r: Vec<
        (String, String),
    >)
        ensures
            query_views(r@) == seq![
                ("workspace_id"@, self.workspace@),
                ("since"@, date_from@),
                ("until"@, date_to@),
                ("user_agent"@, self.email@),
                ("page"@, decimal(page as nat)),
            ],
    {
        let mut query = self.details_query(date_from, date_to);
        let ghost first = query@;
        let mut number = String::new();
        push_decimal(&mut number, page);
        query.push((String::from_str("page"), number));
        assert(query_views(query@) =~= query_views(first).push(("page"@, decimal(page as nat))));
        assert(query_views(query@) =~= seq![
            ("workspace_id"@, self.workspace@),
            ("since"@, date_from@),
            ("until"@, date_to@),
            ("user_agent"@, self.email@),
            ("page"@, decimal(page as nat)),
        ]);
        query
    }

    /// How many pages the detailed report spans, from what its first page
    /// says of the total and of the page size.
    pub fn page_count(total_count: u64, per_page: u64) -> (r: u64)
        ensures
            r == pages_for(total_count as nat, per_page as nat),
    {
        if per_page == 0 {
            1
        } else {
            let q = total_count / per_page;
            if total_count % per_page == 0 {
                proof {
                    assert((total_count + per_page - 1) / per_page as int == q) by (nonlinear_arith)
                        requires
                            per_page > 0,
                            q == total_count / per_page,
                            total_count % per_page == 0,
                    {
                    }
                }
                q
            } else {
                proof {
                    assert((total_count + per_page - 1) / per_page as int == q + 1) by (
                    nonlinear_arith)
                        requires
                            per_page > 0,
                            q == total_count / per_page,
                            total_count % per_page != 0,
                    {
                    }
                    assert(per_page != 1);
                    assert(q <= total_count / 2) by (nonlinear_arith)
                        requires
                            per_page >= 2,
                            q == total_count / per_page,
                    {
                    }
                }
                q + 1
            }
        }
    }

    /// The summary report as each user's projects and durations; where a
    /// user occurs more than once, the last occurrence counts.
    pub fn convert_summary_to_hashmap(res: &TogglSummaryResponse) -> (r: ProjectRecords)
        ensures
            r@ == pairs_map(summary_entries(res.data@)),
    {
        let mut records: Vec<(User, Vec<(Project, Duration)>)> = Vec::new();
        let mut i: usize = 0;
        while i < res.data.len()
            invariant
                i <= res.data@.len(),
                user_entry_views(records@) == summary_entries(res.data@).take(i as int),
            decreases res.data@.len() - i,
        {
            let summary = &res.data[i];
            let mut times: Vec<(Project, Duration)> = Vec::new();
            let mut j: usize = 0;
            while j < summary.items.len()
                invariant
                    j <= summary.items@.len(),
                    times_view(times@) == item_times(summary.items@).take(j as int),
                decreases summary.items@.len() - j,
            {
                let item = &summary.items[j];
                let ghost before = times@;
                times.push((item.title.project.duplicate(), item.time));
                assert(times_view(times@) =~= times_view(before).push(
                    (item.title.project@, item.time@),
                ));
                assert(item_times(summary.items@).take(j + 1) =~= item_times(summary.items@).take(
                    j as int,
                ).push(item_times(summary.items@)[j as int]));
                j = j + 1;
            }
            assert(item_times(summary.items@).take(j as int) =~= item_times(summary.items@));
            let ghost before = records@;
            let ghost tv = times_view(times@);
            records.push((User { value: summary.title.user.value.clone() }, times));
            assert(user_entry_views(records@) =~= user_entry_views(before).push(
                (summary.title.user@, tv),
            ));
            assert(summary_entries(res.data@).take(i + 1) =~= summary_entries(res.data@).take(
                i as int,
            ).push(summary_entries(res.data@)[i as int]));
            i = i + 1;
        }
        assert(summary_entries(res.data@).take(i as int) =~= summary_entries(res.data@));
        ProjectRecords::new(records)
    }

    /// The detailed report as records keyed by user, project and the local
    /// day on which each entry started.
    pub fn convert_details_to_vec(data: &Vec<TogglDetail>) -> (r: Vec<(RecordKey, Duration)>)
        ensures
            r@.len() == data@.len(),
            forall|i: int|
                0 <= i < data@.len() ==> (#[trigger] r@[i]).0@ == detail_key(data@[i]) && r@[i].1
                    == data@[i].dur,
    {
        let mut out: Vec<(RecordKey, Duration)> = Vec::new();
        let mut i: usize = 0;
        while i < data.len()
            invariant
                i <= data@.len(),
                out@.len() == i,
                forall|k: int|
                    0 <= k < i ==> (#[trigger] out@[k]).0@ == detail_key(data@[k]) && out@[k].1
                        == data@[k].dur,
            decreases data@.len() - i,
        {
            let d = &data[i];
            let key = RecordKey {
                user: User { value: d.user.value.clone() },
                project: d.project.duplicate(),
                date: d.start.local_date(),
            };
            out.push((key, d.dur));
            i = i + 1;
        }
        out
    }
}

} // verus!
