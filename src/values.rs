use crate::assoc::{
    keys_distinct, lemma_pairs_map_dom, lemma_pairs_map_insert, lemma_pairs_map_update,
    pairs_map,
};
use crate::calendar::Date;
use crate::order::{
    chars_less, is_strict_order, is_total, lemma_insert_sorted, lemma_name_order, name_order,
    sorted_by, str_less,
};
use vstd::prelude::*;

verus! {

/// The identity of a person who tracked time.
#[derive(Clone, Debug, PartialEq, Eq, Hash, PartialOrd, Ord)]
pub struct User {
    pub value: String,
}

impl View for User {
    type V = Seq<char>;

    open spec fn view(&self) -> Seq<char> {
        self.value@
    }
}

impl User {
    pub fn new(value: &str) -> (r: User)
        ensures
            r@ == value@,
    {
        User { value: String::from_str(value) }
    }

    pub fn to_string(&self) -> (r: String)
        ensures
            r@ == self@,
    {
        self.value.clone()
    }

    /// Whether `self` sorts before `other`.
    pub fn less_than(&self, other: &User) -> (r: bool)
        ensures
            r == chars_less(self@, other@),
    {
        str_less(self.value.as_str(), other.value.as_str())
    }
}

/// The label under which time without a project is shown.
pub const NONE_PROJECT_LABEL: &'static str = "EmptyProject";

/// The name of a project.
#[derive(Clone, Debug, PartialEq, Eq, Hash, PartialOrd, Ord)]
pub struct ProjectValue {
    pub value: String,
}

impl View for ProjectValue {
    type V = Seq<char>;

    open spec fn view(&self) -> Seq<char> {
        self.value@
    }
}

impl ProjectValue {
    pub fn new(value: &str) -> (r: ProjectValue)
        ensures
            r@ == value@,
    {
        ProjectValue { value: String::from_str(value) }
    }

    pub fn to_string(&self) -> (r: String)
        ensures
            r@ == self@,
    {
        self.value.clone()
    }
}

/// The project that time was tracked against, if any.
#[derive(Clone, Debug, PartialEq, Eq, Hash, PartialOrd, Ord)]
pub struct Project {
    pub value: Option<ProjectValue>,
}

impl View for Project {
    type V = Option<Seq<char>>;

    open spec fn view(&self) -> Option<Seq<char>> {
        match self.value {
            Some(v) => Some(v@),
            None => None,
        }
    }
}

/// The text that stands for a project in reports.
pub open spec fn project_label(p: Option<Seq<char>>) -> Seq<char> {
    match p {
        Some(name) => name,
        None => NONE_PROJECT_LABEL@,
    }
}

/// Order on projects: no project first, then the names in `chars_less` order.
pub open spec fn project_less(a: Option<Seq<char>>, b: Option<Seq<char>>) -> bool {
    match (a, b) {
        (None, Some(_)) => true,
        (Some(x), Some(y)) => chars_less(x, y),
        _ => false,
    }
}

pub open spec fn project_order() -> spec_fn(Option<Seq<char>>, Option<Seq<char>>) -> bool {
    |a: Option<Seq<char>>, b: Option<Seq<char>>| project_less(a, b)
}

/// The order on projects is a strict total order.
pub proof fn lemma_project_order()
    ensures
        is_strict_order(project_order()),
        is_total(project_order()),
{
    lemma_name_order();
    assert forall|a: Option<Seq<char>>| !#[trigger] project_order()(a, a) by {
        if a is Some {
            assert(!name_order()(a->0, a->0));
        }
    }
    assert forall|a: Option<Seq<char>>, b: Option<Seq<char>>, c: Option<Seq<char>>|
        #[trigger] project_order()(a, b) && #[trigger] project_order()(b, c) implies project_order()(
        a,
        c,
    ) by {
        if a is Some {
            assert(name_order()(a->0, b->0) && name_order()(b->0, c->0));
        }
    }
    assert forall|a: Option<Seq<char>>, b: Option<Seq<char>>| a != b implies #[trigger] project_order()(
        a,
        b,
    ) || #[trigger] project_order()(b, a) by {
        if a is Some && b is Some {
            assert(name_order()(a->0, b->0) || name_order()(b->0, a->0));
        }
    }
}

impl Project {
    pub fn new(value: Option<&str>) -> (r: Project)
        ensures
            r@ == match value {
                Some(s) => Some(s@),
                None => None::<Seq<char>>,
            },
    {
        match value {
            Some(s) => Project { value: Some(ProjectValue::new(s)) },
            None => Project { value: None },
        }
    }

    /// The project's name, or the placeholder label when there is none.
    pub fn to_string(&self) -> (r: String)
        ensures
            r@ == project_label(self@),
    {
        match &self.value {
            Some(v) => v.to_string(),
            None => String::from_str(NONE_PROJECT_LABEL),
        }
    }

    /// Whether `self` sorts before `other`.
    pub fn less_than(&self, other: &Project) -> (r: bool)
        ensures
            r == project_less(self@, other@),
    {
        match (&self.value, &other.value) {
            (None, Some(_)) => true,
            (Some(x), Some(y)) => str_less(x.value.as_str(), y.value.as_str()),
            _ => false,
        }
    }

    /// Whether the two stand for the same project.
    pub fn same_as(&self, other: &Project) -> (r: bool)
        ensures
            r == (self@ == other@),
    {
        match (&self.value, &other.value) {
            (None, None) => true,
            (Some(x), Some(y)) => x.value == y.value,
            _ => false,
        }
    }

    /// A copy of the project.
    pub fn duplicate(&self) -> (r: Project)
        ensures
            r@ == self@,
    {
        match &self.value {
            Some(v) => Project { value: Some(ProjectValue { value: v.value.clone() }) },
            None => Project { value: None },
        }
    }
}

/// Time in milliseconds.
#[derive(Clone, Copy, Debug, PartialEq, Eq, Structural)]
pub struct Duration {
    pub value: u64,
}

impl View for Duration {
    type V = nat;

    open spec fn view(&self) -> nat {
        self.value as nat
    }
}

impl Duration {
    pub fn new(value: u64) -> (r: Duration)
        ensures
            r.value == value,
    {
        Duration { value }
    }
}

impl core::ops::Add for Duration {
    type Output = Duration;

    fn add(self, other: Duration) -> (r: Duration) {
        Duration { value: self.value + other.value }
    }
}

impl vstd::std_specs::ops::AddSpecImpl for Duration {
    open spec fn obeys_add_spec() -> bool {
        true
    }

    /// The sum must fit in a `u64`.
    open spec fn add_req(self, other: Duration) -> bool {
        self.value + other.value <= u64::MAX
    }

    open spec fn add_spec(self, other: Duration) -> Duration {
        Duration { value: (self.value + other.value) as u64 }
    }
}

/// The failure of a period whose end comes before its beginning.
#[derive(Clone, Copy, Debug, PartialEq, Eq, Structural)]
pub enum PeriodError {
    InvalidRange,
}

/// The day numbers from `begin` to `end`, both included, ascending.
pub open spec fn days_between(begin: int, end: int) -> Seq<int> {
    Seq::new((end - begin + 1) as nat, |i: int| begin + i)
}

/// The day numbers of a sequence of dates.
pub open spec fn date_views(dates: Seq<Date>) -> Seq<int> {
    dates.map_values(|d: Date| d@)
}

/// A period covers every day from its beginning to its end: there are
/// `end - begin + 1` of them, strictly ascending, the first being `begin`
/// and the last `end`.
pub proof fn law_period_complete(begin: int, end: int)
    requires
        begin <= end,
    ensures
        days_between(begin, end).len() == end - begin + 1,
        days_between(begin, end)[0] == begin,
        days_between(begin, end).last() == end,
        forall|i: int, j: int|
            0 <= i < j < end - begin + 1 ==> #[trigger] days_between(begin, end)[i]
                < #[trigger] days_between(begin, end)[j],
        forall|i: int|
            0 <= i < end - begin ==> #[trigger] days_between(begin, end)[i + 1] == days_between(
                begin,
                end,
            )[i] + 1,
{
}

/// An inclusive range of calendar days, never empty.
#[derive(Debug)]
pub struct Period {
    begin: Date,
    end: Date,
}

impl View for Period {
    /// The day numbers of the first and the last day.
    type V = (int, int);

    closed spec fn view(&self) -> (int, int) {
        (self.begin@, self.end@)
    }
}

impl Period {
    #[verifier::type_invariant]
    spec fn ordered(self) -> bool {
        self.begin.days <= self.end.days
    }

    /// The period from `begin` to `end`; an error where `end` comes first.
    pub fn new(begin: Date, end: Date) -> (r: Result<Period, PeriodError>)
        ensures
            r is Ok <==> begin@ <= end@,
            r is Ok ==> r->Ok_0@ == (begin@, end@),
            r is Err ==> r->Err_0 == PeriodError::InvalidRange,
    {
        if begin.days > end.days {
            Err(PeriodError::InvalidRange)
        } else {
            Ok(Period { begin, end })
        }
    }

    pub fn begin(&self) -> (r: Date)
        ensures
            r@ == self@.0,
    {
        self.begin
    }

    pub fn end(&self) -> (r: Date)
        ensures
            r@ == self@.1,
    {
        self.end
    }

    /// Every day of the period, ascending.
    pub fn dates(&self) -> (r: Vec<Date>)
        ensures
            self@.0 <= self@.1,
            date_views(r@) == days_between(self@.0, self@.1),
    {
        proof {
            use_type_invariant(self);
        }
        let mut dates: Vec<Date> = Vec::new();
        let last = self.end.days as i64;
        let mut d: i64 = self.begin.days as i64;
        while d <= last
            invariant
                self.begin.days <= d <= last + 1,
                last == self.end.days,
                date_views(dates@) == days_between(self.begin@, d - 1),
            decreases last + 1 - d,
        {
            let ghost prev = dates@;
            dates.push(Date { days: d as i32 });
            proof {
                assert(date_views(dates@) =~= date_views(prev).push(d as int));
                assert(date_views(dates@) =~= days_between(self.begin@, d as int));
            }
            d = d + 1;
        }
        dates
    }
}

/// What a user's summary looks like to specifications: each project with
/// its milliseconds, in the order given.
pub type ProjectTimesView = Seq<(Option<Seq<char>>, nat)>;

pub open spec fn times_view(times: Seq<(Project, Duration)>) -> ProjectTimesView {
    times.map_values(|e: (Project, Duration)| (e.0@, e.1@))
}

pub open spec fn user_entry_views(entries: Seq<(User, Vec<(Project, Duration)>)>) -> Seq<
    (Seq<char>, ProjectTimesView),
> {
    entries.map_values(|e: (User, Vec<(Project, Duration)>)| (e.0@, times_view(e.1@)))
}

/// The users of a sequence of entries, in order.
pub open spec fn entry_users<X>(entries: Seq<(Seq<char>, X)>) -> Seq<Seq<char>> {
    entries.map_values(|e: (Seq<char>, X)| e.0)
}

/// Names sorted by `name_order` are distinct.
pub proof fn lemma_sorted_users_distinct<X>(entries: Seq<(Seq<char>, X)>)
    requires
        sorted_by(entry_users(entries), name_order()),
    ensures
        keys_distinct(entries),
{
    lemma_name_order();
    assert forall|a: int, b: int| #![trigger entries[a], entries[b]] 0 <= a < b < entries.len()
        implies entries[a].0 != entries[b].0 by {
        assert(name_order()(entry_users(entries)[a], entry_users(entries)[b]));
    }
}

/// Each user's projects and durations, as the summary report gives them.
#[derive(Debug, PartialEq, Eq)]
pub struct ProjectRecords {
    value: Vec<(User, Vec<(Project, Duration)>)>,
}

impl View for ProjectRecords {
    type V = Map<Seq<char>, ProjectTimesView>;

    closed spec fn view(&self) -> Map<Seq<char>, ProjectTimesView> {
        pairs_map(user_entry_views(self.value@))
    }
}

impl ProjectRecords {
    #[verifier::type_invariant]
    spec fn users_sorted(self) -> bool {
        sorted_by(entry_users(user_entry_views(self.value@)), name_order())
    }

    /// The records of each user; where a user occurs more than once, the
    /// last entry counts.
    pub fn new(value: Vec<(User, Vec<(Project, Duration)>)>) -> (r: ProjectRecords)
        ensures
            r@ == pairs_map(user_entry_views(value@)),
    {
        let ghost orig = user_entry_views(value@);
        assert(orig.len() == value.len());
        let mut rest = value;
        let mut out: Vec<(User, Vec<(Project, Duration)>)> = Vec::new();
        let mut i: usize = 0;
        proof {
            lemma_name_order();
            assert(orig.take(0) =~= Seq::<(Seq<char>, ProjectTimesView)>::empty());
            assert(pairs_map(user_entry_views(out@)) =~= pairs_map(orig.take(0)));
        }
        while rest.len() > 0
            invariant
                i <= orig.len() <= usize::MAX,
                rest@.len() + i == orig.len(),
                user_entry_views(rest@) == orig.skip(i as int),
                sorted_by(entry_users(user_entry_views(out@)), name_order()),
                pairs_map(user_entry_views(out@)) == pairs_map(orig.take(i as int)),
                is_strict_order(name_order()),
                is_total(name_order()),
            decreases rest@.len(),
        {
            let ghost ov = user_entry_views(out@);
            let ghost pr = rest@;
            let e = rest.remove(0);
            proof {
                assert(user_entry_views(pr)[0] == orig.skip(i as int)[0]);
                assert(user_entry_views(rest@) =~= user_entry_views(pr).drop_first());
                assert(user_entry_views(rest@) =~= orig.skip(i + 1));
                assert(orig[i as int] == (e.0@, times_view(e.1@)));
                assert(orig.take(i + 1).drop_last() =~= orig.take(i as int));
                lemma_sorted_users_distinct(ov);
                lemma_pairs_map_dom(ov);
            }
            let mut j: usize = 0;
            while j < out.len() && out[j].0.less_than(&e.0)
                invariant
                    j <= out@.len(),
                    ov == user_entry_views(out@),
                    forall|k: int| 0 <= k < j ==> chars_less(#[trigger] ov[k].0, e.0@),
                decreases out@.len() - j,
            {
                j = j + 1;
            }
            if j < out.len() && out[j].0.value == e.0.value {
                out.set(j, e);
                proof {
                    assert(user_entry_views(out@) =~= ov.update(j as int, (ov[j as int].0, orig[i as int].1)));
                    lemma_pairs_map_update(ov, j as int, orig[i as int].1);
                    assert(entry_users(user_entry_views(out@)) =~= entry_users(ov));
                }
            } else {
                proof {
                    let us = entry_users(ov);
                    assert forall|k: int| 0 <= k < ov.len() implies (#[trigger] ov[k]).0 != e.0@ by {
                        if k < j {
                            assert(chars_less(ov[k].0, e.0@));
                            assert(!name_order()(e.0@, e.0@));
                        } else {
                            assert(!chars_less(ov[j as int].0, e.0@));
                            assert(ov[j as int].0 != e.0@);
                            assert(!name_order()(ov[j as int].0, e.0@));
                            assert(name_order()(ov[j as int].0, e.0@) || name_order()(
                                e.0@,
                                ov[j as int].0,
                            ));
                            if k > j {
                                assert(name_order()(us[j as int], us[k]));
                            }
                        }
                    }
                    assert forall|k: int| 0 <= k < j implies name_order()(#[trigger] us[k], e.0@) by {
                        assert(chars_less(ov[k].0, e.0@));
                    }
                    if j < ov.len() {
                        assert(!name_order()(us[j as int], e.0@));
                        assert(us[j as int] != e.0@);
                    }
                    lemma_insert_sorted(us, j as int, e.0@, name_order());
                    lemma_pairs_map_insert(ov, j as int, orig[i as int]);
                }
                out.insert(j, e);
                proof {
                    assert(user_entry_views(out@) =~= ov.insert(j as int, orig[i as int]));
                    assert(entry_users(user_entry_views(out@)) =~= entry_users(ov).insert(
                        j as int,
                        orig[i as int].0,
                    ));
                }
            }
            i = i + 1;
        }
        proof {
            assert(orig.take(i as int) =~= orig);
        }
        ProjectRecords { value: out }
    }

    /// The entries, one per user, in ascending order of users.
    pub fn entries(&self) -> (r: &Vec<(User, Vec<(Project, Duration)>)>)
        ensures
            pairs_map(user_entry_views(r@)) == self@,
            sorted_by(entry_users(user_entry_views(r@)), name_order()),
    {
        proof {
            use_type_invariant(self);
        }
        &self.value
    }
}

} // verus!
