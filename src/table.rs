//! Tracked time summed per (user, project, day) key.
use crate::assoc::{
    keys_distinct, lemma_pairs_map_dom, lemma_pairs_map_len, lemma_pairs_map_update,
    lemma_pairs_map_value, pairs_map,
};
use crate::order::{chars_less, lemma_insert_sorted, lemma_name_order, name_order, sorted_by};
use crate::toggl::{KeyView, RecordKey};
use crate::values::{
    lemma_project_order, project_label, project_less, project_order, Duration, Project, User,
    NONE_PROJECT_LABEL,
};
use vstd::prelude::*;

verus! {

/// Records seen as (key, milliseconds) pairs.
pub open spec fn record_views(records: Seq<(RecordKey, Duration)>) -> Seq<(KeyView, nat)> {
    records.map_values(|e: (RecordKey, Duration)| (e.0@, e.1@))
}

/// Whether some record has key `k`.
pub open spec fn has_key(records: Seq<(KeyView, nat)>, k: KeyView) -> bool {
    exists|i: int| 0 <= i < records.len() && #[trigger] records[i].0 == k
}

/// The sum of the durations of the records with key `k`.
pub open spec fn total_for(records: Seq<(KeyView, nat)>, k: KeyView) -> nat
    decreases records.len(),
{
    if records.len() == 0 {
        0
    } else {
        total_for(records.drop_last(), k) + if records.last().0 == k {
            records.last().1
        } else {
            0
        }
    }
}

/// One entry per key that occurs in `records`, holding the sum of its
/// durations.
pub open spec fn aggregate(records: Seq<(KeyView, nat)>) -> Map<KeyView, nat> {
    Map::new(|k: KeyView| has_key(records, k), |k: KeyView| total_for(records, k))
}

/// Every key's sum fits in a `u64`.
pub open spec fn totals_fit(records: Seq<(KeyView, nat)>) -> bool {
    forall|k: KeyView| #[trigger] total_for(records, k) <= u64::MAX
}

proof fn lemma_total_prefix(records: Seq<(KeyView, nat)>, n: int, k: KeyView)
    requires
        0 <= n <= records.len(),
    ensures
        total_for(records.take(n), k) <= total_for(records, k),
    decreases records.len(),
{
    if n < records.len() {
        lemma_total_prefix(records.drop_last(), n, k);
        assert(records.drop_last().take(n) =~= records.take(n));
    } else {
        assert(records.take(n) =~= records);
    }
}

proof fn lemma_total_absent(records: Seq<(KeyView, nat)>, k: KeyView)
    requires
        !has_key(records, k),
    ensures
        total_for(records, k) == 0,
    decreases records.len(),
{
    if records.len() > 0 {
        assert(!has_key(records.drop_last(), k)) by {
            if has_key(records.drop_last(), k) {
                let i = choose|i: int|
                    0 <= i < records.drop_last().len() && #[trigger] records.drop_last()[i].0 == k;
                assert(records[i].0 == k);
            }
        }
        lemma_total_absent(records.drop_last(), k);
        assert(records[records.len() - 1].0 != k);
    }
}

proof fn lemma_aggregate_push(records: Seq<(KeyView, nat)>, x: (KeyView, nat))
    ensures
        aggregate(records.push(x)) == aggregate(records).insert(
            x.0,
            total_for(records, x.0) + x.1,
        ),
{
    let s = records.push(x);
    assert(s.drop_last() =~= records);
    assert forall|k: KeyView| has_key(s, k) <==> (has_key(records, k) || k == x.0) by {
        if has_key(s, k) && k != x.0 {
            let i = choose|i: int| 0 <= i < s.len() && #[trigger] s[i].0 == k;
            assert(records[i].0 == k);
        }
        if has_key(records, k) {
            let i = choose|i: int| 0 <= i < records.len() && #[trigger] records[i].0 == k;
            assert(s[i].0 == k);
        }
        if k == x.0 {
            assert(s[s.len() - 1].0 == k);
        }
    }
    assert(aggregate(s) =~= aggregate(records).insert(x.0, total_for(records, x.0) + x.1));
}

proof fn lemma_total_remove(records: Seq<(KeyView, nat)>, j: int, k: KeyView)
    requires
        0 <= j < records.len(),
    ensures
        total_for(records, k) == total_for(records.remove(j), k) + if records[j].0 == k {
            records[j].1
        } else {
            0
        },
    decreases records.len(),
{
    if j == records.len() - 1 {
        assert(records.remove(j) =~= records.drop_last());
    } else {
        let t = records.drop_last();
        lemma_total_remove(t, j, k);
        assert(records.remove(j).drop_last() =~= t.remove(j));
        assert(records.remove(j).last() == records.last());
    }
}

proof fn lemma_total_permutation(a: Seq<(KeyView, nat)>, b: Seq<(KeyView, nat)>, k: KeyView)
    requires
        a.to_multiset() == b.to_multiset(),
    ensures
        total_for(a, k) == total_for(b, k),
    decreases a.len(),
{
    broadcast use vstd::seq_lib::group_to_multiset_ensures;

    if a.len() == 0 {
        assert(b.len() == b.to_multiset().len());
        assert(a.len() == a.to_multiset().len());
    } else {
        let x = a.last();
        let t = a.drop_last();
        assert(a =~= t.push(x));
        assert(a.to_multiset().count(x) > 0);
        assert(b.contains(x));
        let j = choose|j: int| 0 <= j < b.len() && b[j] == x;
        assert(t.to_multiset() =~= b.remove(j).to_multiset()) by {
            assert(a.to_multiset() =~= t.to_multiset().insert(x));
        }
        lemma_total_permutation(t, b.remove(j), k);
        lemma_total_remove(b, j, k);
    }
}

/// Summing per key does not depend on the order of the records: any
/// rearrangement of the same records gives the same map.
pub proof fn law_aggregate_order_independent(a: Seq<(KeyView, nat)>, b: Seq<(KeyView, nat)>)
    requires
        a.to_multiset() == b.to_multiset(),
    ensures
        aggregate(a) == aggregate(b),
{
    broadcast use vstd::seq_lib::group_to_multiset_ensures;

    assert forall|k: KeyView| has_key(a, k) <==> has_key(b, k) by {
        if has_key(a, k) {
            let i = choose|i: int| 0 <= i < a.len() && #[trigger] a[i].0 == k;
            assert(a.to_multiset().count(a[i]) > 0);
            assert(b.contains(a[i]));
            let j = choose|j: int| 0 <= j < b.len() && b[j] == a[i];
            assert(b[j].0 == k);
        }
        if has_key(b, k) {
            let i = choose|i: int| 0 <= i < b.len() && #[trigger] b[i].0 == k;
            assert(b.to_multiset().count(b[i]) > 0);
            assert(a.contains(b[i]));
            let j = choose|j: int| 0 <= j < a.len() && a[j] == b[i];
            assert(a[j].0 == k);
        }
    }
    assert forall|k: KeyView| total_for(a, k) == total_for(b, k) by {
        lemma_total_permutation(a, b, k);
    }
    assert(aggregate(a) =~= aggregate(b));
}

/// Two records with the same key are summed; with different keys each
/// keeps its own duration.
pub proof fn law_aggregate_two_records(k1: KeyView, d1: nat, k2: KeyView, d2: nat)
    ensures
        k1 == k2 ==> aggregate(seq![(k1, d1), (k2, d2)]) == map![k1 => d1 + d2],
        k1 != k2 ==> aggregate(seq![(k1, d1), (k2, d2)]) == map![k1 => d1, k2 => d2],
{
    let s = seq![(k1, d1), (k2, d2)];
    assert(s.drop_last() =~= seq![(k1, d1)]);
    assert(seq![(k1, d1)].drop_last() =~= Seq::<(KeyView, nat)>::empty());
    assert(aggregate(Seq::<(KeyView, nat)>::empty()) =~= Map::empty());
    lemma_aggregate_push(Seq::<(KeyView, nat)>::empty(), (k1, d1));
    assert(Seq::<(KeyView, nat)>::empty().push((k1, d1)) =~= seq![(k1, d1)]);
    lemma_aggregate_push(seq![(k1, d1)], (k2, d2));
    assert(seq![(k1, d1)].push((k2, d2)) =~= s);
    assert(total_for(Seq::<(KeyView, nat)>::empty(), k2) == 0);
    assert(seq![(k1, d1)].last() == (k1, d1));
    assert(total_for(seq![(k1, d1)], k2) == if k1 == k2 {
        d1
    } else {
        0
    });
    if k1 == k2 {
        assert(aggregate(s) =~= map![k1 => d1 + d2]);
    } else {
        assert(aggregate(s) =~= map![k1 => d1, k2 => d2]);
    }
}

/// Time without a project is shown under the placeholder label, sorts
/// before every named project, and is summed apart from each of them, even
/// from one named like the label.
pub proof fn law_empty_project_kept_apart(
    user: Seq<char>,
    name: Seq<char>,
    day: int,
    d1: nat,
    d2: nat,
)
    ensures
        project_label(None) == NONE_PROJECT_LABEL@,
        project_less(None, Some(name)),
        aggregate(seq![((user, None, day), d1), ((user, Some(name), day), d2)]) == map![
            (user, None, day) => d1,
            (user, Some(name), day) => d2,
        ],
{
    law_aggregate_two_records((user, None, day), d1, (user, Some(name), day), d2);
}

/// The users that occur in the keys of `m`.
pub open spec fn users_in(m: Map<KeyView, nat>) -> Set<Seq<char>> {
    m.dom().map(|k: KeyView| k.0)
}

/// The projects that occur in the keys of `m`.
pub open spec fn projects_in(m: Map<KeyView, nat>) -> Set<Option<Seq<char>>> {
    m.dom().map(|k: KeyView| k.1)
}

pub open spec fn user_views(users: Seq<User>) -> Seq<Seq<char>> {
    users.map_values(|u: User| u@)
}

pub open spec fn project_views(projects: Seq<Project>) -> Seq<Option<Seq<char>>> {
    projects.map_values(|p: Project| p@)
}

/// Adds `user` to the ascending `users` unless it is there already.
fn insert_user_sorted(users: &mut Vec<User>, user: &User)
    requires
        sorted_by(user_views(old(users)@), name_order()),
    ensures
        sorted_by(user_views(final(users)@), name_order()),
        user_views(final(users)@).to_set() == user_views(old(users)@).to_set().insert(user@),
{
    proof {
        lemma_name_order();
    }
    let ghost uv = user_views(users@);
    let mut j: usize = 0;
    while j < users.len() && users[j].less_than(user)
        invariant
            j <= users@.len(),
            uv == user_views(users@),
            forall|k: int| 0 <= k < j ==> chars_less(#[trigger] uv[k], user@),
        decreases users@.len() - j,
    {
        j = j + 1;
    }
    if j < users.len() && users[j].value == user.value {
        assert(uv.to_set() =~= uv.to_set().insert(user@)) by {
            assert(uv[j as int] == user@);
        }
        return;
    }
    proof {
        if j < uv.len() {
            assert(!name_order()(uv[j as int], user@));
            assert(name_order()(uv[j as int], user@) || name_order()(user@, uv[j as int]));
        }
        assert forall|k: int| 0 <= k < j implies name_order()(#[trigger] uv[k], user@) by {
            assert(chars_less(uv[k], user@));
        }
        lemma_insert_sorted(uv, j as int, user@, name_order());
    }
    users.insert(j, User { value: user.value.clone() });
    proof {
        assert(user_views(users@) =~= uv.insert(j as int, user@));
        assert(uv.insert(j as int, user@).to_set() =~= uv.to_set().insert(user@)) by {
            let t = uv.insert(j as int, user@);
            assert forall|x: Seq<char>| t.contains(x) implies uv.contains(x) || x == user@ by {
                let k = choose|k: int| 0 <= k < t.len() && t[k] == x;
                if k < j {
                    assert(uv[k] == x);
                } else if k > j {
                    assert(uv[k - 1] == x);
                }
            }
            assert forall|x: Seq<char>| uv.contains(x) implies t.contains(x) by {
                let k = choose|k: int| 0 <= k < uv.len() && uv[k] == x;
                if k < j {
                    assert(t[k] == x);
                } else {
                    assert(t[k + 1] == x);
                }
            }
            assert(t[j as int] == user@);
        }
    }
}

/// Adds `project` to the ascending `projects` unless it is there already.
fn insert_project_sorted(projects: &mut Vec<Project>, project: &Project)
    requires
        sorted_by(project_views(old(projects)@), project_order()),
    ensures
        sorted_by(project_views(final(projects)@), project_order()),
        project_views(final(projects)@).to_set() == project_views(old(projects)@).to_set().insert(
            project@,
        ),
{
    proof {
        lemma_project_order();
    }
    let ghost pv = project_views(projects@);
    let mut j: usize = 0;
    while j < projects.len() && projects[j].less_than(project)
        invariant
            j <= projects@.len(),
            pv == project_views(projects@),
            forall|k: int| 0 <= k < j ==> project_less(#[trigger] pv[k], project@),
        decreases projects@.len() - j,
    {
        j = j + 1;
    }
    if j < projects.len() && projects[j].same_as(project) {
        assert(pv.to_set() =~= pv.to_set().insert(project@)) by {
            assert(pv[j as int] == project@);
        }
        return;
    }
    proof {
        if j < pv.len() {
            assert(!project_order()(pv[j as int], project@));
            assert(project_order()(pv[j as int], project@) || project_order()(
                project@,
                pv[j as int],
            ));
        }
        assert forall|k: int| 0 <= k < j implies project_order()(#[trigger] pv[k], project@) by {
            assert(project_less(pv[k], project@));
        }
        lemma_insert_sorted(pv, j as int, project@, project_order());
    }
    projects.insert(j, project.duplicate());
    proof {
        assert(project_views(projects@) =~= pv.insert(j as int, project@));
        assert(pv.insert(j as int, project@).to_set() =~= pv.to_set().insert(project@)) by {
            let t = pv.insert(j as int, project@);
            assert forall|x: Option<Seq<char>>| t.contains(x) implies pv.contains(x) || x
                == project@ by {
                let k = choose|k: int| 0 <= k < t.len() && t[k] == x;
                if k < j {
                    assert(pv[k] == x);
                } else if k > j {
                    assert(pv[k - 1] == x);
                }
            }
            assert forall|x: Option<Seq<char>>| pv.contains(x) implies t.contains(x) by {
                let k = choose|k: int| 0 <= k < pv.len() && pv[k] == x;
                if k < j {
                    assert(t[k] == x);
                } else {
                    assert(t[k + 1] == x);
                }
            }
            assert(t[j as int] == project@);
        }
    }
}

/// The index of the entry with key `key`, or the length where there is none.
fn find_key(entries: &Vec<(RecordKey, Duration)>, key: &RecordKey) -> (r: usize)
    ensures
        r <= entries@.len(),
        r < entries@.len() ==> entries@[r as int].0@ == key@,
        r == entries@.len() ==> forall|i: int|
            0 <= i < entries@.len() ==> (#[trigger] entries@[i]).0@ != key@,
{
    let mut j: usize = 0;
    while j < entries.len()
        invariant
            j <= entries@.len(),
            forall|i: int| 0 <= i < j ==> (#[trigger] entries@[i]).0@ != key@,
        decreases entries@.len() - j,
    {
        if entries[j].0.same_as(key) {
            return j;
        }
        j = j + 1;
    }
    j
}

/// Summed durations, one entry per key.
pub struct DurationTable {
    entries: Vec<(RecordKey, Duration)>,
}

/// Entries seen as (key, milliseconds) pairs.
pub open spec fn entry_views(entries: Seq<(RecordKey, Duration)>) -> Seq<(KeyView, nat)> {
    entries.map_values(|e: (RecordKey, Duration)| (e.0@, e.1@))
}

impl View for DurationTable {
    type V = Map<KeyView, nat>;

    closed spec fn view(&self) -> Map<KeyView, nat> {
        pairs_map(entry_views(self.entries@))
    }
}

impl DurationTable {
    #[verifier::type_invariant]
    spec fn keys_unique(self) -> bool {
        keys_distinct(entry_views(self.entries@))
    }

    /// The summed duration for `key`, if it occurs.
    pub fn get(&self, key: &RecordKey) -> (r: Option<Duration>)
        ensures
            r is Some <==> self@.contains_key(key@),
            r is Some ==> r->0@ == self@[key@],
    {
        proof {
            use_type_invariant(self);
            lemma_pairs_map_dom(entry_views(self.entries@));
        }
        let j = find_key(&self.entries, key);
        if j < self.entries.len() {
            proof {
                lemma_pairs_map_value(entry_views(self.entries@), j as int);
            }
            Some(self.entries[j].1)
        } else {
            proof {
                assert forall|i: int| 0 <= i < entry_views(self.entries@).len() implies #[trigger] entry_views(
                    self.entries@,
                )[i].0 != key@ by {
                    assert(self.entries@[i].0@ != key@);
                }
            }
            None
        }
    }

    /// Sums the durations of `records` per key; `None` where the sum for
    /// some key does not fit in a `u64`.
    pub fn try_from_records(records: &Vec<(RecordKey, Duration)>) -> (r: Option<DurationTable>)
        ensures
            r is Some <==> totals_fit(record_views(records@)),
            r is Some ==> r->0@ == aggregate(record_views(records@)),
    {
        let ghost rv = record_views(records@);
        let mut entries: Vec<(RecordKey, Duration)> = Vec::new();
        let mut i: usize = 0;
        assert(rv.take(0) =~= Seq::<(KeyView, nat)>::empty());
        assert(aggregate(rv.take(0)) =~= pairs_map(entry_views(entries@)));
        while i < records.len()
            invariant
                i <= records@.len(),
                rv == record_views(records@),
                keys_distinct(entry_views(entries@)),
                pairs_map(entry_views(entries@)) == aggregate(rv.take(i as int)),
            decreases records@.len() - i,
        {
            let key = &records[i].0;
            let d = records[i].1;
            let ghost s = rv.take(i as int);
            let ghost ev = entry_views(entries@);
            proof {
                assert(rv.take(i + 1) =~= s.push((key@, d@)));
                lemma_aggregate_push(s, (key@, d@));
                lemma_pairs_map_dom(ev);
            }
            let j = find_key(&entries, key);
            if j < entries.len() {
                let cur = entries[j].1.value;
                proof {
                    lemma_pairs_map_value(ev, j as int);
                    assert(ev[j as int].0 == key@);
                    assert(cur == total_for(s, key@));
                }
                match cur.checked_add(d.value) {
                    None => {
                        proof {
                            assert(rv.take(i + 1).drop_last() =~= s);
                            assert(total_for(rv.take(i + 1), key@) == cur + d.value);
                            lemma_total_prefix(rv, i + 1, key@);
                            assert(total_for(rv, key@) > u64::MAX);
                        }
                        return None;
                    },
                    Some(v) => {
                        entries.set(j, (entries[j].0.duplicate(), Duration { value: v }));
                        proof {
                            assert(entry_views(entries@) =~= ev.update(
                                j as int,
                                (ev[j as int].0, v as nat),
                            ));
                            lemma_pairs_map_update(ev, j as int, v as nat);
                        }
                    },
                }
            } else {
                proof {
                    assert(!aggregate(s).contains_key(key@)) by {
                        if pairs_map(ev).contains_key(key@) {
                            let k = choose|k: int| 0 <= k < ev.len() && ev[k].0 == key@;
                            assert(entries@[k].0@ == key@);
                        }
                    }
                    lemma_total_absent(s, key@);
                }
                entries.push((key.duplicate(), d));
                proof {
                    let ev2 = entry_views(entries@);
                    assert(ev2.drop_last() =~= ev);
                    assert(keys_distinct(ev2)) by {
                        assert forall|a: int, b: int| #![trigger ev2[a], ev2[b]] 0 <= a < b < ev2.len()
                            implies ev2[a].0 != ev2[b].0 by {
                            if b == ev2.len() - 1 {
                                assert(entries@[a].0@ != key@);
                            } else {
                                assert(ev2[a] == ev[a] && ev2[b] == ev[b]);
                            }
                        }
                    }
                }
            }
            i = i + 1;
        }
        proof {
            assert(rv.take(i as int) =~= rv);
            let ev = entry_views(entries@);
            lemma_pairs_map_dom(ev);
            assert forall|k: KeyView| #[trigger] total_for(rv, k) <= u64::MAX by {
                if has_key(rv, k) {
                    assert(aggregate(rv).contains_key(k));
                    let j = choose|j: int| 0 <= j < ev.len() && ev[j].0 == k;
                    lemma_pairs_map_value(ev, j);
                    assert(ev[j].1 == entries@[j].1.value);
                } else {
                    lemma_total_absent(rv, k);
                }
            }
        }
        Some(DurationTable { entries })
    }

    /// The users that occur in the keys, ascending, each once.
    pub fn users(&self) -> (r: Vec<User>)
        ensures
            sorted_by(user_views(r@), name_order()),
            user_views(r@).to_set() == users_in(self@),
    {
        let ghost ev = entry_views(self.entries@);
        let mut out: Vec<User> = Vec::new();
        let mut i: usize = 0;
        assert(user_views(out@).to_set() =~= Set::empty());
        while i < self.entries.len()
            invariant
                i <= self.entries@.len(),
                ev == entry_views(self.entries@),
                sorted_by(user_views(out@), name_order()),
                forall|x: Seq<char>|
                    #[trigger] user_views(out@).to_set().contains(x) <==> exists|j: int|
                        0 <= j < i && ev[j].0.0 == x,
            decreases self.entries@.len() - i,
        {
            let ghost before = user_views(out@).to_set();
            insert_user_sorted(&mut out, &self.entries[i].0.user);
            proof {
                assert forall|x: Seq<char>| #[trigger] user_views(out@).to_set().contains(x) <==> exists|j: int|
                    0 <= j < i + 1 && ev[j].0.0 == x by {
                    if x == ev[i as int].0.0 {
                        assert(ev[i as int].0.0 == x);
                    }
                    if exists|j: int| 0 <= j < i + 1 && ev[j].0.0 == x {
                        let j = choose|j: int| 0 <= j < i + 1 && ev[j].0.0 == x;
                        if j < i {
                            assert(before.contains(x));
                        }
                    }
                }
            }
            i = i + 1;
        }
        proof {
            lemma_pairs_map_dom(ev);
            assert(user_views(out@).to_set() =~= users_in(self@)) by {
                assert forall|x: Seq<char>| users_in(self@).contains(x) implies user_views(
                    out@,
                ).to_set().contains(x) by {
                    let k = choose|k: KeyView| self@.contains_key(k) && k.0 == x;
                    let j = choose|j: int| 0 <= j < ev.len() && ev[j].0 == k;
                    assert(ev[j].0.0 == x);
                }
                assert forall|x: Seq<char>| user_views(out@).to_set().contains(x) implies users_in(
                    self@,
                ).contains(x) by {
                    let j = choose|j: int| 0 <= j < i && ev[j].0.0 == x;
                    assert(self@.contains_key(ev[j].0));
                }
            }
        }
        out
    }

    /// The projects that occur in the keys, ascending, each once.
    pub fn projects(&self) -> (r: Vec<Project>)
        ensures
            sorted_by(project_views(r@), project_order()),
            project_views(r@).to_set() == projects_in(self@),
    {
        let ghost ev = entry_views(self.entries@);
        let mut out: Vec<Project> = Vec::new();
        let mut i: usize = 0;
        assert(project_views(out@).to_set() =~= Set::empty());
        while i < self.entries.len()
            invariant
                i <= self.entries@.len(),
                ev == entry_views(self.entries@),
                sorted_by(project_views(out@), project_order()),
                forall|x: Option<Seq<char>>|
                    #[trigger] project_views(out@).to_set().contains(x) <==> exists|j: int|
                        0 <= j < i && ev[j].0.1 == x,
            decreases self.entries@.len() - i,
        {
            let ghost before = project_views(out@).to_set();
            insert_project_sorted(&mut out, &self.entries[i].0.project);
            proof {
                assert forall|x: Option<Seq<char>>| #[trigger] project_views(out@).to_set().contains(x)
                    <==> exists|j: int| 0 <= j < i + 1 && ev[j].0.1 == x by {
                    if x == ev[i as int].0.1 {
                        assert(ev[i as int].0.1 == x);
                    }
                    if exists|j: int| 0 <= j < i + 1 && ev[j].0.1 == x {
                        let j = choose|j: int| 0 <= j < i + 1 && ev[j].0.1 == x;
                        if j < i {
                            assert(before.contains(x));
                        }
                    }
                }
            }
            i = i + 1;
        }
        proof {
            lemma_pairs_map_dom(ev);
            assert(project_views(out@).to_set() =~= projects_in(self@)) by {
                assert forall|x: Option<Seq<char>>| projects_in(self@).contains(x) implies project_views(
                    out@,
                ).to_set().contains(x) by {
                    let k = choose|k: KeyView| self@.contains_key(k) && k.1 == x;
                    let j = choose|j: int| 0 <= j < ev.len() && ev[j].0 == k;
                    assert(ev[j].0.1 == x);
                }
                assert forall|x: Option<Seq<char>>| project_views(out@).to_set().contains(
                    x,
                ) implies projects_in(self@).contains(x) by {
                    let j = choose|j: int| 0 <= j < i && ev[j].0.1 == x;
                    assert(self@.contains_key(ev[j].0));
                }
            }
        }
        out
    }

    /// The number of keys.
    pub fn len(&self) -> (r: usize)
        ensures
            r == self@.len(),
    {
        proof {
            use_type_invariant(self);
            lemma_pairs_map_len(entry_views(self.entries@));
        }
        self.entries.len()
    }
}

} // verus!
