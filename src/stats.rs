use vstd::prelude::*;

use crate::calendar::timestamp_in_range;
use crate::commit::{
    changes_view, component_facts, counted_files, deltas_view, fact_names, lemma_all_added,
    lemma_component_facts_unique, outcome_of, process_commit, texts_view, ChangeKind,
    CommitOutcome, CommitRecord, DeltaView, FileDelta, OutcomeView,
};
use crate::commit_changes::{ChangesView, CommitChanges};
use crate::tally::{
    assoc_map, bump, bump_count, count_or_zero, counts_view, find_key, keys_of, keys_unique,
    lemma_assoc_map_absent, lemma_assoc_map_index, lemma_assoc_map_update, lemma_keys_unique_push,
};

verus! {

/// Abstract value of [`Stats`]: the counters as unbounded numbers and the keyed
/// counters as maps.
pub struct StatsView {
    pub num_commits_to_master: nat,
    pub num_prs: nat,
    pub missing_prs: nat,
    /// Changed paths that count, over all commits.
    pub num_file_changes: nat,
    /// Component to the number of commits that touch it.
    pub component_stats: Map<Seq<char>, nat>,
    /// Counted language to the number of commits that touch it.
    pub lang_stats: Map<Seq<char>, nat>,
    /// Year to twelve commit counts, January first.
    pub commits_by_month: Map<int, Seq<nat>>,
    /// Seven commit counts, Monday first.
    pub commits_by_day_of_week: Seq<nat>,
    /// Component to the kinds of the first changes under it, summed over commits.
    pub changes_by_component: Map<Seq<char>, ChangesView>,
}

/// The counts with one added to that of each key in `keys`.
pub open spec fn tally_keys(m: Map<Seq<char>, nat>, keys: Set<Seq<char>>) -> Map<Seq<char>, nat> {
    Map::new(
        |k: Seq<char>| m.contains_key(k) || keys.contains(k),
        |k: Seq<char>| count_or_zero(m, k) + if keys.contains(k) { 1nat } else { 0nat },
    )
}

/// Twelve zero counts.
pub open spec fn zero_months() -> Seq<nat> {
    Seq::new(12, |i: int| 0nat)
}

/// The month counts of `year`, all zero when the year is absent.
pub open spec fn months_or_zero(m: Map<int, Seq<nat>>, year: int) -> Seq<nat> {
    if m.contains_key(year) {
        m[year]
    } else {
        zero_months()
    }
}

/// The counts with one added at position `i`, when there is such a position.
pub open spec fn bump_at(s: Seq<nat>, i: int) -> Seq<nat> {
    if 0 <= i < s.len() {
        s.update(i, s[i] + 1)
    } else {
        s
    }
}

/// The month counts with one added to month `month` (1 to 12) of `year`.
pub open spec fn tally_month(m: Map<int, Seq<nat>>, year: int, month: int) -> Map<int, Seq<nat>> {
    m.insert(year, bump_at(months_or_zero(m, year), month - 1))
}

/// What a first change of the given kind adds to its component's counts.
pub open spec fn change_unit(kind: ChangeKind) -> ChangesView {
    match kind {
        ChangeKind::Added => ChangesView { files_added: 1, files_deleted: 0, files_modified: 0 },
        ChangeKind::Deleted => ChangesView { files_added: 0, files_deleted: 1, files_modified: 0 },
        ChangeKind::Modified => ChangesView { files_added: 0, files_deleted: 0, files_modified: 1 },
        ChangeKind::Other => ChangesView::zero(),
    }
}

/// The change counts of `k`, all zero when `k` is absent.
pub open spec fn changes_or_zero(m: Map<Seq<char>, ChangesView>, k: Seq<char>) -> ChangesView {
    if m.contains_key(k) {
        m[k]
    } else {
        ChangesView::zero()
    }
}

/// The change counts with each component of `facts` merged with the unit of its kind.
pub open spec fn tally_changes(
    m: Map<Seq<char>, ChangesView>,
    facts: Map<Seq<char>, ChangeKind>,
) -> Map<Seq<char>, ChangesView> {
    Map::new(
        |k: Seq<char>| m.contains_key(k) || facts.contains_key(k),
        |k: Seq<char>|
            changes_or_zero(m, k).merge(
                if facts.contains_key(k) {
                    change_unit(facts[k])
                } else {
                    ChangesView::zero()
                },
            ),
    )
}

impl StatsView {
    /// Every commit counts as a pull request or as a missing one, the calendar buckets
    /// have twelve months and seven days, and no count exceeds the number of commits.
    pub open spec fn wf(self) -> bool {
        let n = self.num_commits_to_master;
        &&& n == self.num_prs + self.missing_prs
        &&& forall|k: Seq<char>|
            #[trigger] self.component_stats.contains_key(k) ==> self.component_stats[k] <= n
        &&& forall|k: Seq<char>| #[trigger] self.lang_stats.contains_key(k) ==> self.lang_stats[k] <= n
        &&& forall|y: int| #[trigger]
            self.commits_by_month.contains_key(y) ==> {
                &&& self.commits_by_month[y].len() == 12
                &&& forall|i: int| 0 <= i < 12 ==> #[trigger] self.commits_by_month[y][i] <= n
            }
        &&& self.commits_by_day_of_week.len() == 7
        &&& forall|i: int| 0 <= i < 7 ==> #[trigger] self.commits_by_day_of_week[i] <= n
        &&& forall|k: Seq<char>| #[trigger]
            self.changes_by_component.contains_key(k) ==> {
                &&& self.changes_by_component[k].files_added <= n
                &&& self.changes_by_component[k].files_deleted <= n
                &&& self.changes_by_component[k].files_modified <= n
            }
    }

    /// The statistics of no commits.
    pub open spec fn empty() -> StatsView {
        StatsView {
            num_commits_to_master: 0,
            num_prs: 0,
            missing_prs: 0,
            num_file_changes: 0,
            component_stats: Map::empty(),
            lang_stats: Map::empty(),
            commits_by_month: Map::empty(),
            commits_by_day_of_week: Seq::new(7, |i: int| 0nat),
            changes_by_component: Map::empty(),
        }
    }

    /// The statistics with one more commit's outcome folded in.
    pub open spec fn record(self, o: OutcomeView) -> StatsView {
        StatsView {
            num_commits_to_master: self.num_commits_to_master + 1,
            num_prs: self.num_prs + if o.is_pr { 1nat } else { 0nat },
            missing_prs: self.missing_prs + if o.is_pr { 0nat } else { 1nat },
            num_file_changes: self.num_file_changes + o.file_changes,
            component_stats: tally_keys(self.component_stats, fact_names(o.components).to_set()),
            lang_stats: tally_keys(self.lang_stats, o.languages.to_set()),
            commits_by_month: tally_month(
                self.commits_by_month,
                o.date.year as int,
                o.date.month as int,
            ),
            commits_by_day_of_week: bump_at(self.commits_by_day_of_week, o.date.weekday as int),
            changes_by_component: tally_changes(self.changes_by_component, assoc_map(o.components)),
        }
    }
}

/// The statistics of a sequence of commit outcomes, folded in order.
pub open spec fn stats_of(outcomes: Seq<OutcomeView>) -> StatsView
    decreases outcomes.len(),
{
    if outcomes.len() == 0 {
        StatsView::empty()
    } else {
        stats_of(outcomes.drop_last()).record(outcomes.last())
    }
}

proof fn lemma_bump_at_commutes(s: Seq<nat>, i: int, j: int)
    ensures
        bump_at(bump_at(s, i), j) == bump_at(bump_at(s, j), i),
{
    assert(bump_at(bump_at(s, i), j) =~= bump_at(bump_at(s, j), i));
}

/// Folding two outcomes in either order gives the same statistics.
pub proof fn lemma_record_commutes(s: StatsView, a: OutcomeView, b: OutcomeView)
    ensures
        s.record(a).record(b) == s.record(b).record(a),
{
    let ab = s.record(a).record(b);
    let ba = s.record(b).record(a);
    assert(ab.component_stats =~= ba.component_stats);
    assert(ab.lang_stats =~= ba.lang_stats);
    assert(ab.changes_by_component =~= ba.changes_by_component);
    lemma_bump_at_commutes(s.commits_by_day_of_week, a.date.weekday as int, b.date.weekday as int);
    let (ya, ma) = (a.date.year as int, a.date.month as int);
    let (yb, mb) = (b.date.year as int, b.date.month as int);
    if ya == yb {
        lemma_bump_at_commutes(months_or_zero(s.commits_by_month, ya), ma - 1, mb - 1);
    }
    assert(ab.commits_by_month =~= ba.commits_by_month);
}

/// Taking one outcome out and folding it in last gives the same statistics.
proof fn lemma_stats_of_remove(s: Seq<OutcomeView>, j: int)
    requires
        0 <= j < s.len(),
    ensures
        stats_of(s) == stats_of(s.remove(j)).record(s[j]),
    decreases s.len(),
{
    if j == s.len() - 1 {
        assert(s.remove(j) =~= s.drop_last());
    } else {
        let d = s.drop_last();
        lemma_stats_of_remove(d, j);
        lemma_record_commutes(stats_of(d.remove(j)), s[j], s.last());
        assert(s.remove(j).drop_last() =~= d.remove(j));
        assert(s.remove(j).last() == s.last());
    }
}

/// Folding the same outcomes in any order gives the same statistics: the fold does not
/// depend on the order in which commits are visited.
pub proof fn lemma_stats_order_independent(a: Seq<OutcomeView>, b: Seq<OutcomeView>)
    requires
        a.to_multiset() == b.to_multiset(),
    ensures
        stats_of(a) == stats_of(b),
    decreases a.len(),
{
    broadcast use vstd::seq_lib::group_to_multiset_ensures;

    if a.len() == 0 {
        assert(b.len() == b.to_multiset().len());
        assert(a.len() == a.to_multiset().len());
        assert(b =~= a);
    } else {
        let x = a.last();
        assert(a.drop_last().push(x) =~= a);
        assert(a.contains(x));
        assert(a.to_multiset().count(x) > 0);
        assert(b.to_multiset().count(x) > 0);
        assert(b.contains(x));
        let j = choose|j: int| 0 <= j < b.len() && b[j] == x;
        lemma_stats_of_remove(b, j);
        assert(a.drop_last().to_multiset() =~= b.remove(j).to_multiset());
        lemma_stats_order_independent(a.drop_last(), b.remove(j));
    }
}

/// Every commit counts either as a pull request or as a missing one.
pub proof fn lemma_commits_split_by_pr(outcomes: Seq<OutcomeView>)
    ensures
        stats_of(outcomes).num_commits_to_master == stats_of(outcomes).num_prs + stats_of(
            outcomes,
        ).missing_prs,
    decreases outcomes.len(),
{
    if outcomes.len() > 0 {
        lemma_commits_split_by_pr(outcomes.drop_last());
    }
}

/// A commit adds exactly one to the count of each component it touches, however many
/// of its files lie under that component, and leaves the other components alone.
pub proof fn lemma_component_counted_once(
    s: StatsView,
    commit: CommitRecord,
    ds: Seq<DeltaView>,
    c: Seq<char>,
)
    ensures
        count_or_zero(s.record(outcome_of(commit, ds)).component_stats, c) == count_or_zero(
            s.component_stats,
            c,
        ) + if fact_names(component_facts(ds)).contains(c) {
            1nat
        } else {
            0nat
        },
{
}

/// When every delta of a commit is an addition, as for a merge or root commit diffed
/// against the empty tree, each component it touches gains one added file and no
/// modified or deleted one.
pub proof fn lemma_empty_baseline_counts_added(
    s: StatsView,
    commit: CommitRecord,
    ds: Seq<DeltaView>,
    c: Seq<char>,
)
    requires
        forall|i: int| 0 <= i < ds.len() ==> (#[trigger] ds[i]).kind == ChangeKind::Added,
        fact_names(component_facts(ds)).contains(c),
    ensures
        changes_or_zero(s.record(outcome_of(commit, ds)).changes_by_component, c) == changes_or_zero(
            s.changes_by_component,
            c,
        ).merge(change_unit(ChangeKind::Added)),
{
    let facts = component_facts(ds);
    lemma_all_added(ds);
    crate::tally::lemma_assoc_map_dom(facts);
    assert(keys_of(facts) =~= fact_names(facts));
    let j = choose|j: int| 0 <= j < facts.len() && fact_names(facts)[j] == c;
    assert(facts[j].0 == c);
    lemma_component_facts_unique(ds);
    assert(keys_of(facts) == fact_names(facts));
    lemma_assoc_map_index(facts, j);
}

/// Number of counted files over a sequence of outcomes.
pub open spec fn total_file_changes(outcomes: Seq<OutcomeView>) -> nat
    decreases outcomes.len(),
{
    if outcomes.len() == 0 {
        0
    } else {
        total_file_changes(outcomes.drop_last()) + outcomes.last().file_changes
    }
}

/// The statistics count each outcome as a commit, and sum their counted files.
pub proof fn lemma_stats_totals(outcomes: Seq<OutcomeView>)
    ensures
        stats_of(outcomes).num_commits_to_master == outcomes.len(),
        stats_of(outcomes).num_file_changes == total_file_changes(outcomes),
    decreases outcomes.len(),
{
    if outcomes.len() > 0 {
        lemma_stats_totals(outcomes.drop_last());
    }
}

/// The statistics of well-formed outcomes are well formed.
pub proof fn lemma_stats_wf(outcomes: Seq<OutcomeView>)
    requires
        forall|i: int| 0 <= i < outcomes.len() ==> (#[trigger] outcomes[i]).wf(),
    ensures
        stats_of(outcomes).wf(),
    decreases outcomes.len(),
{
    if outcomes.len() == 0 {
        assert(stats_of(outcomes).wf());
    } else {
        let d = outcomes.drop_last();
        assert forall|i: int| 0 <= i < d.len() implies (#[trigger] d[i]).wf() by {
            assert(d[i] == outcomes[i]);
        }
        lemma_stats_wf(d);
        let o = outcomes.last();
        assert(o.wf());
        assert(stats_of(outcomes) == stats_of(d).record(o));
    }
}

/// The counted files of a prefix do not exceed those of the whole.
proof fn lemma_total_prefix(outcomes: Seq<OutcomeView>, k: int)
    requires
        0 <= k <= outcomes.len(),
    ensures
        total_file_changes(outcomes.take(k)) <= total_file_changes(outcomes),
    decreases outcomes.len(),
{
    if k < outcomes.len() {
        assert(outcomes.drop_last().take(k) =~= outcomes.take(k));
        lemma_total_prefix(outcomes.drop_last(), k);
    } else {
        assert(outcomes.take(k) =~= outcomes);
    }
}

/// Counting one more key that was not counted yet.
proof fn lemma_tally_keys_insert(m: Map<Seq<char>, nat>, keys: Set<Seq<char>>, k: Seq<char>)
    requires
        !keys.contains(k),
    ensures
        count_or_zero(tally_keys(m, keys), k) == count_or_zero(m, k),
        bump(tally_keys(m, keys), k) == tally_keys(m, keys.insert(k)),
{
    assert(bump(tally_keys(m, keys), k) =~= tally_keys(m, keys.insert(k)));
}

/// Merging the changes of one more component that was not merged yet.
proof fn lemma_tally_changes_insert(
    m: Map<Seq<char>, ChangesView>,
    facts: Map<Seq<char>, ChangeKind>,
    k: Seq<char>,
    kind: ChangeKind,
)
    requires
        !facts.contains_key(k),
    ensures
        changes_or_zero(tally_changes(m, facts), k) == changes_or_zero(m, k),
        tally_changes(m, facts).insert(
            k,
            changes_or_zero(tally_changes(m, facts), k).merge(change_unit(kind)),
        ) == tally_changes(m, facts.insert(k, kind)),
{
    assert(changes_or_zero(m, k).merge(ChangesView::zero()) == changes_or_zero(m, k));
    assert(tally_changes(m, facts).insert(
        k,
        changes_or_zero(tally_changes(m, facts), k).merge(change_unit(kind)),
    ) =~= tally_changes(m, facts.insert(k, kind)));
}

/// The views of a list of outcomes.
pub open spec fn outcomes_view(os: Seq<CommitOutcome>) -> Seq<OutcomeView> {
    os.map_values(|o: CommitOutcome| o@)
}

/// A commit together with the deltas of its diff against its baseline.
#[derive(Debug, Clone)]
pub struct CommitDiff {
    pub commit: CommitRecord,
    pub deltas: Vec<FileDelta>,
}

/// The outcome of each commit of a history, in order.
pub open spec fn history_outcomes(history: Seq<CommitDiff>) -> Seq<OutcomeView> {
    history.map_values(|c: CommitDiff| outcome_of(c.commit, deltas_view(c.deltas@)))
}

/// Number of counted files over the diffs of a history.
pub open spec fn history_file_changes(history: Seq<CommitDiff>) -> nat
    decreases history.len(),
{
    if history.len() == 0 {
        0
    } else {
        history_file_changes(history.drop_last()) + counted_files(
            deltas_view(history.last().deltas@),
        )
    }
}

proof fn lemma_history_file_changes(history: Seq<CommitDiff>)
    ensures
        total_file_changes(history_outcomes(history)) == history_file_changes(history),
    decreases history.len(),
{
    if history.len() > 0 {
        assert(history_outcomes(history).drop_last() =~= history_outcomes(history.drop_last()));
        lemma_history_file_changes(history.drop_last());
    }
}

/// The statistics of a history do not depend on the order in which its commits are
/// visited: two walks over the same commits give the same statistics.
pub proof fn lemma_history_order_independent(a: Seq<CommitDiff>, b: Seq<CommitDiff>)
    requires
        a.to_multiset() == b.to_multiset(),
    ensures
        stats_of(history_outcomes(a)) == stats_of(history_outcomes(b)),
    decreases a.len(),
{
    broadcast use vstd::seq_lib::group_to_multiset_ensures;

    if a.len() == 0 {
        assert(b.len() == b.to_multiset().len());
        assert(a.len() == a.to_multiset().len());
        assert(history_outcomes(b) =~= history_outcomes(a));
    } else {
        let x = a.last();
        assert(a.drop_last().push(x) =~= a);
        assert(a.contains(x));
        assert(a.to_multiset().count(x) > 0);
        assert(b.to_multiset().count(x) > 0);
        assert(b.contains(x));
        let j = choose|j: int| 0 <= j < b.len() && b[j] == x;
        lemma_stats_of_remove(history_outcomes(b), j);
        assert(history_outcomes(b).remove(j) =~= history_outcomes(b.remove(j)));
        assert(history_outcomes(a).drop_last() =~= history_outcomes(a.drop_last()));
        assert(a.drop_last().to_multiset() =~= b.remove(j).to_multiset());
        lemma_history_order_independent(a.drop_last(), b.remove(j));
    }
}

/// Commit counts as unbounded numbers.
pub open spec fn nat_counts(s: Seq<u32>) -> Seq<nat> {
    s.map_values(|c: u32| c as nat)
}

/// The view of a list of years with their month counts.
pub open spec fn months_view(s: Seq<(i32, Vec<u32>)>) -> Seq<(int, Seq<nat>)> {
    s.map_values(|e: (i32, Vec<u32>)| (e.0 as int, nat_counts(e.1@)))
}

/// The view of a list of components with their change counts.
pub open spec fn changes_entries(s: Seq<(String, CommitChanges)>) -> Seq<(Seq<char>, ChangesView)> {
    s.map_values(|e: (String, CommitChanges)| (e.0@, e.1@))
}

/// The counts of a first change of the given kind.
fn unit_of(kind: ChangeKind) -> (r: CommitChanges)
    ensures
        r@ == change_unit(kind),
{
    match kind {
        ChangeKind::Added => CommitChanges::new(1, 0, 0),
        ChangeKind::Deleted => CommitChanges::new(0, 1, 0),
        ChangeKind::Modified => CommitChanges::new(0, 0, 1),
        ChangeKind::Other => CommitChanges::new(0, 0, 0),
    }
}

/// Merges the unit of `kind` into the change counts of `key`, adding the key when it
/// is missing.
fn bump_changes(list: &mut Vec<(String, CommitChanges)>, key: &String, kind: ChangeKind)
    requires
        keys_unique(changes_entries(old(list)@)),
        changes_or_zero(assoc_map(changes_entries(old(list)@)), key@).files_added < u32::MAX,
        changes_or_zero(assoc_map(changes_entries(old(list)@)), key@).files_deleted < u32::MAX,
        changes_or_zero(assoc_map(changes_entries(old(list)@)), key@).files_modified < u32::MAX,
    ensures
        keys_unique(changes_entries(final(list)@)),
        assoc_map(changes_entries(final(list)@)) == assoc_map(changes_entries(old(list)@)).insert(
            key@,
            changes_or_zero(assoc_map(changes_entries(old(list)@)), key@).merge(change_unit(kind)),
        ),
{
    let ghost s = changes_entries(list@);
    let unit = unit_of(kind);
    match find_key(list, key) {
        Some(i) => {
            proof {
                lemma_assoc_map_index(s, i as int);
            }
            let c = list[i].1;
            let merged = c.add(unit);
            proof {
                lemma_assoc_map_update(s, i as int, merged@);
            }
            list.set(i, (key.clone(), merged));
            assert(changes_entries(list@) =~= s.update(i as int, (s[i as int].0, merged@)));
        },
        None => {
            proof {
                lemma_assoc_map_absent(s, key@);
                lemma_keys_unique_push(s, (key@, unit@));
            }
            list.push((key.clone(), unit));
            assert(changes_entries(list@) =~= s.push((key@, unit@)));
            assert(s.push((key@, unit@)).drop_last() =~= s);
            assert(ChangesView::zero().merge(unit@) == unit@);
        },
    }
}

/// The position of the entry for `year`, if any.
fn find_year(list: &Vec<(i32, Vec<u32>)>, year: i32) -> (r: Option<usize>)
    ensures
        match r {
            Some(i) => i < list.len() && list@[i as int].0 == year,
            None => forall|j: int| 0 <= j < list.len() ==> list@[j].0 != year,
        },
{
    let mut i: usize = 0;
    while i < list.len()
        invariant
            i <= list.len(),
            forall|j: int| 0 <= j < i ==> list@[j].0 != year,
        decreases list.len() - i,
    {
        if list[i].0 == year {
            return Some(i);
        }
        i = i + 1;
    }
    None
}

/// Adds one to month `month` (1 to 12) of `year`, adding the year when it is missing.
fn bump_month(list: &mut Vec<(i32, Vec<u32>)>, year: i32, month: u32)
    requires
        1 <= month <= 12,
        keys_unique(months_view(old(list)@)),
        forall|j: int| 0 <= j < old(list).len() ==> (#[trigger] old(list)@[j]).1.len() == 12,
        months_or_zero(assoc_map(months_view(old(list)@)), year as int)[month - 1] < u32::MAX,
    ensures
        keys_unique(months_view(final(list)@)),
        forall|j: int| 0 <= j < final(list).len() ==> (#[trigger] final(list)@[j]).1.len() == 12,
        assoc_map(months_view(final(list)@)) == tally_month(
            assoc_map(months_view(old(list)@)),
            year as int,
            month as int,
        ),
{
    let ghost s = months_view(list@);
    let m = (month - 1) as usize;
    match find_year(list, year) {
        Some(i) => {
            proof {
                lemma_assoc_map_index(s, i as int);
            }
            let ghost before = list@[i as int].1@;
            let x = list[i].1[m];
            list[i].1.set(m, x + 1);
            proof {
                let counts = bump_at(nat_counts(before), m as int);
                assert(nat_counts(list@[i as int].1@) =~= counts);
                lemma_assoc_map_update(s, i as int, counts);
                assert(months_view(list@) =~= s.update(i as int, (s[i as int].0, counts)));
            }
        },
        None => {
            let mut ms: Vec<u32> = vec![0; 12];
            ms.set(m, 1);
            proof {
                lemma_assoc_map_absent(s, year as int);
                assert(nat_counts(ms@) =~= bump_at(zero_months(), m as int));
                lemma_keys_unique_push(s, (year as int, nat_counts(ms@)));
            }
            list.push((year, ms));
            assert(months_view(list@) =~= s.push((year as int, bump_at(zero_months(), m as int))));
            assert(s.push((year as int, bump_at(zero_months(), m as int))).drop_last() =~= s);
        },
    }
}

/// Engineering-activity statistics over a set of commits.
#[derive(Debug)]
pub struct Stats {
    num_commits_to_master: u32,
    num_prs: u32,
    missing_prs: u32,
    num_file_changes: u32,
    component_stats: Vec<(String, u32)>,
    lang_stats: Vec<(String, u32)>,
    commits_by_month: Vec<(i32, Vec<u32>)>,
    commits_by_day_of_week: Vec<u32>,
    changes_by_component: Vec<(String, CommitChanges)>,
}

impl View for Stats {
    type V = StatsView;

    closed spec fn view(&self) -> StatsView {
        StatsView {
            num_commits_to_master: self.num_commits_to_master as nat,
            num_prs: self.num_prs as nat,
            missing_prs: self.missing_prs as nat,
            num_file_changes: self.num_file_changes as nat,
            component_stats: assoc_map(counts_view(self.component_stats@)),
            lang_stats: assoc_map(counts_view(self.lang_stats@)),
            commits_by_month: assoc_map(months_view(self.commits_by_month@)),
            commits_by_day_of_week: nat_counts(self.commits_by_day_of_week@),
            changes_by_component: assoc_map(changes_entries(self.changes_by_component@)),
        }
    }
}

impl Stats {
    /// Each keyed list names each key once, each year holds twelve months, and the
    /// statistics are well formed.
    pub closed spec fn wf(&self) -> bool {
        &&& keys_unique(counts_view(self.component_stats@))
        &&& keys_unique(counts_view(self.lang_stats@))
        &&& keys_unique(months_view(self.commits_by_month@))
        &&& keys_unique(changes_entries(self.changes_by_component@))
        &&& forall|j: int|
            0 <= j < self.commits_by_month.len() ==> (#[trigger] self.commits_by_month@[j]).1.len()
                == 12
        &&& self@.wf()
    }

    /// The statistics of no commits, where folding begins.
    pub fn new() -> (r: Stats)
        ensures
            r.wf(),
            r@ == StatsView::empty(),
    {
        let r = Stats {
            num_commits_to_master: 0,
            num_prs: 0,
            missing_prs: 0,
            num_file_changes: 0,
            component_stats: Vec::new(),
            lang_stats: Vec::new(),
            commits_by_month: Vec::new(),
            commits_by_day_of_week: vec![0; 7],
            changes_by_component: Vec::new(),
        };
        assert(keys_of(counts_view(r.component_stats@)) =~= seq![]);
        assert(keys_of(counts_view(r.lang_stats@)) =~= seq![]);
        assert(keys_of(months_view(r.commits_by_month@)) =~= seq![]);
        assert(keys_of(changes_entries(r.changes_by_component@)) =~= seq![]);
        assert(r@.commits_by_day_of_week =~= StatsView::empty().commits_by_day_of_week);
        assert(r@.component_stats =~= Map::empty());
        assert(r@.lang_stats =~= Map::empty());
        assert(r@.commits_by_month =~= Map::empty());
        assert(r@.changes_by_component =~= Map::empty());
        r
    }

    /// Folds one more commit's outcome into the statistics.
    pub fn record(&mut self, o: &CommitOutcome)
        requires
            old(self).wf(),
            o@.wf(),
            old(self)@.num_commits_to_master < u32::MAX,
            old(self)@.num_file_changes + o@.file_changes <= u32::MAX,
        ensures
            final(self).wf(),
            final(self)@ == old(self)@.record(o@),
    {
        let ghost before = self@;
        let ghost n = before.num_commits_to_master;
        let ghost facts = o@.components;
        let ghost names = fact_names(facts);
        let ghost langs = o@.languages;
        self.num_commits_to_master = self.num_commits_to_master + 1;
        if o.is_pr {
            self.num_prs = self.num_prs + 1;
        } else {
            self.missing_prs = self.missing_prs + 1;
        }
        self.num_file_changes = self.num_file_changes + o.file_changes as u32;
        assert(names.take(0).to_set() =~= Set::empty());
        assert(facts.take(0) =~= seq![]);
        assert(tally_keys(before.component_stats, Set::empty()) =~= before.component_stats);
        assert(tally_changes(before.changes_by_component, Map::empty()) =~= before.changes_by_component);
        let ghost s0 = *self;
        let mut i: usize = 0;
        while i < o.components.len()
            invariant
                i <= o.components.len(),
                facts == changes_view(o.components@),
                names == fact_names(facts),
                names.no_duplicates(),
                before.wf(),
                n == before.num_commits_to_master,
                n < u32::MAX,
                keys_unique(counts_view(self.component_stats@)),
                keys_unique(changes_entries(self.changes_by_component@)),
                self.num_commits_to_master == s0.num_commits_to_master,
                self.num_prs == s0.num_prs,
                self.missing_prs == s0.missing_prs,
                self.num_file_changes == s0.num_file_changes,
                self.lang_stats == s0.lang_stats,
                self.commits_by_month == s0.commits_by_month,
                self.commits_by_day_of_week == s0.commits_by_day_of_week,
                assoc_map(counts_view(self.component_stats@)) == tally_keys(
                    before.component_stats,
                    names.take(i as int).to_set(),
                ),
                assoc_map(changes_entries(self.changes_by_component@)) == tally_changes(
                    before.changes_by_component,
                    assoc_map(facts.take(i as int)),
                ),
            decreases o.components.len() - i,
        {
            let c = &o.components[i];
            let ghost k = c.component@;
            let ghost done_names = names.take(i as int).to_set();
            let ghost done_facts = assoc_map(facts.take(i as int));
            proof {
                assert(names[i as int] == k);
                assert(!done_names.contains(k)) by {
                    if done_names.contains(k) {
                        let j = choose|j: int| 0 <= j < i && names.take(i as int)[j] == k;
                        assert(names[j] == names[i as int]);
                    }
                }
                crate::tally::lemma_assoc_map_dom(facts.take(i as int));
                assert(keys_of(facts.take(i as int)) =~= names.take(i as int));
                lemma_tally_keys_insert(before.component_stats, done_names, k);
                lemma_tally_changes_insert(before.changes_by_component, done_facts, k, c.kind);
            }
            bump_count(&mut self.component_stats, &c.component);
            bump_changes(&mut self.changes_by_component, &c.component, c.kind);
            proof {
                assert(names.take(i + 1) =~= names.take(i as int).push(k));
                names.take(i as int).lemma_push_to_set_commute(k);
                assert(facts.take(i + 1).drop_last() =~= facts.take(i as int));
                assert(facts.take(i + 1).last() == (k, c.kind));
            }
            i = i + 1;
        }
        assert(names.take(o.components.len() as int) =~= names);
        assert(facts.take(o.components.len() as int) =~= facts);
        assert(langs.take(0).to_set() =~= Set::empty());
        assert(tally_keys(before.lang_stats, Set::empty()) =~= before.lang_stats);
        let ghost s1 = *self;
        let mut i: usize = 0;
        while i < o.languages.len()
            invariant
                i <= o.languages.len(),
                langs == texts_view(o.languages@),
                langs.no_duplicates(),
                before.wf(),
                n == before.num_commits_to_master,
                n < u32::MAX,
                keys_unique(counts_view(self.lang_stats@)),
                self.num_commits_to_master == s1.num_commits_to_master,
                self.num_prs == s1.num_prs,
                self.missing_prs == s1.missing_prs,
                self.num_file_changes == s1.num_file_changes,
                self.component_stats == s1.component_stats,
                self.changes_by_component == s1.changes_by_component,
                self.commits_by_month == s1.commits_by_month,
                self.commits_by_day_of_week == s1.commits_by_day_of_week,
                assoc_map(counts_view(self.lang_stats@)) == tally_keys(
                    before.lang_stats,
                    langs.take(i as int).to_set(),
                ),
            decreases o.languages.len() - i,
        {
            let l = &o.languages[i];
            let ghost k = l@;
            let ghost done = langs.take(i as int).to_set();
            proof {
                assert(langs[i as int] == k);
                assert(!done.contains(k)) by {
                    if done.contains(k) {
                        let j = choose|j: int| 0 <= j < i && langs.take(i as int)[j] == k;
                        assert(langs[j] == langs[i as int]);
                    }
                }
                lemma_tally_keys_insert(before.lang_stats, done, k);
            }
            bump_count(&mut self.lang_stats, l);
            assert(langs.take(i + 1) =~= langs.take(i as int).push(k));
            proof {
                langs.take(i as int).lemma_push_to_set_commute(k);
            }
            i = i + 1;
        }
        assert(langs.take(o.languages.len() as int) =~= langs);
        proof {
            let y = o.date.year as int;
            let mi = o.date.month - 1;
            assert(self@.commits_by_month == before.commits_by_month);
            if before.commits_by_month.contains_key(y) {
                assert(before.commits_by_month[y][mi] <= n);
            }
        }
        bump_month(&mut self.commits_by_month, o.date.year, o.date.month);
        let wd = o.date.weekday as usize;
        assert(before.commits_by_day_of_week[wd as int] <= n);
        assert(self@.commits_by_day_of_week == before.commits_by_day_of_week);
        let x = self.commits_by_day_of_week[wd];
        self.commits_by_day_of_week.set(wd, x + 1);
        assert(self@.commits_by_day_of_week =~= bump_at(before.commits_by_day_of_week, wd as int));
    }
}

/// The statistics of a list of commit outcomes, in whatever order they come.
pub fn aggregate(outcomes: &Vec<CommitOutcome>) -> (r: Stats)
    requires
        forall|i: int| 0 <= i < outcomes.len() ==> (#[trigger] outcomes@[i])@.wf(),
        outcomes.len() <= u32::MAX,
        total_file_changes(outcomes_view(outcomes@)) <= u32::MAX,
    ensures
        r.wf(),
        r@ == stats_of(outcomes_view(outcomes@)),
{
    let ghost ov = outcomes_view(outcomes@);
    let mut stats = Stats::new();
    let mut i: usize = 0;
    assert(ov.take(0) =~= seq![]);
    while i < outcomes.len()
        invariant
            i <= outcomes.len() <= u32::MAX,
            ov == outcomes_view(outcomes@),
            forall|j: int| 0 <= j < outcomes.len() ==> (#[trigger] outcomes@[j])@.wf(),
            total_file_changes(ov) <= u32::MAX,
            stats.wf(),
            stats@ == stats_of(ov.take(i as int)),
        decreases outcomes.len() - i,
    {
        proof {
            lemma_stats_totals(ov.take(i as int));
            lemma_total_prefix(ov, i + 1);
            assert(ov.take(i + 1).drop_last() =~= ov.take(i as int));
            assert(ov.take(i + 1).last() == outcomes@[i as int]@);
        }
        stats.record(&outcomes[i]);
        i = i + 1;
    }
    assert(ov.take(outcomes.len() as int) =~= ov);
    stats
}

/// The statistics of a history of commits: each commit is processed against its diff,
/// and the outcomes are folded together.
pub fn history_stats(history: &Vec<CommitDiff>) -> (r: Stats)
    requires
        forall|i: int|
            0 <= i < history.len() ==> timestamp_in_range(
                (#[trigger] history@[i]).commit.bucket_seconds(),
            ),
        history.len() <= u32::MAX,
        history_file_changes(history@) <= u32::MAX,
    ensures
        r.wf(),
        r@ == stats_of(history_outcomes(history@)),
{
    let ghost ov = history_outcomes(history@);
    proof {
        lemma_history_file_changes(history@);
    }
    let mut stats = Stats::new();
    let mut i: usize = 0;
    assert(ov.take(0) =~= seq![]);
    while i < history.len()
        invariant
            i <= history.len() <= u32::MAX,
            ov == history_outcomes(history@),
            forall|j: int|
                0 <= j < history.len() ==> timestamp_in_range(
                    (#[trigger] history@[j]).commit.bucket_seconds(),
                ),
            total_file_changes(ov) <= u32::MAX,
            stats.wf(),
            stats@ == stats_of(ov.take(i as int)),
        decreases history.len() - i,
    {
        let c = &history[i];
        let o = process_commit(&c.commit, &c.deltas);
        proof {
            lemma_stats_totals(ov.take(i as int));
            lemma_total_prefix(ov, i + 1);
            assert(ov.take(i + 1).drop_last() =~= ov.take(i as int));
            assert(ov.take(i + 1).last() == o@);
        }
        stats.record(&o);
        i = i + 1;
    }
    assert(ov.take(history.len() as int) =~= ov);
    stats
}

impl Stats {
    /// Well-formed statistics count every commit either as a pull request or as a
    /// missing one, and no count exceeds the number of commits.
    pub proof fn lemma_wf(&self)
        requires
            self.wf(),
        ensures
            self@.wf(),
            self@.num_commits_to_master == self@.num_prs + self@.missing_prs,
    {
    }

    pub fn num_commits_to_master(&self) -> (r: u32)
        ensures
            r == self@.num_commits_to_master,
    {
        self.num_commits_to_master
    }

    pub fn num_prs(&self) -> (r: u32)
        ensures
            r == self@.num_prs,
    {
        self.num_prs
    }

    pub fn missing_prs(&self) -> (r: u32)
        ensures
            r == self@.missing_prs,
    {
        self.missing_prs
    }

    pub fn num_file_changes(&self) -> (r: u32)
        ensures
            r == self@.num_file_changes,
    {
        self.num_file_changes
    }

    /// Each component with the number of commits that touch it, each component once.
    pub fn component_stats(&self) -> (r: &Vec<(String, u32)>)
        requires
            self.wf(),
        ensures
            keys_unique(counts_view(r@)),
            assoc_map(counts_view(r@)) == self@.component_stats,
    {
        &self.component_stats
    }

    /// Each counted language with the number of commits that touch it, each language
    /// once.
    pub fn lang_stats(&self) -> (r: &Vec<(String, u32)>)
        requires
            self.wf(),
        ensures
            keys_unique(counts_view(r@)),
            assoc_map(counts_view(r@)) == self@.lang_stats,
    {
        &self.lang_stats
    }

    /// Each year with its twelve monthly commit counts, January first, each year once.
    pub fn commits_by_month(&self) -> (r: &Vec<(i32, Vec<u32>)>)
        requires
            self.wf(),
        ensures
            keys_unique(months_view(r@)),
            assoc_map(months_view(r@)) == self@.commits_by_month,
    {
        &self.commits_by_month
    }

    /// Seven commit counts, Monday first.
    pub fn commits_by_day_of_week(&self) -> (r: &Vec<u32>)
        ensures
            nat_counts(r@) == self@.commits_by_day_of_week,
    {
        &self.commits_by_day_of_week
    }

    /// Each component with its summed change counts, each component once.
    pub fn changes_by_component(&self) -> (r: &Vec<(String, CommitChanges)>)
        requires
            self.wf(),
        ensures
            keys_unique(changes_entries(r@)),
            assoc_map(changes_entries(r@)) == self@.changes_by_component,
    {
        &self.changes_by_component
    }
}

} // verus!
