use vstd::prelude::*;

use crate::calendar::{convert_git_time_to_datetime, date_at, local_seconds, timestamp_in_range, CalendarDate};
use crate::classify::{
    component_of, extract_component_name_from_filename, extract_language_from_filename,
    has_pr_marker, interesting_languages, is_component_file, is_component_path,
    is_interesting_language, is_pr_summary, language_of,
};

verus! {

/// How a file changed between the baseline tree and the commit's tree.
#[derive(Debug, Clone, Copy, PartialEq, Eq)]
pub enum ChangeKind {
    Added,
    Deleted,
    Modified,
    /// Renamed, copied, or any other kind of change.
    Other,
}

/// One changed path of a commit's diff.
#[derive(Debug, Clone)]
pub struct FileDelta {
    /// Slash-separated path of the file in the commit's tree.
    pub path: String,
    pub kind: ChangeKind,
}

/// Abstract value of a [`FileDelta`].
pub struct DeltaView {
    pub path: Seq<char>,
    pub kind: ChangeKind,
}

impl View for FileDelta {
    type V = DeltaView;

    open spec fn view(&self) -> DeltaView {
        DeltaView { path: self.path@, kind: self.kind }
    }
}

/// The views of a sequence of deltas.
pub open spec fn deltas_view(ds: Seq<FileDelta>) -> Seq<DeltaView> {
    ds.map_values(|d: FileDelta| d@)
}

/// What the statistics read of a commit, besides its diff.
#[derive(Debug, Clone)]
pub struct CommitRecord {
    pub parent_count: usize,
    /// Author time, in seconds since the epoch.
    pub author_seconds: i64,
    /// Author's offset from UTC, in minutes.
    pub author_offset_minutes: i32,
    /// First line of the commit message.
    pub summary: String,
}

impl CommitRecord {
    /// The instant whose UTC calendar date buckets the commit.
    pub open spec fn bucket_seconds(&self) -> int {
        local_seconds(self.author_seconds as int, self.author_offset_minutes as int)
    }
}

/// The tree that a commit's diff starts from.
#[derive(Debug, Clone, Copy, PartialEq, Eq)]
pub enum Baseline {
    /// The tree of the commit's only parent.
    ParentTree,
    /// The empty tree: every file of the commit's tree counts as added.
    EmptyTree,
}

/// The baseline of a commit's diff: its parent's tree when it has exactly one
/// parent; the empty tree for a root commit and for a merge commit.
pub fn diff_baseline(parent_count: usize) -> (r: Baseline)
    ensures
        r == (if parent_count == 1 { Baseline::ParentTree } else { Baseline::EmptyTree }),
{
    if parent_count == 1 {
        Baseline::ParentTree
    } else {
        Baseline::EmptyTree
    }
}

/// First change of a component within one commit.
#[derive(Debug, Clone)]
pub struct ComponentChange {
    pub component: String,
    pub kind: ChangeKind,
}

/// What one commit contributes to the statistics.
#[derive(Debug, Clone)]
pub struct CommitOutcome {
    /// Whether the summary carries the pull-request marker.
    pub is_pr: bool,
    pub date: CalendarDate,
    /// Each component touched, once, with the kind of its first change in diff order.
    pub components: Vec<ComponentChange>,
    /// Each counted language touched, once, in diff order.
    pub languages: Vec<String>,
    /// Number of changed paths that count.
    pub file_changes: usize,
}

/// Abstract value of a [`CommitOutcome`].
pub struct OutcomeView {
    pub is_pr: bool,
    pub date: CalendarDate,
    pub components: Seq<(Seq<char>, ChangeKind)>,
    pub languages: Seq<Seq<char>>,
    pub file_changes: nat,
}

/// The views of a list of component changes.
pub open spec fn changes_view(cs: Seq<ComponentChange>) -> Seq<(Seq<char>, ChangeKind)> {
    cs.map_values(|c: ComponentChange| (c.component@, c.kind))
}

/// The views of a list of strings.
pub open spec fn texts_view(ss: Seq<String>) -> Seq<Seq<char>> {
    ss.map_values(|s: String| s@)
}

impl View for CommitOutcome {
    type V = OutcomeView;

    open spec fn view(&self) -> OutcomeView {
        OutcomeView {
            is_pr: self.is_pr,
            date: self.date,
            components: changes_view(self.components@),
            languages: texts_view(self.languages@),
            file_changes: self.file_changes as nat,
        }
    }
}

/// The component names of a list of component facts.
pub open spec fn fact_names(facts: Seq<(Seq<char>, ChangeKind)>) -> Seq<Seq<char>> {
    facts.map_values(|f: (Seq<char>, ChangeKind)| f.0)
}

impl OutcomeView {
    /// A date that names a month and a weekday, and each component and language once.
    pub open spec fn wf(self) -> bool {
        &&& 1 <= self.date.month <= 12
        &&& self.date.weekday < 7
        &&& fact_names(self.components).no_duplicates()
        &&& self.languages.no_duplicates()
    }
}

/// Number of changed paths that count.
pub open spec fn counted_files(ds: Seq<DeltaView>) -> nat
    decreases ds.len(),
{
    if ds.len() == 0 {
        0
    } else {
        counted_files(ds.drop_last()) + if is_component_path(ds.last().path) {
            1nat
        } else {
            0nat
        }
    }
}

/// Each component touched by the deltas, in diff order, with the kind of the first
/// delta under it.
pub open spec fn component_facts(ds: Seq<DeltaView>) -> Seq<(Seq<char>, ChangeKind)>
    decreases ds.len(),
{
    if ds.len() == 0 {
        seq![]
    } else {
        let prev = component_facts(ds.drop_last());
        let d = ds.last();
        if component_of(d.path) is Some && !fact_names(prev).contains(component_of(d.path)->0) {
            prev.push((component_of(d.path)->0, d.kind))
        } else {
            prev
        }
    }
}

/// Whether a delta touches a counted language that is not yet in `seen`.
pub open spec fn adds_language(d: DeltaView, seen: Seq<Seq<char>>) -> bool {
    &&& is_component_path(d.path)
    &&& language_of(d.path) is Some
    &&& interesting_languages().contains(language_of(d.path)->0)
    &&& !seen.contains(language_of(d.path)->0)
}

/// Each counted language touched by the deltas, once, in diff order.
pub open spec fn touched_languages(ds: Seq<DeltaView>) -> Seq<Seq<char>>
    decreases ds.len(),
{
    if ds.len() == 0 {
        seq![]
    } else {
        let prev = touched_languages(ds.drop_last());
        let d = ds.last();
        if adds_language(d, prev) {
            prev.push(language_of(d.path)->0)
        } else {
            prev
        }
    }
}

/// What a commit with the given diff contributes to the statistics.
pub open spec fn outcome_of(commit: CommitRecord, ds: Seq<DeltaView>) -> OutcomeView {
    OutcomeView {
        is_pr: has_pr_marker(commit.summary@),
        date: date_at(commit.bucket_seconds()),
        components: component_facts(ds),
        languages: touched_languages(ds),
        file_changes: counted_files(ds),
    }
}

/// No component is listed twice among a commit's component facts.
pub proof fn lemma_component_facts_unique(ds: Seq<DeltaView>)
    ensures
        fact_names(component_facts(ds)).no_duplicates(),
    decreases ds.len(),
{
    if ds.len() > 0 {
        lemma_component_facts_unique(ds.drop_last());
        let prev = component_facts(ds.drop_last());
        let d = ds.last();
        if component_of(d.path) is Some && !fact_names(prev).contains(component_of(d.path)->0) {
            assert(fact_names(prev.push((component_of(d.path)->0, d.kind))) =~= fact_names(prev).push(
                component_of(d.path)->0,
            ));
        }
    }
}

/// When every delta is an addition, as in a diff against the empty tree, every
/// component's first change is an addition.
pub proof fn lemma_all_added(ds: Seq<DeltaView>)
    requires
        forall|i: int| 0 <= i < ds.len() ==> (#[trigger] ds[i]).kind == ChangeKind::Added,
    ensures
        forall|i: int|
            0 <= i < component_facts(ds).len() ==> (#[trigger] component_facts(ds)[i]).1
                == ChangeKind::Added,
    decreases ds.len(),
{
    if ds.len() > 0 {
        let d = ds.drop_last();
        assert forall|i: int| 0 <= i < d.len() implies (#[trigger] d[i]).kind == ChangeKind::Added by {
            assert(d[i] == ds[i]);
        }
        lemma_all_added(d);
        assert(ds.last() == ds[ds.len() - 1]);
    }
}

/// Whether `list` already names the component `name`.
fn has_component(list: &Vec<ComponentChange>, name: &String) -> (r: bool)
    ensures
        r == fact_names(changes_view(list@)).contains(name@),
{
    let ghost names = fact_names(changes_view(list@));
    let mut i: usize = 0;
    while i < list.len()
        invariant
            i <= list.len(),
            names == fact_names(changes_view(list@)),
            names.len() == list.len(),
            forall|j: int| 0 <= j < i ==> names[j] != name@,
        decreases list.len() - i,
    {
        if list[i].component == *name {
            assert(names[i as int] == name@);
            return true;
        }
        i = i + 1;
    }
    false
}

/// Whether `list` already holds the text `s`.
fn has_text(list: &Vec<String>, s: &String) -> (r: bool)
    ensures
        r == texts_view(list@).contains(s@),
{
    let ghost texts = texts_view(list@);
    let mut i: usize = 0;
    while i < list.len()
        invariant
            i <= list.len(),
            texts == texts_view(list@),
            texts.len() == list.len(),
            forall|j: int| 0 <= j < i ==> texts[j] != s@,
        decreases list.len() - i,
    {
        if list[i] == *s {
            assert(texts[i as int] == s@);
            return true;
        }
        i = i + 1;
    }
    false
}

/// What one commit contributes: its pull-request flag, its calendar buckets, each
/// component it touches once with the kind of its first change, each counted language
/// it touches once, and the number of changed paths that count.
pub fn process_commit(commit: &CommitRecord, deltas: &Vec<FileDelta>) -> (r: CommitOutcome)
    requires
        timestamp_in_range(commit.bucket_seconds()),
    ensures
        r@ == outcome_of(*commit, deltas_view(deltas@)),
        r@.wf(),
{
    let ghost ds = deltas_view(deltas@);
    let is_pr = is_pr_summary(commit.summary.as_str());
    let date = convert_git_time_to_datetime(commit.author_seconds, commit.author_offset_minutes);
    let mut components: Vec<ComponentChange> = Vec::new();
    let mut languages: Vec<String> = Vec::new();
    let mut file_changes: usize = 0;
    let mut i: usize = 0;
    assert(ds.take(0) =~= seq![]);
    while i < deltas.len()
        invariant
            i <= deltas.len(),
            ds == deltas_view(deltas@),
            file_changes <= i,
            file_changes == counted_files(ds.take(i as int)),
            changes_view(components@) == component_facts(ds.take(i as int)),
            texts_view(languages@) == touched_languages(ds.take(i as int)),
            fact_names(changes_view(components@)).no_duplicates(),
            texts_view(languages@).no_duplicates(),
        decreases deltas.len() - i,
    {
        let d = &deltas[i];
        let ghost prefix = ds.take(i as int);
        assert(ds.take(i + 1).drop_last() =~= prefix);
        assert(ds.take(i + 1).last() == d@);
        if is_component_file(d.path.as_str()) {
            file_changes = file_changes + 1;
            let comp = extract_component_name_from_filename(d.path.as_str());
            if let Some(c) = comp {
                if !has_component(&components, &c) {
                    let ghost before = changes_view(components@);
                    components.push(ComponentChange { component: c, kind: d.kind });
                    assert(changes_view(components@) =~= before.push((c@, d.kind)));
                    assert(fact_names(changes_view(components@)) =~= fact_names(before).push(c@));
                }
            }
            let lang = extract_language_from_filename(d.path.as_str());
            if let Some(l) = lang {
                if is_interesting_language(l.as_str()) && !has_text(&languages, &l) {
                    let ghost before = texts_view(languages@);
                    languages.push(l);
                    assert(texts_view(languages@) =~= before.push(l@));
                }
            }
        }
        i = i + 1;
    }
    assert(ds.take(deltas.len() as int) =~= ds);
    CommitOutcome { is_pr, date, components, languages, file_changes }
}

} // verus!
