use commit_analysis::{
    aggregate, diff_baseline, history_stats, process_commit, Baseline, ChangeKind, CommitChanges,
    CommitDiff, CommitRecord, FileDelta, Stats,
};

fn record(parents: usize, seconds: i64, summary: &str) -> CommitRecord {
    CommitRecord {
        parent_count: parents,
        author_seconds: seconds,
        author_offset_minutes: 0,
        summary: summary.to_string(),
    }
}

fn delta(path: &str, kind: ChangeKind) -> FileDelta {
    FileDelta { path: path.to_string(), kind }
}

fn count_of(list: &[(String, u32)], key: &str) -> Option<u32> {
    list.iter().find(|e| e.0 == key).map(|e| e.1)
}

fn changes_of(stats: &Stats, key: &str) -> Option<CommitChanges> {
    stats.changes_by_component().iter().find(|e| e.0 == key).map(|e| e.1)
}

fn sorted<T: Clone + Ord>(v: &[T]) -> Vec<T> {
    let mut v = v.to_vec();
    v.sort();
    v
}

#[test]
fn baseline_is_parent_only_for_single_parent() {
    assert_eq!(diff_baseline(0), Baseline::EmptyTree);
    assert_eq!(diff_baseline(1), Baseline::ParentTree);
    assert_eq!(diff_baseline(2), Baseline::EmptyTree);
    assert_eq!(diff_baseline(5), Baseline::EmptyTree);
}

#[test]
fn five_files_under_one_component_count_once() {
    let deltas: Vec<FileDelta> = (0..5)
        .map(|i| delta(&format!("componentA/src/File{}.java", i), ChangeKind::Modified))
        .collect();
    let o = process_commit(&record(1, 1431648000, "change"), &deltas);
    assert_eq!(o.components.len(), 1);
    assert_eq!(o.components[0].component, "componentA");
    assert_eq!(o.file_changes, 5);
    assert_eq!(o.languages, vec!["java".to_string()]);
    let stats = aggregate(&vec![o]);
    assert_eq!(count_of(stats.component_stats(), "componentA"), Some(1));
    assert_eq!(changes_of(&stats, "componentA"), Some(CommitChanges::new(0, 0, 1)));
}

#[test]
fn first_change_of_a_component_decides_its_kind() {
    let deltas = vec![
        delta("compA/a.kt", ChangeKind::Deleted),
        delta("compB/b.py", ChangeKind::Added),
        delta("compA/c.kt", ChangeKind::Added),
        delta("compB/d.rs", ChangeKind::Other),
    ];
    let o = process_commit(&record(1, 0, "x"), &deltas);
    let comps: Vec<(String, ChangeKind)> =
        o.components.iter().map(|c| (c.component.clone(), c.kind)).collect();
    assert_eq!(
        comps,
        vec![("compA".to_string(), ChangeKind::Deleted), ("compB".to_string(), ChangeKind::Added)]
    );
    assert_eq!(o.languages, vec!["kt".to_string(), "py".to_string()]);
    let stats = aggregate(&vec![o]);
    assert_eq!(changes_of(&stats, "compA"), Some(CommitChanges::new(0, 1, 0)));
    assert_eq!(changes_of(&stats, "compB"), Some(CommitChanges::new(1, 0, 0)));
    assert_eq!(count_of(stats.lang_stats(), "rs"), None);
}

#[test]
fn paths_outside_components_are_not_counted() {
    let deltas = vec![
        delta("README.md", ChangeKind::Modified),
        delta("master/old/Foo.java", ChangeKind::Added),
        delta("compA/Foo.java", ChangeKind::Added),
    ];
    let o = process_commit(&record(1, 0, "x"), &deltas);
    assert_eq!(o.file_changes, 1);
    assert_eq!(o.components.len(), 1);
    let stats = aggregate(&vec![o]);
    assert_eq!(stats.num_file_changes(), 1);
    assert_eq!(count_of(stats.component_stats(), "master"), None);
}

#[test]
fn commit_without_counted_deltas_counts_only_as_commit() {
    let o = process_commit(&record(0, 0, "Initial (#1)"), &vec![]);
    let stats = aggregate(&vec![o]);
    assert_eq!(stats.num_commits_to_master(), 1);
    assert_eq!(stats.num_prs(), 1);
    assert_eq!(stats.missing_prs(), 0);
    assert_eq!(stats.num_file_changes(), 0);
    assert!(stats.component_stats().is_empty());
    assert!(stats.lang_stats().is_empty());
    assert_eq!(stats.commits_by_month().len(), 1);
    assert_eq!(stats.commits_by_month()[0].0, 1970);
    assert_eq!(stats.commits_by_month()[0].1, vec![1, 0, 0, 0, 0, 0, 0, 0, 0, 0, 0, 0]);
    assert_eq!(stats.commits_by_day_of_week(), &vec![0, 0, 0, 1, 0, 0, 0]);
}

#[test]
fn merge_commit_against_empty_tree_counts_added() {
    assert_eq!(diff_baseline(2), Baseline::EmptyTree);
    let deltas = vec![
        delta("compA/Foo.java", ChangeKind::Added),
        delta("compA/Bar.java", ChangeKind::Added),
        delta("compB/x.xml", ChangeKind::Added),
    ];
    let o = process_commit(&record(2, 0, "Merge branch"), &deltas);
    assert!(o.components.iter().all(|c| c.kind == ChangeKind::Added));
    let stats = aggregate(&vec![o]);
    assert_eq!(changes_of(&stats, "compA"), Some(CommitChanges::new(1, 0, 0)));
    assert_eq!(changes_of(&stats, "compB"), Some(CommitChanges::new(1, 0, 0)));
}

#[test]
fn two_commit_history() {
    let history = vec![
        CommitDiff {
            commit: record(0, 1431648000, "init"),
            deltas: vec![delta("compA/Foo.java", ChangeKind::Added)],
        },
        CommitDiff {
            commit: record(1, 1431734400, "fix (#42)"),
            deltas: vec![delta("compA/Foo.java", ChangeKind::Modified)],
        },
    ];
    let stats = history_stats(&history);
    assert_eq!(stats.num_commits_to_master(), 2);
    assert_eq!(stats.num_prs(), 1);
    assert_eq!(stats.missing_prs(), 1);
    assert_eq!(stats.num_file_changes(), 2);
    assert_eq!(stats.component_stats(), &vec![("compA".to_string(), 2)]);
    assert_eq!(stats.lang_stats(), &vec![("java".to_string(), 2)]);
    assert_eq!(
        stats.changes_by_component(),
        &vec![("compA".to_string(), CommitChanges::new(1, 0, 1))]
    );
    assert_eq!(stats.commits_by_month(), &vec![(2015, vec![0, 0, 0, 0, 2, 0, 0, 0, 0, 0, 0, 0])]);
    // A Friday and the Saturday after it.
    assert_eq!(stats.commits_by_day_of_week(), &vec![0, 0, 0, 0, 1, 1, 0]);
}

#[test]
fn folding_order_does_not_change_the_counters() {
    let commits = vec![
        (record(1, 1431648000, "a (#1)"), vec![delta("compA/x.java", ChangeKind::Added)]),
        (record(1, 1420070400, "b"), vec![delta("compB/y.py", ChangeKind::Deleted)]),
        (
            record(2, 1300000000, "c"),
            vec![delta("compA/z.sh", ChangeKind::Added), delta("compC/q.css", ChangeKind::Added)],
        ),
        (record(1, 1431650000, "d (#2)"), vec![delta("compA/x.java", ChangeKind::Modified)]),
    ];
    let outcomes: Vec<_> = commits.iter().map(|(c, d)| process_commit(c, d)).collect();
    let mut reversed = outcomes.clone();
    reversed.reverse();
    let mut rotated = outcomes.clone();
    rotated.rotate_left(2);
    let a = aggregate(&outcomes);
    for other in [aggregate(&reversed), aggregate(&rotated)] {
        assert_eq!(a.num_commits_to_master(), other.num_commits_to_master());
        assert_eq!(a.num_prs(), other.num_prs());
        assert_eq!(a.missing_prs(), other.missing_prs());
        assert_eq!(a.num_file_changes(), other.num_file_changes());
        assert_eq!(sorted(a.component_stats()), sorted(other.component_stats()));
        assert_eq!(sorted(a.lang_stats()), sorted(other.lang_stats()));
        assert_eq!(sorted(a.commits_by_month()), sorted(other.commits_by_month()));
        assert_eq!(a.commits_by_day_of_week(), other.commits_by_day_of_week());
        let mut x: Vec<_> = a.changes_by_component().iter().map(|e| (e.0.clone(), e.1.files_added, e.1.files_deleted, e.1.files_modified)).collect();
        let mut y: Vec<_> = other.changes_by_component().iter().map(|e| (e.0.clone(), e.1.files_added, e.1.files_deleted, e.1.files_modified)).collect();
        x.sort();
        y.sort();
        assert_eq!(x, y);
    }
    assert_eq!(count_of(a.component_stats(), "compA"), Some(3));
    assert_eq!(changes_of(&a, "compA"), Some(CommitChanges::new(2, 0, 1)));
    assert_eq!(a.commits_by_month().len(), 2);
}

#[test]
fn commits_split_into_prs_and_missing() {
    let summaries = ["a (#1)", "b", "c (#", "d #(", "e"];
    let outcomes: Vec<_> = summaries
        .iter()
        .map(|s| process_commit(&record(1, 0, s), &vec![]))
        .collect();
    let stats = aggregate(&outcomes);
    assert_eq!(stats.num_commits_to_master(), 5);
    assert_eq!(stats.num_prs(), 2);
    assert_eq!(stats.missing_prs(), 3);
    assert_eq!(stats.num_commits_to_master(), stats.num_prs() + stats.missing_prs());
}

#[test]
fn empty_history_gives_empty_stats() {
    let stats = history_stats(&vec![]);
    assert_eq!(stats.num_commits_to_master(), 0);
    assert!(stats.commits_by_month().is_empty());
    assert_eq!(stats.commits_by_day_of_week(), &vec![0; 7]);
    let fresh = Stats::new();
    assert_eq!(fresh.num_prs(), 0);
}
