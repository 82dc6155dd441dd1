//! Engineering-activity statistics over a repository's commit history: path
//! classification, per-commit processing, and an order-independent fold of the
//! per-commit outcomes into counters by component, language and calendar bucket.

mod calendar;
mod classify;
mod commit;
mod commit_changes;
mod count_by;
mod stats;
mod tally;

pub use calendar::{
    convert_git_time_to_datetime, date_at, local_seconds, timestamp_in_range, utc_month_of,
    utc_year_of, weekday_of, CalendarDate, MAX_TIMESTAMP,
};
pub use classify::{
    chars_of, component_of, extract_component_name_from_filename, extract_language_from_filename,
    extract_pr_from_commit_message, has_pr_marker, interesting_languages, is_component_file,
    is_component_path, is_interesting_language, is_pr_summary, language_of, last_dot_segment,
    legacy_prefix, lemma_component_is_text_before_first_slash, lemma_language_is_extension,
    regex_first_group, starts_with, PR_PATTERN,
};
pub use commit::{
    adds_language, changes_view, component_facts, counted_files, deltas_view, diff_baseline,
    fact_names, lemma_all_added, lemma_component_facts_unique, outcome_of, process_commit,
    texts_view, touched_languages, Baseline, ChangeKind, CommitOutcome, CommitRecord,
    ComponentChange, DeltaView, FileDelta, OutcomeView,
};
pub use commit_changes::{
    lemma_merge_associative, lemma_merge_commutative, lemma_merge_zero, ChangesView,
    CommitChanges,
};
pub use count_by::{count_by, keyed_by, occurrences, CountBy};
pub use stats::{
    aggregate, bump_at, change_unit, changes_entries, changes_or_zero, history_outcomes,
    history_file_changes, history_stats, lemma_commits_split_by_pr, lemma_component_counted_once,
    lemma_empty_baseline_counts_added, lemma_history_order_independent, lemma_record_commutes,
    lemma_stats_order_independent, lemma_stats_totals, lemma_stats_wf, months_or_zero,
    months_view, nat_counts, outcomes_view, stats_of, tally_changes, tally_keys, tally_month,
    total_file_changes, zero_months, CommitDiff, Stats, StatsView,
};
pub use tally::{assoc_map, bump, count_or_zero, counts_view, keys_of, keys_unique};
