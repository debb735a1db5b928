//! A parallel text-search library: discovers files by recency, scans their
//! lines with a matcher (literal substring or regular expression), and
//! renders per-file match reports in a well-defined order.

mod errors;
mod matcher;
mod report;
mod workload;

pub use errors::{error_text, SearchError};
pub use matcher::{
    is_substring_of, lemma_substring_extension, regex_compiles, regex_match, ContainsMatcher,
    MatchEngine, RegexMatcher,
};
pub use report::{block_of, emitted_header, lemma_report_skips_empty, render_report, report_of};
pub use workload::{
    action_for, built_from, classify, compose_search_pattern, distinct_times, header_text,
    is_discovery_of, is_suffix_of, kind_label, kind_of, kind_text,
    lemma_discovery_strictly_descending, matching_lines, same_matcher, scan_plan,
    sort_by_recency_desc, sorted_by_recency, strip_trailing_slashes, truncate_workloads, truncated,
    FileCandidate, FileKind, ScanAction, Workload,
};
