use zg::{
    compose_search_pattern, render_report, scan_plan, ContainsMatcher, FileCandidate, FileKind,
    MatchEngine, RegexMatcher, ScanAction, SearchError, Workload,
};

fn cand(path: &str, last_modified: u64) -> FileCandidate {
    FileCandidate { path: String::from(path), last_modified }
}

fn lines(texts: &[&str]) -> Vec<String> {
    texts.iter().map(|t| String::from(*t)).collect()
}

fn matched(w: &Workload<ContainsMatcher>) -> Vec<String> {
    w.iter().clone()
}

#[test]
fn literal_matcher_finds_substring() {
    let m = ContainsMatcher::new(&String::from("oo"));
    assert!(m.match_line("foo"));
    assert!(m.match_line("foobar"));
    assert!(!m.match_line("bar"));
}

#[test]
fn literal_matcher_is_case_sensitive() {
    let m = ContainsMatcher::new(&String::from("Foo"));
    assert!(!m.match_line("foo"));
    assert!(m.match_line("a Foo b"));
}

#[test]
fn literal_matcher_empty_pattern_matches_everything() {
    let m = ContainsMatcher::new(&String::from(""));
    assert!(m.match_line(""));
    assert!(m.match_line("anything"));
}

#[test]
fn literal_match_survives_extension() {
    let m = ContainsMatcher::new(&String::from("needle"));
    assert!(m.match_line("needle"));
    assert!(m.match_line("left needle"));
    assert!(m.match_line("needle right"));
    assert!(m.match_line("left needle right"));
}

#[test]
fn literal_matcher_duplicate_matches_alike() {
    let m = ContainsMatcher::new(&String::from("oo"));
    let d = m.duplicate();
    assert_eq!(m.match_line("foo"), d.match_line("foo"));
    assert_eq!(m.match_line("bar"), d.match_line("bar"));
}

#[test]
fn regex_matcher_matches_anywhere() {
    let m = RegexMatcher::new(&String::from("fo+")).unwrap();
    assert!(m.match_line("foo"));
    assert!(m.match_line("xx fooo yy"));
    assert!(!m.match_line("f"));
}

#[test]
fn regex_matcher_duplicate_matches_alike() {
    let m = RegexMatcher::new(&String::from("^a.b$")).unwrap();
    let d = m.duplicate();
    assert!(d.match_line("axb"));
    assert!(!d.match_line("axxb"));
}

#[test]
fn invalid_regex_fails_before_any_scan() {
    let r = RegexMatcher::new(&String::from("(unclosed"));
    match r {
        Err(e) => assert_eq!(e, SearchError::InvalidPattern),
        Ok(_) => panic!("an invalid pattern must be rejected at construction"),
    }
}

#[test]
fn error_descriptions() {
    assert_eq!(
        SearchError::InvalidPattern.describe(),
        "could not compile the search pattern"
    );
    assert_eq!(SearchError::GlobExpansion.describe(), "could not parse the file glob");
    assert_eq!(SearchError::Metadata.describe(), "could not read file metadata");
    assert_eq!(SearchError::FileOpen.describe(), "could not open the file");
    assert_eq!(SearchError::Archive.describe(), "could not open the archive entry");
}

#[test]
fn search_pattern_strips_trailing_separators() {
    let p = compose_search_pattern("logs///", &Some(String::from("*.log")));
    assert_eq!(p, "logs/*.log");
}

#[test]
fn search_pattern_defaults_to_star() {
    let p = compose_search_pattern("logs", &None);
    assert_eq!(p, "logs/*");
}

#[test]
fn classification_by_extension() {
    let m = ContainsMatcher::new(&String::from("x"));
    let ws = Workload::generate_workloads(
        vec![cand("a.txt", 3), cand("b.zip", 2), cand("c.gz", 1)],
        None,
        m,
    );
    assert_eq!(ws[0].file_kind, FileKind::Plain);
    assert_eq!(ws[1].file_kind, FileKind::ZipArchive);
    assert_eq!(ws[2].file_kind, FileKind::GZipArchive);
}

#[test]
fn discovery_sorts_most_recent_first() {
    let m = ContainsMatcher::new(&String::from("x"));
    let ws = Workload::generate_workloads(
        vec![cand("old.txt", 10), cand("new.txt", 30), cand("mid.txt", 20)],
        None,
        m,
    );
    let names: Vec<&str> = ws.iter().map(|w| w.file.as_str()).collect();
    assert_eq!(names, vec!["new.txt", "mid.txt", "old.txt"]);
    assert_eq!(ws[0].last_modified, 30);
    assert_eq!(ws[1].last_modified, 20);
    assert_eq!(ws[2].last_modified, 10);
}

#[test]
fn take_limit_keeps_the_most_recent() {
    let m = ContainsMatcher::new(&String::from("x"));
    let ws = Workload::generate_workloads(
        vec![cand("old.txt", 10), cand("new.txt", 30), cand("mid.txt", 20)],
        Some(2),
        m,
    );
    let names: Vec<&str> = ws.iter().map(|w| w.file.as_str()).collect();
    assert_eq!(names, vec!["new.txt", "mid.txt"]);
}

#[test]
fn take_limit_at_or_above_count_changes_nothing() {
    let m = ContainsMatcher::new(&String::from("x"));
    let all = Workload::generate_workloads(
        vec![cand("a.txt", 1), cand("b.txt", 2)],
        None,
        m.duplicate(),
    );
    let capped = Workload::generate_workloads(
        vec![cand("a.txt", 1), cand("b.txt", 2)],
        Some(2),
        m.duplicate(),
    );
    let generous = Workload::generate_workloads(
        vec![cand("a.txt", 1), cand("b.txt", 2)],
        Some(99),
        m,
    );
    let names = |ws: &Vec<Workload<ContainsMatcher>>| -> Vec<String> {
        ws.iter().map(|w| w.file.clone()).collect()
    };
    assert_eq!(names(&all), vec!["b.txt", "a.txt"]);
    assert_eq!(names(&capped), names(&all));
    assert_eq!(names(&generous), names(&all));
}

#[test]
fn equal_timestamps_keep_discovery_order() {
    let m = ContainsMatcher::new(&String::from("x"));
    let ws = Workload::generate_workloads(
        vec![cand("first.txt", 5), cand("second.txt", 5), cand("third.txt", 5)],
        None,
        m,
    );
    let names: Vec<&str> = ws.iter().map(|w| w.file.as_str()).collect();
    assert_eq!(names, vec!["first.txt", "second.txt", "third.txt"]);
}

#[test]
fn take_limit_of_zero_keeps_nothing() {
    let m = ContainsMatcher::new(&String::from("x"));
    let ws = Workload::generate_workloads(vec![cand("a.txt", 1), cand("b.txt", 2)], Some(0), m);
    assert!(ws.is_empty());
}

#[test]
fn match_entries_keeps_matching_lines_in_order() {
    let m = ContainsMatcher::new(&String::from("foo"));
    let mut ws = Workload::generate_workloads(vec![cand("a.txt", 1)], None, m);
    ws[0].match_entries(&lines(&["foo", "bar", "foobar"]));
    assert_eq!(matched(&ws[0]), lines(&["foo", "foobar"]));
    assert!(ws[0].any());
}

#[test]
fn match_entries_appends_across_calls() {
    let m = ContainsMatcher::new(&String::from("a"));
    let mut ws = Workload::generate_workloads(vec![cand("a.txt", 1)], None, m);
    assert!(!ws[0].any());
    ws[0].match_entries(&lines(&["abc", "xyz"]));
    ws[0].match_entries(&lines(&["za"]));
    assert_eq!(matched(&ws[0]), lines(&["abc", "za"]));
}

#[test]
fn header_names_path_and_kind() {
    let m = ContainsMatcher::new(&String::from("x"));
    let ws = Workload::generate_workloads(vec![cand("dir/a.zip", 1)], None, m);
    assert_eq!(ws[0].header(), "dir/a.zip -- ZipArchive");
}

#[test]
fn scan_plan_reads_archives_first_entry_only() {
    assert_eq!(scan_plan(FileKind::Plain), ScanAction::DecodeRawFile);
    assert_eq!(scan_plan(FileKind::ZipArchive), ScanAction::DecodeFirstArchiveEntry);
    assert_eq!(scan_plan(FileKind::GZipArchive), ScanAction::Skip);
}

fn three_scanned_files() -> Vec<Workload<ContainsMatcher>> {
    let m = ContainsMatcher::new(&String::from("hit"));
    let mut ws = Workload::generate_workloads(
        vec![cand("t1.txt", 300), cand("t2.txt", 200), cand("t3.txt", 100)],
        None,
        m,
    );
    ws[0].match_entries(&lines(&["hit one"]));
    ws[1].match_entries(&lines(&["hit two"]));
    ws[2].match_entries(&lines(&["hit three"]));
    ws
}

#[test]
fn file_destination_order_is_discovery_order() {
    let ws = three_scanned_files();
    let out = render_report(&ws, false);
    assert_eq!(
        out,
        lines(&[
            "t1.txt -- Plain",
            "hit one",
            "t2.txt -- Plain",
            "hit two",
            "t3.txt -- Plain",
            "hit three",
        ])
    );
}

#[test]
fn interactive_order_is_exact_reverse_and_highlighted() {
    let ws = three_scanned_files();
    let out = render_report(&ws, true);
    assert_eq!(
        out,
        lines(&[
            "\u{1b}[31mt3.txt -- Plain\u{1b}[39m",
            "hit three",
            "\u{1b}[31mt2.txt -- Plain\u{1b}[39m",
            "hit two",
            "\u{1b}[31mt1.txt -- Plain\u{1b}[39m",
            "hit one",
        ])
    );
}

#[test]
fn workload_without_matches_is_skipped_in_both_modes() {
    let m = ContainsMatcher::new(&String::from("hit"));
    let mut ws = Workload::generate_workloads(
        vec![cand("has.txt", 2), cand("empty.txt", 1)],
        None,
        m,
    );
    ws[0].match_entries(&lines(&["a hit"]));
    ws[1].match_entries(&lines(&["nothing here"]));
    assert!(!ws[1].any());
    let file_out = render_report(&ws, false);
    let tty_out = render_report(&ws, true);
    assert_eq!(file_out, lines(&["has.txt -- Plain", "a hit"]));
    assert_eq!(tty_out, lines(&["\u{1b}[31mhas.txt -- Plain\u{1b}[39m", "a hit"]));
    for line in file_out.iter().chain(tty_out.iter()) {
        assert!(!line.contains("empty.txt"));
    }
}

#[test]
fn end_to_end_example() {
    let m = ContainsMatcher::new(&String::from("foo"));
    let mut ws = Workload::generate_workloads(
        vec![cand("a.txt", 2), cand("b.txt", 1)],
        None,
        m,
    );
    ws[0].match_entries(&lines(&["foo", "bar", "foobar"]));
    ws[1].match_entries(&lines(&["baz"]));
    let out = render_report(&ws, false);
    assert_eq!(out, lines(&["a.txt -- Plain", "foo", "foobar"]));
}

#[test]
fn regex_workloads_scan_like_literal_ones() {
    let m = RegexMatcher::new(&String::from("^ba")).unwrap();
    let mut ws = Workload::generate_workloads(vec![cand("a.txt", 1)], None, m);
    ws[0].match_entries(&lines(&["foo", "bar", "abaz", "baz"]));
    assert_eq!(ws[0].iter().clone(), lines(&["bar", "baz"]));
}
