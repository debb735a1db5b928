//! Workloads: one discovered file with its kind, recency timestamp, matcher
//! and collected matches, together with discovery ordering, truncation and
//! the per-file matching loop.

use vstd::prelude::*;
use vstd::string::StringExecFns;

use crate::matcher::MatchEngine;

verus! {

broadcast use vstd::seq_lib::group_to_multiset_ensures;

/// The decoder a file gets, derived once from its name at discovery time.
#[derive(Clone, Copy, Debug, PartialEq, Eq, Structural)]
pub enum FileKind {
    Plain,
    ZipArchive,
    GZipArchive,
}

/// `suffix` is the tail of `s`.
pub open spec fn is_suffix_of(suffix: Seq<char>, s: Seq<char>) -> bool {
    suffix.len() <= s.len() && s.subrange(s.len() - suffix.len(), s.len() as int) == suffix
}

/// The kind a path is classified into, by its extension.
pub open spec fn kind_of(path: Seq<char>) -> FileKind {
    if is_suffix_of(".zip"@, path) {
        FileKind::ZipArchive
    } else if is_suffix_of(".gz"@, path) {
        FileKind::GZipArchive
    } else {
        FileKind::Plain
    }
}

/// Relies on `str::ends_with` with a `&str` pattern: true iff `suffix` ends
/// the string.
#[verifier::external_body]
fn str_ends_with(s: &str, suffix: &str) -> (r: bool)
    ensures
        r == is_suffix_of(suffix@, s@),
{
    s.ends_with(suffix)
}

/// Classifies a path by its extension; anything that is not a zip or gzip
/// archive is scanned as plain text.
pub fn classify(path: &String) -> (r: FileKind)
    ensures
        r == kind_of(path@),
{
    if str_ends_with(path.as_str(), ".zip") {
        FileKind::ZipArchive
    } else if str_ends_with(path.as_str(), ".gz") {
        FileKind::GZipArchive
    } else {
        FileKind::Plain
    }
}

/// The kind's name as it appears in a report header.
pub open spec fn kind_text(kind: FileKind) -> Seq<char> {
    match kind {
        FileKind::Plain => "Plain"@,
        FileKind::ZipArchive => "ZipArchive"@,
        FileKind::GZipArchive => "GZipArchive"@,
    }
}

/// The kind's name, for rendering a report header.
pub fn kind_label(kind: FileKind) -> (r: &'static str)
    ensures
        r@ == kind_text(kind),
{
    match kind {
        FileKind::Plain => "Plain",
        FileKind::ZipArchive => "ZipArchive",
        FileKind::GZipArchive => "GZipArchive",
    }
}

/// `s` with every trailing path separator removed.
pub open spec fn strip_trailing_slashes(s: Seq<char>) -> Seq<char>
    decreases s.len(),
{
    if s.len() > 0 && s.last() == '/' {
        strip_trailing_slashes(s.drop_last())
    } else {
        s
    }
}

/// Relies on `str::trim_end_matches` with a `&str` pattern: removes every
/// trailing repetition of the pattern, here a single slash.
#[verifier::external_body]
fn trim_end_slashes(s: &str) -> (r: &str)
    ensures
        r@ == strip_trailing_slashes(s@),
{
    s.trim_end_matches("/")
}

/// Composes the pattern that discovery expands against the filesystem: the
/// source path, trailing separators stripped, joined with the glob pattern,
/// which defaults to `*` when absent.
pub fn compose_search_pattern(source_path: &str, glob: &Option<String>) -> (r: String)
    ensures
        glob matches Some(g) ==> r@ == strip_trailing_slashes(source_path@) + "/"@ + g@,
        glob is None ==> r@ == strip_trailing_slashes(source_path@) + "/"@ + "*"@,
{
    let base = String::from_str(trim_end_slashes(source_path)).concat("/");
    match glob {
        Some(g) => base.concat(g.as_str()),
        None => base.concat("*"),
    }
}

/// One discovered path with its recency timestamp (seconds since the epoch),
/// before it becomes a workload.
pub struct FileCandidate {
    pub path: String,
    pub last_modified: u64,
}

/// One discovered file and its scan state: its kind, its recency timestamp
/// fixed at discovery time, the matcher it will use, and the matches
/// collected so far, in the order encountered.
pub struct Workload<M: MatchEngine> {
    pub file: String,
    pub file_kind: FileKind,
    pub last_modified: u64,
    pub matcher: M,
    pub matches: Vec<String>,
}

/// Workloads ordered most recently modified first.
pub open spec fn sorted_by_recency<M: MatchEngine>(ws: Seq<Workload<M>>) -> bool {
    forall|i: int, j: int|
        #![trigger ws[i], ws[j]]
        0 <= i < j < ws.len() ==> ws[i].last_modified >= ws[j].last_modified
}

/// The two matchers accept exactly the same lines.
pub open spec fn same_matcher<M: MatchEngine>(a: M, b: M) -> bool {
    forall|l: Seq<char>| #[trigger] a.spec_match(l) == b.spec_match(l)
}

/// `built` is the workload sequence built from `cands` in discovery order:
/// path and timestamp copied, kind classified from the path, a matcher
/// equivalent to `m` attached, matches empty.
pub open spec fn built_from<M: MatchEngine>(
    built: Seq<Workload<M>>,
    cands: Seq<FileCandidate>,
    m: M,
) -> bool {
    &&& built.len() == cands.len()
    &&& forall|i: int|
        0 <= i < built.len() ==> {
            &&& (#[trigger] built[i]).file@ == cands[i].path@
            &&& built[i].last_modified == cands[i].last_modified
            &&& built[i].file_kind == kind_of(cands[i].path@)
            &&& built[i].matches@.len() == 0
            &&& same_matcher(built[i].matcher, m)
        }
}

/// `full` is a discovery result for `cands`: a recency-sorted rearrangement
/// of the workloads built from the candidates.
pub open spec fn is_discovery_of<M: MatchEngine>(
    full: Seq<Workload<M>>,
    cands: Seq<FileCandidate>,
    m: M,
) -> bool {
    &&& sorted_by_recency(full)
    &&& exists|built: Seq<Workload<M>>|
        #[trigger] built_from(built, cands, m) && full.to_multiset() == built.to_multiset()
}

/// What truncation keeps: the first `t` entries when the limit `t` is below
/// the count, the whole sequence unchanged otherwise.
pub open spec fn truncated<M: MatchEngine>(
    full: Seq<Workload<M>>,
    take_count: Option<usize>,
) -> Seq<Workload<M>> {
    match take_count {
        Some(t) => if (t as int) < full.len() {
            full.subrange(0, t as int)
        } else {
            full
        },
        None => full,
    }
}

/// Sorts the workloads most recently modified first. The sort is stable,
/// so ties keep a deterministic order for a given input.
pub fn sort_by_recency_desc<M: MatchEngine>(ws: &mut Vec<Workload<M>>)
    ensures
        sorted_by_recency(final(ws)@),
        final(ws)@.to_multiset() == old(ws)@.to_multiset(),
{
    let ghost orig = ws@;
    if ws.len() < 2 {
        return ;
    }
    let mut i: usize = 1;
    while i < ws.len()
        invariant
            1 <= i <= ws@.len(),
            ws@.len() == orig.len(),
            ws@.to_multiset() == orig.to_multiset(),
            sorted_by_recency(ws@.subrange(0, i as int)),
        decreases ws@.len() - i,
    {
        let ghost pre = ws@;
        let w = ws.remove(i);
        let ghost mid = ws@;
        proof {
            assert(mid.subrange(0, i as int) =~= pre.subrange(0, i as int));
        }
        let mut j: usize = i;
        while j > 0 && ws[j - 1].last_modified < w.last_modified
            invariant
                j <= i,
                i <= mid.len(),
                ws@ == mid,
                forall|k: int| #![trigger mid[k]] j <= k < i ==> mid[k].last_modified
                    < w.last_modified,
            decreases j,
        {
            j -= 1;
        }
        ws.insert(j, w);
        proof {
            let news = ws@;
            assert(news == mid.insert(j as int, w));
            assert forall|p: int, q: int|
                #![trigger news[p], news[q]]
                0 <= p < q < i + 1 implies news[p].last_modified >= news[q].last_modified by {
                if p < j && q < j {
                    assert(news[p] == mid[p] && news[q] == mid[q]);
                } else if p < j && q == j {
                    assert(news[p] == mid[p] && news[q] == w);
                    assert(mid[p].last_modified >= mid[j - 1].last_modified);
                    assert(mid[j - 1].last_modified >= w.last_modified);
                } else if p < j && q > j {
                    assert(news[p] == mid[p] && news[q] == mid[q - 1]);
                } else if p == j {
                    assert(news[p] == w && news[q] == mid[q - 1]);
                    assert(mid[q - 1].last_modified < w.last_modified);
                } else {
                    assert(news[p] == mid[p - 1] && news[q] == mid[q - 1]);
                }
            };
            assert(sorted_by_recency(news.subrange(0, i as int + 1))) by {
                assert(forall|p: int|
                    0 <= p < i + 1 ==> #[trigger] news.subrange(0, i as int + 1)[p] == news[p]);
            };
            assert(mid.to_multiset() == pre.to_multiset().remove(w)) by {
                assert(pre.remove(i as int).to_multiset() == pre.to_multiset().remove(
                    pre[i as int],
                ));
            };
            assert(news.to_multiset() == mid.to_multiset().insert(w)) by {
                assert(mid.insert(j as int, w).to_multiset() == mid.to_multiset().insert(w));
            };
            assert(pre.contains(w));
            assert(pre.to_multiset().count(w) > 0);
            assert(news.to_multiset() =~= pre.to_multiset());
        }
        i += 1;
    }
    proof {
        assert(ws@.subrange(0, ws@.len() as int) =~= ws@);
    }
}

/// Keeps only the first `t` workloads when `take_count` is `Some(t)` with
/// `t` below the count; with no limit, or a limit at or above the count, the
/// set is unchanged.
pub fn truncate_workloads<M: MatchEngine>(ws: &mut Vec<Workload<M>>, take_count: Option<usize>)
    ensures
        final(ws)@ == truncated(old(ws)@, take_count),
{
    match take_count {
        Some(t) => {
            if t < ws.len() {
                ws.truncate(t);
            }
        },
        None => {},
    }
}

impl<M: MatchEngine> Workload<M> {
    /// Builds the ordered workload set for the discovered candidates: one
    /// workload per candidate, classified by extension and carrying an
    /// equivalent matcher, sorted most recently modified first, then
    /// truncated to `take_count` entries when a limit is given.
    pub fn generate_workloads(
        candidates: Vec<FileCandidate>,
        take_count: Option<usize>,
        matcher: M,
    ) -> (r: Vec<Workload<M>>)
        ensures
            exists|full: Seq<Workload<M>>|
                #[trigger] is_discovery_of(full, candidates@, matcher) && r@ == truncated(
                    full,
                    take_count,
                ),
            sorted_by_recency(r@),
            take_count matches Some(t) ==> r@.len() == if (t as int) < candidates@.len() {
                t as int
            } else {
                candidates@.len() as int
            },
            take_count is None ==> r@.len() == candidates@.len(),
            forall|i: int|
                0 <= i < r@.len() ==> {
                    &&& (#[trigger] r@[i]).matches@.len() == 0
                    &&& r@[i].file_kind == kind_of(r@[i].file@)
                    &&& same_matcher(r@[i].matcher, matcher)
                    &&& exists|c: int|
                        0 <= c < candidates@.len() && r@[i].file@ == (
                        #[trigger] candidates@[c]).path@ && r@[i].last_modified
                            == candidates@[c].last_modified
                },
    {
        let mut ws: Vec<Workload<M>> = Vec::new();
        let mut idx: usize = 0;
        while idx < candidates.len()
            invariant
                idx <= candidates@.len(),
                built_from(ws@, candidates@.subrange(0, idx as int), matcher),
            decreases candidates@.len() - idx,
        {
            let ghost prev = ws@;
            let c = &candidates[idx];
            let kind = classify(&c.path);
            let w = Workload {
                file: String::from_str(c.path.as_str()),
                file_kind: kind,
                last_modified: c.last_modified,
                matcher: matcher.duplicate(),
                matches: Vec::new(),
            };
            ws.push(w);
            idx += 1;
            proof {
                let cs = candidates@.subrange(0, idx as int);
                assert forall|i: int| 0 <= i < ws@.len() implies {
                    &&& (#[trigger] ws@[i]).file@ == cs[i].path@
                    &&& ws@[i].last_modified == cs[i].last_modified
                    &&& ws@[i].file_kind == kind_of(cs[i].path@)
                    &&& ws@[i].matches@.len() == 0
                    &&& same_matcher(ws@[i].matcher, matcher)
                } by {
                    if i < idx - 1 {
                        assert(ws@[i] == prev[i]);
                        assert(cs[i] == candidates@.subrange(0, idx - 1)[i]);
                    } else {
                        assert(ws@[i] == w);
                        assert(cs[i] == candidates@[idx - 1]);
                    }
                };
            }
        }
        proof {
            assert(candidates@.subrange(0, candidates@.len() as int) =~= candidates@);
        }
        let ghost built0 = ws@;
        sort_by_recency_desc(&mut ws);
        let ghost full0 = ws@;
        truncate_workloads(&mut ws, take_count);
        proof {
            assert(built_from(built0, candidates@, matcher));
            assert(is_discovery_of(full0, candidates@, matcher));
            assert(ws@ == truncated(full0, take_count));
            assert(full0.len() == built0.len()) by {
                assert(full0.to_multiset().len() == full0.len());
                assert(built0.to_multiset().len() == built0.len());
            };
            let rs = ws@;
            assert forall|p: int, q: int|
                #![trigger rs[p], rs[q]]
                0 <= p < q < rs.len() implies rs[p].last_modified >= rs[q].last_modified by {
                assert(rs[p] == full0[p]);
                assert(rs[q] == full0[q]);
            };
            assert forall|i: int| 0 <= i < rs.len() implies {
                &&& (#[trigger] rs[i]).matches@.len() == 0
                &&& rs[i].file_kind == kind_of(rs[i].file@)
                &&& same_matcher(rs[i].matcher, matcher)
                &&& exists|c: int|
                    0 <= c < candidates@.len() && rs[i].file@ == (#[trigger] candidates@[c]).path@
                        && rs[i].last_modified == candidates@[c].last_modified
            } by {
                assert(rs[i] == full0[i]);
                assert(full0.contains(full0[i]));
                assert(full0.to_multiset().contains(full0[i]));
                assert(built0.to_multiset().contains(full0[i]));
                assert(built0.contains(full0[i]));
                let c = choose|c: int| 0 <= c < built0.len() && built0[c] == full0[i];
                assert(built0[c].file@ == candidates@[c].path@);
                assert(rs[i].file@ == candidates@[c].path@);
                assert(rs[i].last_modified == candidates@[c].last_modified);
            };
        }
        ws
    }

    /// The matched lines collected so far, in the order encountered.
    pub fn iter(&self) -> (r: &Vec<String>)
        ensures
            r == &self.matches,
    {
        &self.matches
    }

    /// True iff the workload has collected at least one match.
    pub fn any(&self) -> (r: bool)
        ensures
            r == (self.matches@.len() > 0),
    {
        self.matches.len() > 0
    }

    /// The report header for this workload: `<path> -- <kind>`.
    pub fn header(&self) -> (r: String)
        ensures
            r@ == header_text(*self),
    {
        String::from_str(self.file.as_str()).concat(" -- ").concat(kind_label(self.file_kind))
    }

    /// Scans the decoded lines of the workload's file: every line the
    /// matcher accepts is appended, in the order encountered; nothing else
    /// about the workload changes.
    pub fn match_entries(&mut self, lines: &Vec<String>)
        ensures
            final(self).matches.deep_view() == old(self).matches.deep_view() + matching_lines(
                old(self).matcher,
                lines.deep_view(),
            ),
            final(self).file == old(self).file,
            final(self).file_kind == old(self).file_kind,
            final(self).last_modified == old(self).last_modified,
            final(self).matcher == old(self).matcher,
    {
        let ghost dv = lines.deep_view();
        let mut k: usize = 0;
        while k < lines.len()
            invariant
                k <= lines@.len(),
                dv == lines.deep_view(),
                self.matches.deep_view() == old(self).matches.deep_view() + matching_lines(
                    old(self).matcher,
                    dv.subrange(0, k as int),
                ),
                self.file == old(self).file,
                self.file_kind == old(self).file_kind,
                self.last_modified == old(self).last_modified,
                self.matcher == old(self).matcher,
            decreases lines@.len() - k,
        {
            let line = &lines[k];
            proof {
                assert(dv.subrange(0, k as int + 1).drop_last() =~= dv.subrange(0, k as int));
                assert(dv.subrange(0, k as int + 1).last() == dv[k as int]);
                assert(dv[k as int] == line@);
            }
            let ghost before = self.matches.deep_view();
            if self.matcher.match_line(line.as_str()) {
                self.matches.push(String::from_str(line.as_str()));
                proof {
                    assert(self.matches.deep_view() =~= before.push(line@));
                }
            }
            k += 1;
        }
        proof {
            assert(dv.subrange(0, lines@.len() as int) =~= dv);
        }
    }
}

/// The report header of a workload, as characters.
pub open spec fn header_text<M: MatchEngine>(w: Workload<M>) -> Seq<char> {
    w.file@ + " -- "@ + kind_text(w.file_kind)
}

/// The lines among `lines` that `m` accepts, in order.
pub open spec fn matching_lines<M: MatchEngine>(m: M, lines: Seq<Seq<char>>) -> Seq<Seq<char>>
    decreases lines.len(),
{
    if lines.len() == 0 {
        Seq::empty()
    } else {
        let rest = matching_lines(m, lines.drop_last());
        if m.spec_match(lines.last()) {
            rest.push(lines.last())
        } else {
            rest
        }
    }
}

/// What the scan engine does with a workload of each kind. Gzip
/// decompression is not wired to the matching loop, so gzip-kind workloads
/// are skipped and collect no matches.
#[derive(Clone, Copy, Debug, PartialEq, Eq, Structural)]
pub enum ScanAction {
    DecodeRawFile,
    DecodeFirstArchiveEntry,
    Skip,
}

/// The decoder decision for each file kind.
pub open spec fn action_for(kind: FileKind) -> ScanAction {
    match kind {
        FileKind::Plain => ScanAction::DecodeRawFile,
        FileKind::ZipArchive => ScanAction::DecodeFirstArchiveEntry,
        FileKind::GZipArchive => ScanAction::Skip,
    }
}

/// The decoder decision of the scan state machine: a plain file is decoded
/// raw; a zip-kind workload reads only the first contained entry of the
/// archive; a gzip-kind workload is skipped (see `ScanAction`).
pub fn scan_plan(kind: FileKind) -> (r: ScanAction)
    ensures
        r == action_for(kind),
{
    match kind {
        FileKind::Plain => ScanAction::DecodeRawFile,
        FileKind::ZipArchive => ScanAction::DecodeFirstArchiveEntry,
        FileKind::GZipArchive => ScanAction::Skip,
    }
}

/// All candidate timestamps differ.
pub open spec fn distinct_times(cands: Seq<FileCandidate>) -> bool {
    forall|i: int, j: int|
        #![trigger cands[i], cands[j]]
        0 <= i < j < cands.len() ==> cands[i].last_modified != cands[j].last_modified
}

/// Discovery ordering law: when every candidate timestamp differs, a
/// discovery result is strictly descending by timestamp; truncating it to
/// its first `k` entries therefore keeps exactly the `k` most recently
/// modified workloads, in that same descending order.
pub proof fn lemma_discovery_strictly_descending<M: MatchEngine>(
    full: Seq<Workload<M>>,
    cands: Seq<FileCandidate>,
    m: M,
    k: int,
)
    requires
        is_discovery_of(full, cands, m),
        distinct_times(cands),
        0 <= k <= full.len(),
    ensures
        forall|i: int, j: int|
            #![trigger full[i], full[j]]
            0 <= i < j < full.len() ==> full[i].last_modified > full[j].last_modified,
        forall|i: int, j: int|
            #![trigger full[i], full[j]]
            0 <= i < k && k <= j < full.len() ==> full[i].last_modified > full[j].last_modified,
{
    let built = choose|built: Seq<Workload<M>>|
        #[trigger] built_from(built, cands, m) && full.to_multiset() == built.to_multiset();
    assert(built.no_duplicates()) by {
        assert forall|i: int, j: int|
            0 <= i < built.len() && 0 <= j < built.len() && i != j implies built[i] != built[j] by {
            assert(built[i].last_modified == cands[i].last_modified);
            assert(built[j].last_modified == cands[j].last_modified);
        };
    };
    built.lemma_multiset_has_no_duplicates();
    full.lemma_multiset_has_no_duplicates_conv();
    assert forall|i: int, j: int|
        #![trigger full[i], full[j]]
        0 <= i < j < full.len() implies full[i].last_modified > full[j].last_modified by {
        if full[i].last_modified == full[j].last_modified {
            assert(full[i] != full[j]);
            assert(full.contains(full[i]));
            assert(full.contains(full[j]));
            assert(built.to_multiset().contains(full[i]));
            assert(built.to_multiset().contains(full[j]));
            assert(built.contains(full[i]));
            assert(built.contains(full[j]));
            let a = choose|a: int| 0 <= a < built.len() && built[a] == full[i];
            let b = choose|b: int| 0 <= b < built.len() && built[b] == full[j];
            assert(built[a].last_modified == cands[a].last_modified);
            assert(built[b].last_modified == cands[b].last_modified);
            assert(a != b);
            assert(false);
        }
    };
}

} // verus!
