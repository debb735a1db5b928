//! The report emitter's rendering: per-workload output blocks in either of
//! the two emission orders, with matchless workloads skipped.

use vstd::prelude::*;
use vstd::string::StringExecFns;

use crate::matcher::MatchEngine;
use crate::workload::{header_text, Workload};

verus! {

/// The header as emitted: wrapped in ANSI red for the interactive
/// destination, bare for a file destination.
pub open spec fn emitted_header<M: MatchEngine>(w: Workload<M>, highlight: bool) -> Seq<char> {
    if highlight {
        "\u{1b}[31m"@ + header_text(w) + "\u{1b}[39m"@
    } else {
        header_text(w)
    }
}

/// The output block of one workload: nothing when it has no matches, else
/// its header followed by each matched line, one output line each.
pub open spec fn block_of<M: MatchEngine>(w: Workload<M>, highlight: bool) -> Seq<Seq<char>> {
    if w.matches@.len() == 0 {
        Seq::empty()
    } else {
        seq![emitted_header(w, highlight)] + w.matches.deep_view()
    }
}

/// The full report of a workload sequence: the block of each workload in
/// turn, in the sequence's own order.
pub open spec fn report_of<M: MatchEngine>(ws: Seq<Workload<M>>, highlight: bool) -> Seq<Seq<char>>
    decreases ws.len(),
{
    if ws.len() == 0 {
        Seq::empty()
    } else {
        block_of(ws.first(), highlight) + report_of(ws.drop_first(), highlight)
    }
}

proof fn lemma_report_of_push<M: MatchEngine>(
    ws: Seq<Workload<M>>,
    w: Workload<M>,
    highlight: bool,
)
    ensures
        report_of(ws.push(w), highlight) == report_of(ws, highlight) + block_of(w, highlight),
    decreases ws.len(),
{
    if ws.len() == 0 {
        assert(ws.push(w).drop_first() =~= Seq::<Workload<M>>::empty());
        assert(ws.push(w).first() == w);
        assert(report_of(Seq::<Workload<M>>::empty(), highlight) == Seq::<Seq<char>>::empty());
        assert(report_of(ws, highlight) == Seq::<Seq<char>>::empty());
        assert(report_of(ws.push(w), highlight) == block_of(w, highlight) + Seq::<Seq<
            char,
        >>::empty());
        assert(report_of(ws.push(w), highlight) =~= report_of(ws, highlight) + block_of(
            w,
            highlight,
        ));
    } else {
        assert(ws.push(w).drop_first() =~= ws.drop_first().push(w));
        assert(ws.push(w).first() == ws.first());
        lemma_report_of_push(ws.drop_first(), w, highlight);
        assert(report_of(ws.push(w), highlight) =~= report_of(ws, highlight) + block_of(
            w,
            highlight,
        ));
    }
}

/// Report skip rule: a workload with an empty match list never appears in
/// the emitted output — removing it, at any position, leaves the report
/// unchanged, whichever destination the report is rendered for.
pub proof fn lemma_report_skips_empty<M: MatchEngine>(
    ws: Seq<Workload<M>>,
    i: int,
    highlight: bool,
)
    requires
        0 <= i < ws.len(),
        ws[i].matches@.len() == 0,
    ensures
        report_of(ws.remove(i), highlight) == report_of(ws, highlight),
    decreases ws.len(),
{
    if i == 0 {
        assert(ws.remove(0) =~= ws.drop_first());
        assert(block_of(ws.first(), highlight) =~= Seq::<Seq<char>>::empty());
        assert(report_of(ws, highlight) =~= report_of(ws.drop_first(), highlight));
    } else {
        assert(ws.remove(i).first() == ws.first());
        assert(ws.remove(i).drop_first() =~= ws.drop_first().remove(i - 1));
        lemma_report_skips_empty(ws.drop_first(), i - 1, highlight);
        assert(report_of(ws.remove(i), highlight) =~= report_of(ws, highlight));
    }
}

/// Appends one workload's output block to the report.
fn emit_block<M: MatchEngine>(out: &mut Vec<String>, w: &Workload<M>, highlight: bool)
    ensures
        final(out).deep_view() == old(out).deep_view() + block_of(*w, highlight),
{
    if w.any() {
        let header = w.header();
        let line = if highlight {
            String::from_str("\u{1b}[31m").concat(header.as_str()).concat("\u{1b}[39m")
        } else {
            header
        };
        let ghost base = out.deep_view();
        out.push(line);
        proof {
            assert(out.deep_view() =~= base.push(emitted_header(*w, highlight)));
        }
        let mut k: usize = 0;
        while k < w.matches.len()
            invariant
                k <= w.matches@.len(),
                out.deep_view() == old(out).deep_view() + seq![emitted_header(*w, highlight)]
                    + w.matches.deep_view().subrange(0, k as int),
            decreases w.matches@.len() - k,
        {
            let ghost b2 = out.deep_view();
            out.push(String::from_str(w.matches[k].as_str()));
            proof {
                assert(out.deep_view() =~= b2.push(w.matches.deep_view()[k as int]));
                assert(out.deep_view() =~= old(out).deep_view() + seq![
                    emitted_header(*w, highlight),
                ] + w.matches.deep_view().subrange(0, k as int + 1));
            }
            k += 1;
        }
        proof {
            assert(w.matches.deep_view().subrange(0, w.matches@.len() as int)
                =~= w.matches.deep_view());
            assert(out.deep_view() =~= old(out).deep_view() + block_of(*w, highlight));
        }
    } else {
        proof {
            assert(out.deep_view() =~= old(out).deep_view() + block_of(*w, highlight));
        }
    }
}

/// Renders the full report of the completed workload set. A file destination
/// receives the set in its own order (most recently modified first) with
/// bare headers; the interactive destination receives the exact reverse
/// (most recently modified last) with highlighted headers. Workloads without
/// matches are skipped either way.
pub fn render_report<M: MatchEngine>(ws: &Vec<Workload<M>>, interactive: bool) -> (r: Vec<String>)
    ensures
        !interactive ==> r.deep_view() == report_of(ws@, false),
        interactive ==> r.deep_view() == report_of(ws@.reverse(), true),
{
    let mut out: Vec<String> = Vec::new();
    if interactive {
        let ghost rev = ws@.reverse();
        let mut j: usize = ws.len();
        while j > 0
            invariant
                j <= ws@.len(),
                rev == ws@.reverse(),
                out.deep_view() == report_of(rev.subrange(0, ws@.len() - j), true),
            decreases j,
        {
            j -= 1;
            let ghost done = rev.subrange(0, ws@.len() - j - 1);
            emit_block(&mut out, &ws[j], true);
            proof {
                assert(rev.subrange(0, ws@.len() - j) =~= done.push(ws@[j as int]));
                lemma_report_of_push(done, ws@[j as int], true);
            }
        }
        proof {
            assert(rev.subrange(0, ws@.len() as int) =~= rev);
        }
    } else {
        let mut idx: usize = 0;
        while idx < ws.len()
            invariant
                idx <= ws@.len(),
                out.deep_view() == report_of(ws@.subrange(0, idx as int), false),
            decreases ws@.len() - idx,
        {
            let ghost done = ws@.subrange(0, idx as int);
            emit_block(&mut out, &ws[idx], false);
            proof {
                assert(ws@.subrange(0, idx as int + 1) =~= done.push(ws@[idx as int]));
                lemma_report_of_push(done, ws@[idx as int], false);
            }
            idx += 1;
        }
        proof {
            assert(ws@.subrange(0, ws@.len() as int) =~= ws@);
        }
    }
    out
}

} // verus!
