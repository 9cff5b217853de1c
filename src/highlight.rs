//! Splitting an entry's name into runs of matched and unmatched characters,
//! for display.
use vstd::prelude::*;
use vstd::string::StrSliceExecFns;

verus! {

/// A run of characters, all matched (`bold`) or all unmatched.
#[derive(Debug)]
pub struct Span {
    pub content: String,
    pub bold: bool,
}

/// A name split into runs.
#[derive(Debug)]
pub struct HighlightedLine {
    pub spans: Vec<Span>,
}

/// Character position `k` is one of `indices`.
pub open spec fn marked(indices: Seq<u32>, k: int) -> bool {
    exists|j: int| 0 <= j < indices.len() && indices[j] as int == k
}

/// The values of a sequence of spans.
pub open spec fn span_views(s: Seq<Span>) -> Seq<(Seq<char>, bool)> {
    s.map_values(|x: Span| (x.content@, x.bold))
}

/// The text the runs spell, in order.
pub open spec fn spelled(runs: Seq<(Seq<char>, bool)>) -> Seq<char>
    decreases runs.len(),
{
    if runs.len() == 0 {
        seq![]
    } else {
        spelled(runs.drop_last()) + runs.last().0
    }
}

/// Run `k` is non-empty, its characters are marked exactly when it is bold,
/// and it differs in boldness from the run before it.
pub open spec fn run_fits(runs: Seq<(Seq<char>, bool)>, indices: Seq<u32>, k: int) -> bool {
    &&& runs[k].0.len() > 0
    &&& uniform(indices, spelled(runs.take(k)).len() as int, runs[k].0.len() as int, runs[k].1)
    &&& k > 0 ==> runs[k - 1].1 != runs[k].1
}

/// Positions `start .. start + len` are all marked, or all unmarked, as
/// `bold` says.
pub open spec fn uniform(indices: Seq<u32>, start: int, len: int, bold: bool) -> bool {
    forall|p: int| start <= p < start + len ==> #[trigger] marked(indices, p) == bold
}

/// The runs are the maximal runs of equal boldness.
pub open spec fn maximal_runs(runs: Seq<(Seq<char>, bool)>, indices: Seq<u32>) -> bool {
    forall|k: int| 0 <= k < runs.len() ==> run_fits(runs, indices, k)
}

/// Whether position `k` is among `indices`.
fn is_marked(indices: &[u32], k: usize) -> (r: bool)
    ensures
        r == marked(indices@, k as int),
{
    for j in 0..indices.len()
        invariant
            forall|i: int| 0 <= i < j ==> indices@[i] as int != k,
    {
        if indices[j] as usize == k {
            return true;
        }
    }
    false
}

proof fn lemma_push_run(runs: Seq<(Seq<char>, bool)>, x: (Seq<char>, bool), indices: Seq<u32>)
    requires
        maximal_runs(runs, indices),
        x.0.len() > 0,
        uniform(indices, spelled(runs).len() as int, x.0.len() as int, x.1),
        runs.len() > 0 ==> runs.last().1 != x.1,
    ensures
        maximal_runs(runs.push(x), indices),
        spelled(runs.push(x)) == spelled(runs) + x.0,
{
    let s = runs.push(x);
    assert(s.drop_last() =~= runs);
    assert forall|k: int| 0 <= k < s.len() implies run_fits(s, indices, k) by {
        if k < runs.len() {
            assert(s.take(k) =~= runs.take(k));
            assert(run_fits(runs, indices, k));
        } else {
            assert(s.take(k) =~= runs);
        }
    }
}

/// Splits `value` into maximal runs of characters that are, or are not, at
/// one of `match_indices`; the runs spell `value` in order. An empty name
/// gives no runs, and a name with no matched position a single plain run.
pub fn build_highlighted_line(value: &str, match_indices: &[u32]) -> (r: HighlightedLine)
    ensures
        spelled(span_views(r.spans@)) == value@,
        maximal_runs(span_views(r.spans@), match_indices@),
{
    let ghost ix = match_indices@;
    let n = value.unicode_len();
    let mut spans: Vec<Span> = Vec::new();
    let mut current = String::new();
    let mut is_bold = false;
    let mut idx: usize = 0;
    while idx < n
        invariant
            n == value@.len(),
            idx <= n,
            ix == match_indices@,
            maximal_runs(span_views(spans@), ix),
            spelled(span_views(spans@)) + current@ == value@.take(idx as int),
            uniform(ix, spelled(span_views(spans@)).len() as int, current@.len() as int, is_bold),
            current@.len() == 0 ==> spelled(span_views(spans@)).len() == idx,
            spans@.len() > 0 ==> span_views(spans@).last().1 != is_bold,
            spans@.len() > 0 ==> current@.len() > 0,
        decreases n - idx,
    {
        let ch = value.get_char(idx);
        let should_be_bold = is_marked(match_indices, idx);
        if should_be_bold != is_bold {
            if !current.as_str().is_empty() {
                proof {
                    assert(current@.len() > 0);
                    lemma_push_run(span_views(spans@), (current@, is_bold), ix);
                }
                let ghost before = spans@;
                spans.push(Span { content: current, bold: is_bold });
                proof {
                    assert(span_views(spans@) =~= span_views(before).push((current@, is_bold)));
                }
                current = String::new();
            } else {
                proof {
                    assert(current@.len() == 0);
                }
            }
            is_bold = should_be_bold;
        }
        let ghost prev = current@;
        current.push(ch);
        proof {
            assert(value@.take(idx + 1) =~= value@.take(idx as int).push(ch));
            let start = spelled(span_views(spans@)).len() as int;
            assert forall|p: int| start <= p < start + current@.len() implies #[trigger] marked(
                ix,
                p,
            ) == is_bold by {
                if p < start + prev.len() {
                } else {
                    assert(p == idx);
                }
            }
        }
        idx = idx + 1;
    }
    if !current.as_str().is_empty() {
        proof {
            assert(current@.len() > 0);
            lemma_push_run(span_views(spans@), (current@, is_bold), ix);
        }
        let ghost before = spans@;
        spans.push(Span { content: current, bold: is_bold });
        proof {
            assert(span_views(spans@) =~= span_views(before).push((current@, is_bold)));
        }
    } else {
        proof {
            assert(current@.len() == 0);
        }
    }
    proof {
        assert(value@.take(n as int) =~= value@);
    }
    HighlightedLine { spans }
}

} // verus!
