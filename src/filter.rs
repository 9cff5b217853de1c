//! The fuzzy filter: narrows a listing to the entries a query matches,
//! annotated with the matched positions and ranked by score.
use crate::entry::{plain, views, Path, PathView};
use crate::order::{lemma_insert_at_first, sort_in_order};
use nucleo_matcher::pattern::{CaseMatching, Normalization, Pattern};
use nucleo_matcher::{Config, Matcher, Utf32Str};
use vstd::prelude::*;

verus! {

#[verifier::external_type_specification]
#[verifier::external_body]
pub struct ExMatcher(Matcher);

/// The longest name, in characters, that the filter matches: far beyond any
/// file system's limit on a name.
pub const NAME_LIMIT: usize = 2048;

/// What the fuzzy matcher makes of `name` for `query`: `None` when it does
/// not match, else the score and the matched character positions.
pub uninterp spec fn fuzzy_match(query: Seq<char>, name: Seq<char>) -> Option<(u32, Seq<u32>)>;

/// Relies on nucleo_matcher's `Matcher::new` with the path configuration:
/// working memory for matching.
#[verifier::external_body]
fn path_matcher() -> Matcher {
    Matcher::new(Config::DEFAULT.match_paths())
}

/// Relies on nucleo_matcher's `Pattern::parse` (case ignored, smart
/// normalization) and `Pattern::indices` under the path configuration, which
/// is set again on each call: the score and matched positions of `name`, or
/// `None`. They depend on the two texts alone. The matcher keeps each
/// atom's score in a `u16` and adds to it without saturating (about 25 per
/// matched character under this configuration), so names are held to
/// `NAME_LIMIT` characters, which keeps every score below `u16::MAX`.
#[verifier::external_body]
fn match_name(matcher: &mut Matcher, query: &str, name: &str) -> (r: Option<(u32, Vec<u32>)>)
    requires
        name@.len() <= NAME_LIMIT,
    ensures
        outcome_view(r) == fuzzy_match(query@, name@),
{
    matcher.config = Config::DEFAULT.match_paths();
    let pattern = Pattern::parse(query, CaseMatching::Ignore, Normalization::Smart);
    let mut buf = Vec::new();
    let mut indices = Vec::new();
    match pattern.indices(Utf32Str::new(name, &mut buf), matcher, &mut indices) {
        Some(score) => Some((score, indices)),
        None => None,
    }
}

/// The value of one match outcome.
pub open spec fn outcome_view(o: Option<(u32, Vec<u32>)>) -> Option<(u32, Seq<u32>)> {
    match o {
        Some((score, indices)) => Some((score, indices@)),
        None => None,
    }
}

/// The values of a sequence of match outcomes.
pub open spec fn outcome_views(s: Seq<Option<(u32, Vec<u32>)>>) -> Seq<Option<(u32, Seq<u32>)>> {
    s.map_values(|o: Option<(u32, Vec<u32>)>| outcome_view(o))
}

/// The entry annotated with the positions of a match, paired with its score.
pub open spec fn annotate(e: PathView, score: u32, indices: Seq<u32>) -> (PathView, u32) {
    (PathView { value: e.value, kind: e.kind, match_indices: indices }, score)
}

/// The first `n` entries that matched, in their order, each annotated with
/// its outcome.
pub open spec fn annotated(
    entries: Seq<PathView>,
    outcomes: Seq<Option<(u32, Seq<u32>)>>,
    n: nat,
) -> Seq<(PathView, u32)>
    decreases n,
{
    if n == 0 {
        seq![]
    } else {
        let rest = annotated(entries, outcomes, (n - 1) as nat);
        match outcomes[n - 1] {
            Some((score, indices)) => rest.push(annotate(entries[n - 1], score, indices)),
            None => rest,
        }
    }
}

/// Ranking order: a higher score goes first.
pub open spec fn by_score() -> spec_fn((PathView, u32), (PathView, u32)) -> bool {
    |a: (PathView, u32), b: (PathView, u32)| a.1 > b.1
}

/// The matched entries, by descending score; entries of equal score keep
/// their order from `entries`.
pub open spec fn ranked(entries: Seq<PathView>, outcomes: Seq<Option<(u32, Seq<u32>)>>) -> Seq<
    PathView,
> {
    sort_in_order(annotated(entries, outcomes, entries.len()), by_score()).map_values(
        |m: (PathView, u32)| m.0,
    )
}

/// The matcher's outcome for each entry.
pub open spec fn outcomes_of(query: Seq<char>, entries: Seq<PathView>) -> Seq<
    Option<(u32, Seq<u32>)>,
> {
    entries.map_values(|e: PathView| fuzzy_match(query, e.value))
}

/// What the filter shows for `query`: with an empty query every entry,
/// unchanged but for its match positions, which are cleared; else the
/// matching entries ranked by score.
pub open spec fn filtered(query: Seq<char>, entries: Seq<PathView>) -> Seq<PathView> {
    if query.len() == 0 {
        entries.map_values(|e: PathView| plain(e))
    } else {
        ranked(entries, outcomes_of(query, entries))
    }
}

/// Every name is short enough for the matcher: at most `NAME_LIMIT`
/// characters.
pub open spec fn names_fit(entries: Seq<PathView>) -> bool {
    forall|i: int| 0 <= i < entries.len() ==> (#[trigger] entries[i]).value.len() <= NAME_LIMIT
}

/// Pairs positionally two sequences of equal length.
pub open spec fn zipped(paths: Seq<PathView>, scores: Seq<u32>) -> Seq<(PathView, u32)> {
    Seq::new(paths.len(), |k: int| (paths[k], scores[k]))
}

/// Ranks `entries` given the matcher's outcome for each: drops those that
/// did not match, annotates the others with their positions, and orders them
/// by descending score, keeping the given order among equal scores.
pub fn rank(entries: &Vec<Path>, outcomes: Vec<Option<(u32, Vec<u32>)>>) -> (r: Vec<Path>)
    requires
        outcomes.len() == entries.len(),
    ensures
        views(r@) == ranked(views(entries@), outcome_views(outcomes@)),
{
    let ghost es = views(entries@);
    let ghost os = outcome_views(outcomes@);
    let mut rest = outcomes;
    let mut out: Vec<Path> = Vec::new();
    let mut scores: Vec<u32> = Vec::new();
    let mut i: usize = 0;
    proof {
        assert(zipped(views(out@), scores@) =~= Seq::<(PathView, u32)>::empty());
    }
    while i < entries.len()
        invariant
            i <= entries.len(),
            es == views(entries@),
            os.len() == entries.len(),
            rest@.len() + i == entries.len(),
            outcome_views(rest@) == os.subrange(i as int, os.len() as int),
            out.len() == scores.len(),
            zipped(views(out@), scores@) == sort_in_order(annotated(es, os, i as nat), by_score()),
        decreases entries.len() - i,
    {
        let ghost old_rest = rest@;
        let outcome = rest.remove(0);
        proof {
            assert(outcome_views(old_rest)[0] == os.subrange(i as int, os.len() as int)[0]);
            assert(outcome_view(outcome) == os[i as int]);
            assert(rest@ =~= old_rest.subrange(1, old_rest.len() as int));
            assert forall|k: int| 0 <= k < rest@.len() implies outcome_views(rest@)[k]
                == os.subrange(i + 1, os.len() as int)[k] by {
                assert(outcome_views(old_rest)[k + 1] == outcome_view(old_rest[k + 1]));
            }
            assert(outcome_views(rest@) =~= os.subrange(i + 1, os.len() as int));
        }
        match outcome {
            Some((score, indices)) => {
                let e = &entries[i];
                let item = Path::with_match_indices(e.value.clone(), e.kind, indices);
                let ghost z = zipped(views(out@), scores@);
                let ghost m = annotate(es[i as int], score, os[i as int]->Some_0.1);
                proof {
                    assert(item@ == m.0);
                }
                let mut k: usize = 0;
                while k < scores.len() && !(score > scores[k])
                    invariant
                        k <= scores.len(),
                        scores.len() == out.len(),
                        z == zipped(views(out@), scores@),
                        m.1 == score,
                        forall|j: int| 0 <= j < k ==> !by_score()(m, #[trigger] z[j]),
                    decreases scores.len() - k,
                {
                    k = k + 1;
                }
                proof {
                    lemma_insert_at_first(z, m, by_score(), k as int);
                }
                let ghost old_out = out@;
                let ghost old_scores = scores@;
                out.insert(k, item);
                scores.insert(k, score);
                proof {
                    assert(views(out@) =~= views(old_out).insert(k as int, item@));
                    assert(zipped(views(out@), scores@) =~= z.insert(k as int, m));
                    assert(annotated(es, os, (i + 1) as nat) == annotated(es, os, i as nat).push(m));
                    let a = annotated(es, os, (i + 1) as nat);
                    assert(a.drop_last() =~= annotated(es, os, i as nat));
                }
            },
            None => {
                proof {
                    assert(annotated(es, os, (i + 1) as nat) == annotated(es, os, i as nat));
                }
            },
        }
        i = i + 1;
    }
    proof {
        let a = annotated(es, os, es.len());
        let z = zipped(views(out@), scores@);
        assert(views(out@) =~= z.map_values(|m: (PathView, u32)| m.0));
    }
    out
}

/// The filter engine: holds the matcher's working memory between queries.
pub struct FuzzyFilter {
    matcher: Matcher,
}

impl FuzzyFilter {
    /// A filter ready for queries.
    pub fn new() -> (r: FuzzyFilter) {
        FuzzyFilter { matcher: path_matcher() }
    }

    /// The entries of `entries` that `query` selects, as `filtered` states:
    /// all of them, without match positions, for an empty query; else those
    /// the matcher accepts, annotated and ranked by descending score, equal
    /// scores in listing order.
    pub fn apply(&mut self, query: &str, entries: &Vec<Path>) -> (r: Vec<Path>)
        requires
            names_fit(views(entries@)),
        ensures
            views(r@) == filtered(query@, views(entries@)),
    {
        let ghost es = views(entries@);
        if query.is_empty() {
            let mut out: Vec<Path> = Vec::new();
            for i in 0..entries.len()
                invariant
                    es == views(entries@),
                    views(out@) == es.take(i as int).map_values(|e: PathView| plain(e)),
            {
                let ghost before = out@;
                out.push(entries[i].plain_copy());
                proof {
                    assert(views(out@) =~= views(before).push(plain(es[i as int])));
                    assert(es.take(i + 1).map_values(|e: PathView| plain(e)) =~= es.take(
                        i as int,
                    ).map_values(|e: PathView| plain(e)).push(plain(es[i as int])));
                }
            }
            proof {
                assert(es.take(es.len() as int) =~= es);
            }
            return out;
        }
        let mut outcomes: Vec<Option<(u32, Vec<u32>)>> = Vec::new();
        for i in 0..entries.len()
            invariant
                es == views(entries@),
                names_fit(es),
                outcome_views(outcomes@) == outcomes_of(query@, es).take(i as int),
        {
            let ghost before = outcomes@;
            proof {
                assert(es[i as int].value.len() <= NAME_LIMIT);
            }
            let o = match_name(&mut self.matcher, query, entries[i].value.as_str());
            outcomes.push(o);
            proof {
                assert(outcome_views(outcomes@) =~= outcome_views(before).push(outcome_view(o)));
                assert(outcomes_of(query@, es).take(i + 1) =~= outcomes_of(query@, es).take(
                    i as int,
                ).push(fuzzy_match(query@, es[i as int].value)));
            }
        }
        proof {
            assert(outcomes_of(query@, es).take(es.len() as int) =~= outcomes_of(query@, es));
        }
        rank(entries, outcomes)
    }
}

} // verus!
