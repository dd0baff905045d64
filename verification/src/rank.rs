//! Merging the candidates of all files into one ranked list.

use crate::prefilter::{contains_all, Prefilter};
use crate::query::QueryConfig;
use crate::scan::{candidate_views, ratios_wf, CandidateView, MatchCandidate};
use crate::score::lemma_at_least_transitive;
use crate::text::{lowercase, Folded};
use rayon::slice::ParallelSliceMut;
use std::cmp::Ordering;
use vstd::prelude::*;

verus! {

/// A candidate with the flag that ranks it among its equals.
pub struct RankedResult {
    pub candidate: MatchCandidate,
    /// Every word of the query is a substring of the lowercase text.
    pub exact_match: bool,
}

/// What a ranked result holds.
pub struct RankedView {
    pub candidate: CandidateView,
    pub exact_match: bool,
}

impl View for RankedResult {
    type V = RankedView;

    open spec fn view(&self) -> RankedView {
        RankedView { candidate: self.candidate@, exact_match: self.exact_match }
    }
}

/// What the results of `results` hold.
pub open spec fn ranked_views(results: Seq<RankedResult>) -> Seq<RankedView> {
    Seq::new(results.len(), |i: int| results[i]@)
}

/// `a` must come before `b`: its ratio is greater, or the ratios are equal
/// and only `a` holds every word of the query.
pub open spec fn ranks_before(a: RankedView, b: RankedView) -> bool {
    a.candidate.match_ratio.exceeds(b.candidate.match_ratio) || (
    !b.candidate.match_ratio.exceeds(a.candidate.match_ratio) && a.exact_match && !b.exact_match)
}

/// No result of `results` must come before an earlier one: the ratios
/// descend, and among equal ratios the results that hold every word of the
/// query come first.
pub open spec fn is_ranked(results: Seq<RankedView>) -> bool {
    forall|i: int, j: int|
        0 <= i < j < results.len() ==> !ranks_before(#[trigger] results[j], #[trigger] results[i])
}

/// Of two results at most one must come before the other.
pub proof fn lemma_ranks_before_asymmetric(a: RankedView, b: RankedView)
    ensures
        !(ranks_before(a, b) && ranks_before(b, a)),
{
}

/// The order of results is transitive.
pub proof fn lemma_ranks_before_transitive(a: RankedView, b: RankedView, c: RankedView)
    requires
        a.candidate.match_ratio.wf(),
        b.candidate.match_ratio.wf(),
        c.candidate.match_ratio.wf(),
        ranks_before(a, b),
        ranks_before(b, c),
    ensures
        ranks_before(a, c),
{
    let (x, y, z) = (a.candidate.match_ratio, b.candidate.match_ratio, c.candidate.match_ratio);
    lemma_at_least_transitive(x, y, z);
    if z.exceeds(x) || !x.exceeds(z) {
        // Then z is at least x, which is at least y, which is at least z.
        lemma_at_least_transitive(z, x, y);
        lemma_at_least_transitive(y, z, x);
    }
}

/// Results of which none must come before the other are all alike in that:
/// to be tied is transitive.
pub proof fn lemma_ranking_ties_transitive(a: RankedView, b: RankedView, c: RankedView)
    requires
        a.candidate.match_ratio.wf(),
        b.candidate.match_ratio.wf(),
        c.candidate.match_ratio.wf(),
        !ranks_before(a, b) && !ranks_before(b, a),
        !ranks_before(b, c) && !ranks_before(c, b),
    ensures
        !ranks_before(a, c) && !ranks_before(c, a),
{
    let (x, y, z) = (a.candidate.match_ratio, b.candidate.match_ratio, c.candidate.match_ratio);
    lemma_at_least_transitive(x, y, z);
    lemma_at_least_transitive(z, y, x);
}

/// The order of two results: `Less` where `a` must come first, `Greater`
/// where `b` must, `Equal` where neither must.
pub fn rank_order(a: &RankedResult, b: &RankedResult) -> (o: Ordering)
    ensures
        (o is Less) == ranks_before(a@, b@),
        (o is Greater) == ranks_before(b@, a@),
{
    if a.candidate.match_ratio.is_above(&b.candidate.match_ratio) {
        Ordering::Less
    } else if b.candidate.match_ratio.is_above(&a.candidate.match_ratio) {
        Ordering::Greater
    } else if a.exact_match && !b.exact_match {
        Ordering::Less
    } else if b.exact_match && !a.exact_match {
        Ordering::Greater
    } else {
        Ordering::Equal
    }
}

/// Calls rayon's `par_sort_unstable_by` with `rank_order`, which orders
/// results totally where every ratio is well formed. The sort keeps what
/// the vector holds and leaves it in that order; which of two tied results
/// comes first is open.
#[verifier::external_body]
fn sort_ranked(results: &mut Vec<RankedResult>)
    requires
        forall|i: int|
            0 <= i < old(results)@.len() ==> (#[trigger] old(
                results,
            )@[i]).candidate.match_ratio.wf(),
    ensures
        ranked_views(final(results)@).to_multiset() == ranked_views(old(results)@).to_multiset(),
        is_ranked(ranked_views(final(results)@)),
{
    results.par_sort_unstable_by(|a, b| rank_order(a, b));
}

/// What the candidate lists of `lists` hold.
pub open spec fn list_views(lists: Seq<Vec<MatchCandidate>>) -> Seq<Seq<CandidateView>> {
    Seq::new(lists.len(), |i: int| candidate_views(lists[i]@))
}

/// The first `k` lists, one after the other.
pub open spec fn merged(lists: Seq<Seq<CandidateView>>, k: int) -> Seq<CandidateView>
    decreases k,
{
    if k <= 0 {
        Seq::empty()
    } else {
        merged(lists, k - 1) + lists[k - 1]
    }
}

/// A candidate with its flag: whether every one of `words` is a substring
/// of its lowercase text.
pub open spec fn flagged(candidate: CandidateView, words: Seq<Seq<char>>) -> RankedView {
    RankedView { candidate, exact_match: contains_all(lowercase(candidate.text), words) }
}

/// Each candidate of `candidates` with its flag.
pub open spec fn all_flagged(candidates: Seq<CandidateView>, words: Seq<Seq<char>>) -> Seq<
    RankedView,
> {
    Seq::new(candidates.len(), |i: int| flagged(candidates[i], words))
}

/// How many of `count` results a cap lets through.
pub open spec fn capped(cap: Option<usize>, count: nat) -> nat {
    match cap {
        Some(cap) => if cap <= count {
            cap as nat
        } else {
            count
        },
        None => count,
    }
}

/// `results` is the head of a ranking of `pool`: of some `all` that holds
/// what `pool` holds, in ranked order, it is as many as the cap lets
/// through.
pub open spec fn is_ranking_of(
    results: Seq<RankedView>,
    pool: Seq<RankedView>,
    cap: Option<usize>,
) -> bool {
    exists|all: Seq<RankedView>|
        #![trigger all.to_multiset()]
        all.to_multiset() == pool.to_multiset() && is_ranked(all) && results == all.take(
            capped(cap, all.len()) as int,
        )
}

/// Every match ratio of `results` lies between 0 % and 100 %.
pub open spec fn results_wf(results: Seq<RankedView>) -> bool {
    forall|i: int| 0 <= i < results.len() ==> (#[trigger] results[i]).candidate.match_ratio.wf()
}

/// What holds of every result of a pool holds of every result of its
/// rankings.
pub proof fn lemma_ranking_keeps_ratios(
    results: Seq<RankedView>,
    pool: Seq<RankedView>,
    cap: Option<usize>,
)
    requires
        is_ranking_of(results, pool, cap),
        results_wf(pool),
    ensures
        results_wf(results),
{
    let all = choose|all: Seq<RankedView>|
        #![trigger all.to_multiset()]
        all.to_multiset() == pool.to_multiset() && is_ranked(all) && results == all.take(
            capped(cap, all.len()) as int,
        );
    all.to_multiset_ensures();
    pool.to_multiset_ensures();
    assert forall|i: int| 0 <= i < results.len() implies (
    #[trigger] results[i]).candidate.match_ratio.wf() by {
        assert(results[i] == all[i]);
        assert(all.contains(all[i]));
        assert(all.to_multiset().count(all[i]) > 0);
        assert(pool.to_multiset().count(all[i]) > 0);
        assert(pool.contains(all[i]));
        let j = choose|j: int| 0 <= j < pool.len() && pool[j] == all[i];
        assert(pool[j].candidate.match_ratio.wf());
    }
}

/// Merges the candidates of all files, flags those that hold every word of
/// the query, ranks them and keeps as many as the cap of the query lets
/// through.
pub fn rank(lists: Vec<Vec<MatchCandidate>>, config: &QueryConfig, prefilter: &Prefilter) -> (ranked:
    Vec<RankedResult>)
    requires
        config.wf(),
        prefilter.wf(),
        prefilter.patterns() == config@.words,
        forall|i: int| 0 <= i < lists@.len() ==> ratios_wf(#[trigger] list_views(lists@)[i]),
    ensures
        is_ranking_of(
            ranked_views(ranked@),
            all_flagged(merged(list_views(lists@), lists@.len() as int), config@.words),
            config.max_results,
        ),
        is_ranked(ranked_views(ranked@)),
        results_wf(ranked_views(ranked@)),
        ranked@.len() == capped(
            config.max_results,
            merged(list_views(lists@), lists@.len() as int).len(),
        ),
{
    let ghost views = list_views(lists@);
    let ghost words = config@.words;
    let mut pool: Vec<RankedResult> = Vec::new();
    assert(ranked_views(pool@) =~= all_flagged(merged(views, 0), words));
    for list in outer: lists
        invariant
            config.wf(),
            prefilter.wf(),
            prefilter.patterns() == config@.words,
            words == config@.words,
            outer.seq() == lists@,
            views == list_views(lists@),
            forall|i: int| 0 <= i < lists@.len() ==> ratios_wf(#[trigger] views[i]),
            ranked_views(pool@) == all_flagged(merged(views, outer.index() as int), words),
            forall|i: int|
                0 <= i < pool@.len() ==> (#[trigger] pool@[i]).candidate.match_ratio.wf(),
    {
        let ghost done = pool@;
        let ghost k = outer.index() as int;
        let ghost these = candidate_views(list@);
        assert(views[k] == these);
        for candidate in inner: list
            invariant
                config.wf(),
                prefilter.wf(),
                prefilter.patterns() == config@.words,
                words == config@.words,
                inner.seq() == list@,
                these == candidate_views(list@),
                ratios_wf(these),
                ranked_views(pool@) == ranked_views(done) + all_flagged(
                    these.take(inner.index() as int),
                    words,
                ),
                forall|i: int|
                    0 <= i < pool@.len() ==> (#[trigger] pool@[i]).candidate.match_ratio.wf(),
        {
            let ghost before = pool@;
            let ghost j = inner.index() as int;
            assert(these[j] == candidate@);
            let folded = Folded::new(candidate.text.as_str());
            let exact_match = prefilter.all_present(&folded);
            pool.push(RankedResult { candidate, exact_match });
            assert(ranked_views(pool@) =~= ranked_views(done) + all_flagged(
                these.take(j + 1),
                words,
            )) by {
                let earlier = ranked_views(done) + all_flagged(these.take(j), words);
                let now = ranked_views(done) + all_flagged(these.take(j + 1), words);
                assert(ranked_views(before).len() == before.len());
                assert(earlier.len() == done.len() + j);
                assert forall|i: int| 0 <= i < now.len() implies ranked_views(pool@)[i]
                    == now[i] by {
                    if i < before.len() {
                        assert(ranked_views(pool@)[i] == ranked_views(before)[i]);
                        assert(earlier[i] == now[i]);
                    }
                }
            }
        }
        assert(these.take(list@.len() as int) =~= these);
        assert(ranked_views(pool@) =~= all_flagged(merged(views, k + 1), words));
    }
    let ghost merged_pool = ranked_views(pool@);
    assert(results_wf(merged_pool));
    sort_ranked(&mut pool);
    let ghost all = ranked_views(pool@);
    proof {
        all.to_multiset_ensures();
        merged_pool.to_multiset_ensures();
    }
    match config.max_results {
        Some(cap) => {
            pool.truncate(cap);
        },
        None => {},
    }
    assert(ranked_views(pool@) =~= all.take(capped(config.max_results, all.len()) as int));
    proof {
        lemma_ranking_keeps_ratios(ranked_views(pool@), merged_pool, config.max_results);
    }
    pool
}

} // verus!
