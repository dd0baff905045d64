//! From a query and a corpus to the record that answers it.

use crate::prefilter::Prefilter;
use crate::query::{query_error, query_view, QueryConfig, QueryError, QueryView};
use crate::rank::{
    all_flagged, capped, is_ranked, is_ranking_of, list_views, merged, rank, ranked_views,
    results_wf, RankedResult, RankedView,
};
use crate::scan::{
    candidate_views, candidates_of, ratios_wf, scan_file, segment_views, CandidateView,
    MatchCandidate, Segment,
};
use crate::text::string_from_chars;
use vstd::prelude::*;

verus! {

/// One file of the corpus, read and parsed.
pub struct CorpusFile {
    pub name: String,
    pub segments: Vec<Segment>,
}

/// What a search that found nothing suggests.
#[derive(Clone, Copy, Debug, PartialEq, Eq, Structural)]
pub enum Suggestion {
    /// Check the spelling of the query.
    CheckInput,
    /// Lower the least match ratio, which is `current` now.
    LowerMinRatio { current: i64 },
    /// Lower the least prior similarity, which is `current` now.
    LowerMinSimilarity { current: i64 },
    /// Use a shorter query.
    ShorterQuery,
}

/// What is said where nothing matched: the query, for the message, and the
/// suggestions.
pub struct Guidance {
    pub query: String,
    pub suggestions: Vec<Suggestion>,
}

/// The record of a search that ran.
pub struct SearchResponse {
    /// The results, in ranked order.
    pub data: Vec<RankedResult>,
    /// How many results there are.
    pub count: usize,
    /// Where the corpus lies.
    pub folder: String,
    /// The result cap as it is shown: its number, or `unlimited`.
    pub max_results: String,
    /// Present exactly where there is no result.
    pub guidance: Option<Guidance>,
}

/// The answer to a request: the refusal of the query, or the record of the
/// search.
pub enum Response {
    Error(QueryError),
    Success(SearchResponse),
}

/// The character of the digit `d`.
pub open spec fn digit_char(d: int) -> char {
    if d == 0 {
        '0'
    } else if d == 1 {
        '1'
    } else if d == 2 {
        '2'
    } else if d == 3 {
        '3'
    } else if d == 4 {
        '4'
    } else if d == 5 {
        '5'
    } else if d == 6 {
        '6'
    } else if d == 7 {
        '7'
    } else if d == 8 {
        '8'
    } else {
        '9'
    }
}

/// The digits of `n` in base ten, without leading zeros.
pub open spec fn decimal(n: nat) -> Seq<char>
    decreases n,
{
    if n < 10 {
        seq![digit_char(n as int)]
    } else {
        decimal(n / 10).push(digit_char((n % 10) as int))
    }
}

/// The result cap as it is shown.
pub open spec fn cap_display(cap: Option<usize>) -> Seq<char> {
    match cap {
        Some(cap) => decimal(cap as nat),
        None => "unlimited"@,
    }
}

/// The suggestions of a search that found nothing.
pub open spec fn suggestions_for(min_ratio: i64, min_similarity: i64) -> Seq<Suggestion> {
    seq![
        Suggestion::CheckInput,
        Suggestion::LowerMinRatio { current: min_ratio },
        Suggestion::LowerMinSimilarity { current: min_similarity },
        Suggestion::ShorterQuery,
    ]
}

/// The candidates of each file of a corpus.
pub open spec fn corpus_candidates(query: QueryView, corpus: Seq<CorpusFile>) -> Seq<
    Seq<CandidateView>,
> {
    Seq::new(
        corpus.len(),
        |i: int|
            candidates_of(
                query,
                corpus[i].name@,
                segment_views(corpus[i].segments@),
                corpus[i].segments@.len() as int,
            ),
    )
}

/// All the candidates of a corpus, file after file, each with its flag.
pub open spec fn corpus_pool(query: QueryView, corpus: Seq<CorpusFile>) -> Seq<RankedView> {
    all_flagged(merged(corpus_candidates(query, corpus), corpus.len() as int), query.words)
}

/// Appends the digits of `n` to `out`.
fn push_decimal(n: usize, out: &mut Vec<char>)
    ensures
        final(out)@ == old(out)@ + decimal(n as nat),
    decreases n,
{
    if n >= 10 {
        push_decimal(n / 10, out);
    }
    let d = n % 10;
    let c = if d == 0 {
        '0'
    } else if d == 1 {
        '1'
    } else if d == 2 {
        '2'
    } else if d == 3 {
        '3'
    } else if d == 4 {
        '4'
    } else if d == 5 {
        '5'
    } else if d == 6 {
        '6'
    } else if d == 7 {
        '7'
    } else if d == 8 {
        '8'
    } else {
        '9'
    };
    let ghost before = out@;
    out.push(c);
    assert(out@ =~= old(out)@ + decimal(n as nat)) by {
        if n >= 10 {
            assert(before == old(out)@ + decimal((n / 10) as nat));
        }
    }
}

/// The result cap as it is shown: its number, or `unlimited`.
pub fn show_cap(cap: Option<usize>) -> (s: String)
    ensures
        s@ == cap_display(cap),
{
    match cap {
        Some(cap) => {
            let mut digits: Vec<char> = Vec::new();
            push_decimal(cap, &mut digits);
            string_from_chars(&digits)
        },
        None => "unlimited".to_owned(),
    }
}

/// The record of a search with the results `results`.
pub fn assemble(results: Vec<RankedResult>, config: &QueryConfig, folder: &str) -> (response:
    SearchResponse)
    ensures
        response.data == results,
        response.count == results@.len(),
        response.folder@ == folder@,
        response.max_results@ == cap_display(config.max_results),
        response.guidance is Some <==> results@.len() == 0,
        match response.guidance {
            Some(guidance) => guidance.query@ == config.raw_query@ && guidance.suggestions@
                == suggestions_for(config.min_ratio, config.min_similarity),
            None => true,
        },
{
    let count = results.len();
    let guidance = if count == 0 {
        let mut suggestions: Vec<Suggestion> = Vec::new();
        suggestions.push(Suggestion::CheckInput);
        suggestions.push(Suggestion::LowerMinRatio { current: config.min_ratio });
        suggestions.push(Suggestion::LowerMinSimilarity { current: config.min_similarity });
        suggestions.push(Suggestion::ShorterQuery);
        assert(suggestions@ =~= suggestions_for(config.min_ratio, config.min_similarity));
        Some(Guidance { query: config.raw_query.clone(), suggestions })
    } else {
        None
    };
    SearchResponse {
        data: results,
        count,
        folder: folder.to_owned(),
        max_results: show_cap(config.max_results),
        guidance,
    }
}

/// Scans every file of `corpus` and ranks what qualifies.
pub fn search_corpus(config: &QueryConfig, prefilter: &Prefilter, corpus: &Vec<CorpusFile>) -> (ranked:
    Vec<RankedResult>)
    requires
        config.wf(),
        prefilter.wf(),
        prefilter.patterns() == config@.words,
    ensures
        is_ranking_of(ranked_views(ranked@), corpus_pool(config@, corpus@), config.max_results),
        is_ranked(ranked_views(ranked@)),
        results_wf(ranked_views(ranked@)),
        ranked@.len() == capped(config.max_results, corpus_pool(config@, corpus@).len()),
{
    let ghost wanted = corpus_candidates(config@, corpus@);
    let mut lists: Vec<Vec<MatchCandidate>> = Vec::new();
    let mut k: usize = 0;
    assert(merged(list_views(lists@), 0) =~= merged(wanted, 0));
    while k < corpus.len()
        invariant
            config.wf(),
            prefilter.wf(),
            prefilter.patterns() == config@.words,
            wanted == corpus_candidates(config@, corpus@),
            k <= corpus@.len(),
            forall|i: int| 0 <= i < lists@.len() ==> ratios_wf(#[trigger] list_views(lists@)[i]),
            merged(list_views(lists@), lists@.len() as int) == merged(wanted, k as int),
        decreases corpus@.len() - k,
    {
        let file = &corpus[k];
        let found = scan_file(config, prefilter, file.name.as_str(), &file.segments);
        assert(candidate_views(found@) == wanted[k as int]);
        if found.len() > 0 {
            let ghost before = lists@;
            lists.push(found);
            assert(list_views(lists@) =~= list_views(before).push(wanted[k as int]));
            assert(merged(list_views(lists@), lists@.len() as int) == merged(wanted, k + 1)) by {
                lemma_merged_prefix(list_views(lists@), list_views(before), before.len() as int);
            }
        } else {
            assert(merged(wanted, k + 1) =~= merged(wanted, k as int));
        }
        k += 1;
    }
    rank(lists, config, prefilter)
}

/// What the first `k` lists hold does not depend on the lists after them.
proof fn lemma_merged_prefix(a: Seq<Seq<CandidateView>>, b: Seq<Seq<CandidateView>>, k: int)
    requires
        k <= a.len(),
        k <= b.len(),
        forall|i: int| 0 <= i < k ==> a[i] == b[i],
    ensures
        merged(a, k) == merged(b, k),
    decreases k,
{
    if k > 0 {
        lemma_merged_prefix(a, b, k - 1);
    }
}

/// Answers a request: validates the query, and only if it is accepted scans
/// the corpus, ranks what qualifies and assembles the record.
pub fn run_search(
    raw_query: &str,
    min_ratio: i64,
    min_similarity: i64,
    max_results: Option<i32>,
    corpus: &Vec<CorpusFile>,
    folder: &str,
) -> (response: Response)
    ensures
        match response {
            Response::Error(e) => query_error(raw_query@, min_ratio, min_similarity, max_results)
                == Some(e),
            Response::Success(record) => {
                let query = query_view(raw_query@, min_ratio, min_similarity, max_results);
                &&& query_error(raw_query@, min_ratio, min_similarity, max_results) is None
                &&& is_ranking_of(
                    ranked_views(record.data@),
                    corpus_pool(query, corpus@),
                    query.max_results,
                )
                &&& is_ranked(ranked_views(record.data@))
                &&& results_wf(ranked_views(record.data@))
                &&& record.count == record.data@.len()
                &&& record.count == capped(query.max_results, corpus_pool(query, corpus@).len())
                &&& record.folder@ == folder@
                &&& record.max_results@ == cap_display(query.max_results)
                &&& record.guidance is Some <==> record.count == 0
                &&& match record.guidance {
                    Some(guidance) => guidance.query@ == raw_query@ && guidance.suggestions@
                        == suggestions_for(min_ratio, min_similarity),
                    None => true,
                }
                &&& corpus@.len() == 0 ==> record.count == 0
            },
        },
{
    match QueryConfig::new(raw_query, min_ratio, min_similarity, max_results) {
        Err(e) => Response::Error(e),
        Ok(config) => {
            let prefilter = Prefilter::new(&config.words);
            let ranked = search_corpus(&config, &prefilter, corpus);
            Response::Success(assemble(ranked, &config, folder))
        },
    }
}

} // verus!
