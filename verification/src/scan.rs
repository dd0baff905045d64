//! Scoring the lines of one corpus file against a query.
//!
//! A query of several words is scored by disjoint matching, not by the
//! least partial ratio of its words; a query of one word by its
//! longest-common-subsequence ratio, not by its partial ratio.

use crate::disjoint::{disjoint_score, multi_word_ratio_folded};
use crate::lcs::{lcs_ratio_folded, lcs_score};
use crate::prefilter::{contains_all, Prefilter};
use crate::query::{QueryConfig, QueryView};
use crate::score::Score;
use crate::text::{contains, lowercase, Folded};
use vstd::prelude::*;

verus! {

/// One line of a corpus file.
pub struct Segment {
    /// When the line is shown; it is passed on as it is.
    pub timestamp: String,
    /// The relevance that the corpus gives the line, in millionths.
    pub prior_similarity: i64,
    /// The text that is searched.
    pub text: String,
}

/// What a segment holds.
pub struct SegmentView {
    pub timestamp: Seq<char>,
    pub prior_similarity: i64,
    pub text: Seq<char>,
}

impl View for Segment {
    type V = SegmentView;

    open spec fn view(&self) -> SegmentView {
        SegmentView {
            timestamp: self.timestamp@,
            prior_similarity: self.prior_similarity,
            text: self.text@,
        }
    }
}

/// A line that qualified, with its match ratio.
pub struct MatchCandidate {
    /// The name of the file that holds the line.
    pub source_file: String,
    /// The place of the line in its file, counted from 0.
    pub index: usize,
    pub timestamp: String,
    pub prior_similarity: i64,
    pub text: String,
    pub match_ratio: Score,
}

/// What a candidate holds.
pub struct CandidateView {
    pub source_file: Seq<char>,
    pub index: int,
    pub timestamp: Seq<char>,
    pub prior_similarity: i64,
    pub text: Seq<char>,
    pub match_ratio: Score,
}

impl View for MatchCandidate {
    type V = CandidateView;

    open spec fn view(&self) -> CandidateView {
        CandidateView {
            source_file: self.source_file@,
            index: self.index as int,
            timestamp: self.timestamp@,
            prior_similarity: self.prior_similarity,
            text: self.text@,
            match_ratio: self.match_ratio,
        }
    }
}

/// What the segments of `segments` hold.
pub open spec fn segment_views(segments: Seq<Segment>) -> Seq<SegmentView> {
    Seq::new(segments.len(), |i: int| segments[i]@)
}

/// What the candidates of `candidates` hold.
pub open spec fn candidate_views(candidates: Seq<MatchCandidate>) -> Seq<CandidateView> {
    Seq::new(candidates.len(), |i: int| candidates[i]@)
}

/// The match ratio of a folded text, if the text is not rejected.
///
/// A query of one word scores 100 % where the word stands in the text, and
/// else its longest-common-subsequence ratio. A query of several words
/// rejects a text that lacks one of them, and else scores its disjoint
/// ratio.
pub open spec fn policy_score(words: Seq<Seq<char>>, multi_word: bool, text: Seq<char>) -> Option<
    Score,
> {
    if multi_word {
        if contains_all(text, words) {
            Some(disjoint_score(words, text))
        } else {
            None
        }
    } else if contains(text, words[0]) {
        Some(Score { matched: 1, total: 1 })
    } else {
        Some(lcs_score(words[0], text))
    }
}

/// The candidate that a segment gives, if it qualifies: its prior
/// similarity and its match ratio both reach the thresholds of the query.
pub open spec fn candidate_of(
    query: QueryView,
    source_file: Seq<char>,
    index: int,
    segment: SegmentView,
) -> Option<CandidateView> {
    let score = policy_score(query.words, query.multi_word, lowercase(segment.text));
    if segment.prior_similarity >= query.min_similarity && score is Some && score->0.meets(
        query.min_ratio,
    ) {
        Some(
            CandidateView {
                source_file,
                index,
                timestamp: segment.timestamp,
                prior_similarity: segment.prior_similarity,
                text: segment.text,
                match_ratio: score->0,
            },
        )
    } else {
        None
    }
}

/// The candidates that the first `k` segments of a file give, in the order
/// of the segments.
pub open spec fn candidates_of(
    query: QueryView,
    source_file: Seq<char>,
    segments: Seq<SegmentView>,
    k: int,
) -> Seq<CandidateView>
    decreases k,
{
    if k <= 0 {
        Seq::empty()
    } else {
        let before = candidates_of(query, source_file, segments, k - 1);
        match candidate_of(query, source_file, k - 1, segments[k - 1]) {
            Some(candidate) => before.push(candidate),
            None => before,
        }
    }
}

/// Every match ratio lies between 0 % and 100 %.
pub open spec fn ratios_wf(candidates: Seq<CandidateView>) -> bool {
    forall|i: int| 0 <= i < candidates.len() ==> (#[trigger] candidates[i]).match_ratio.wf()
}

/// The match ratio of a folded text, if the text is not rejected.
pub fn score_folded(config: &QueryConfig, prefilter: &Prefilter, text: &Folded) -> (r: Option<Score>)
    requires
        config.wf(),
        prefilter.wf(),
        prefilter.patterns() == config@.words,
        text.wf(),
    ensures
        r == policy_score(config@.words, config.multi_word, text@),
        r matches Some(score) ==> score.wf(),
{
    let present = prefilter.all_present(text);
    if config.multi_word {
        if present {
            Some(multi_word_ratio_folded(&config.words, &text.chars))
        } else {
            None
        }
    } else {
        assert(config@.words[0] == config.words@[0]@);
        if present {
            Some(Score::full())
        } else {
            Some(lcs_ratio_folded(&config.words[0], &text.chars))
        }
    }
}

/// The match ratio of `text`, folded to lowercase, if it is not rejected.
pub fn score_text(config: &QueryConfig, prefilter: &Prefilter, text: &str) -> (r: Option<Score>)
    requires
        config.wf(),
        prefilter.wf(),
        prefilter.patterns() == config@.words,
    ensures
        r == policy_score(config@.words, config.multi_word, lowercase(text@)),
        r matches Some(score) ==> score.wf(),
{
    let folded = Folded::new(text);
    score_folded(config, prefilter, &folded)
}

/// The candidates among the segments of one file, in the order of the
/// segments.
pub fn scan_file(
    config: &QueryConfig,
    prefilter: &Prefilter,
    source_file: &str,
    segments: &Vec<Segment>,
) -> (found: Vec<MatchCandidate>)
    requires
        config.wf(),
        prefilter.wf(),
        prefilter.patterns() == config@.words,
    ensures
        candidate_views(found@) == candidates_of(
            config@,
            source_file@,
            segment_views(segments@),
            segments@.len() as int,
        ),
        ratios_wf(candidate_views(found@)),
{
    let ghost views = segment_views(segments@);
    let mut found: Vec<MatchCandidate> = Vec::new();
    let mut k: usize = 0;
    assert(candidate_views(found@) =~= candidates_of(config@, source_file@, views, 0));
    while k < segments.len()
        invariant
            config.wf(),
            prefilter.wf(),
            prefilter.patterns() == config@.words,
            views == segment_views(segments@),
            k <= segments@.len(),
            candidate_views(found@) == candidates_of(config@, source_file@, views, k as int),
            ratios_wf(candidate_views(found@)),
        decreases segments@.len() - k,
    {
        let segment = &segments[k];
        assert(views[k as int] == segment@);
        let ghost before = candidate_views(found@);
        if segment.prior_similarity >= config.min_similarity {
            match score_text(config, prefilter, segment.text.as_str()) {
                Some(score) => {
                    if score.reaches(config.min_ratio) {
                        found.push(
                            MatchCandidate {
                                source_file: source_file.to_owned(),
                                index: k,
                                timestamp: segment.timestamp.clone(),
                                prior_similarity: segment.prior_similarity,
                                text: segment.text.clone(),
                                match_ratio: score,
                            },
                        );
                        assert(candidate_views(found@) =~= before.push(
                            candidate_of(config@, source_file@, k as int, views[k as int])->0,
                        ));
                    }
                },
                None => {},
            }
        }
        k += 1;
    }
    found
}

} // verus!
