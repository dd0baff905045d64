//! The query of one search: its thresholds, its result cap and its words.

use crate::disjoint::{total_chars, word_views};
use crate::score::{
    is_valid_min_ratio, is_valid_min_similarity, valid_min_ratio, valid_min_similarity,
};
use crate::text::{lowercase, Folded};
use crate::text::contains;
use crate::words::{
    decode, decode_spaces, is_whitespace, lemma_words_from, split, split_whitespace,
};
use vstd::prelude::*;

verus! {

/// Why a query is refused.
#[derive(Clone, Copy, Debug, PartialEq, Eq, Structural)]
pub enum QueryError {
    /// The query text is empty.
    InvalidQuery,
    /// A threshold lies outside its bounds.
    InvalidThreshold,
    /// The result cap is zero or less.
    InvalidResultCap,
}

/// The query counts as several words: once `%20` is read as a space, its
/// lowercase form holds a space.
pub open spec fn is_multi_word(raw: Seq<char>) -> bool {
    decode_spaces(lowercase(raw)).contains(' ')
}

/// The words of a query: those that whitespace parts in its decoded
/// lowercase form, and the whole lowercase query where that holds no space.
pub open spec fn query_words(raw: Seq<char>) -> Seq<Seq<char>> {
    if is_multi_word(raw) {
        split_whitespace(decode_spaces(lowercase(raw)))
    } else {
        seq![lowercase(raw)]
    }
}

/// A query that does not count as several words has one word. The words
/// of one that does are runs of its decoded lowercase form, none of them
/// empty and none with whitespace in it.
pub proof fn lemma_query_words(raw: Seq<char>)
    ensures
        !is_multi_word(raw) ==> query_words(raw).len() == 1,
        is_multi_word(raw) ==> forall|k: int|
            0 <= k < query_words(raw).len() ==> {
                let word = #[trigger] query_words(raw)[k];
                &&& word.len() > 0
                &&& contains(decode_spaces(lowercase(raw)), word)
                &&& forall|p: int| 0 <= p < word.len() ==> !is_whitespace(#[trigger] word[p])
            },
{
    lemma_words_from(decode_spaces(lowercase(raw)), 0);
}

/// The first reason to refuse a query, if there is one: its text is
/// looked at first, then the thresholds, then the result cap.
pub open spec fn query_error(
    raw: Seq<char>,
    min_ratio: i64,
    min_similarity: i64,
    max_results: Option<i32>,
) -> Option<QueryError> {
    if raw.len() == 0 {
        Some(QueryError::InvalidQuery)
    } else if !valid_min_ratio(min_ratio) || !valid_min_similarity(min_similarity) {
        Some(QueryError::InvalidThreshold)
    } else if max_results is Some && max_results->0 <= 0 {
        Some(QueryError::InvalidResultCap)
    } else {
        None
    }
}

/// What an accepted query asks for.
pub struct QueryView {
    pub words: Seq<Seq<char>>,
    pub multi_word: bool,
    pub min_ratio: i64,
    pub min_similarity: i64,
    pub max_results: Option<usize>,
}

/// What a query asks for once it is accepted: its words, its thresholds
/// as they are, and its cap.
pub open spec fn query_view(
    raw: Seq<char>,
    min_ratio: i64,
    min_similarity: i64,
    max_results: Option<i32>,
) -> QueryView {
    QueryView {
        words: query_words(raw),
        multi_word: is_multi_word(raw),
        min_ratio,
        min_similarity,
        max_results: match max_results {
            Some(cap) => Some(cap as usize),
            None => None,
        },
    }
}

/// A query that has been accepted.
pub struct QueryConfig {
    /// The query as it was given.
    pub raw_query: String,
    /// The least match ratio of a result, in millionths of a percent point.
    pub min_ratio: i64,
    /// The least prior similarity of a result, in millionths.
    pub min_similarity: i64,
    /// The greatest number of results, if there is one.
    pub max_results: Option<usize>,
    /// The lowercase words of the query.
    pub words: Vec<Vec<char>>,
    /// Whether the query counts as several words.
    pub multi_word: bool,
}

impl View for QueryConfig {
    type V = QueryView;

    open spec fn view(&self) -> QueryView {
        QueryView {
            words: word_views(self.words@),
            multi_word: self.multi_word,
            min_ratio: self.min_ratio,
            min_similarity: self.min_similarity,
            max_results: self.max_results,
        }
    }
}

impl QueryConfig {
    /// The query is not empty, its thresholds lie within their bounds, its
    /// cap is positive, and its words are those of its text.
    pub open spec fn wf(&self) -> bool {
        &&& self.raw_query@.len() > 0
        &&& valid_min_ratio(self.min_ratio)
        &&& valid_min_similarity(self.min_similarity)
        &&& self.max_results matches Some(cap) ==> cap > 0
        &&& self.multi_word == is_multi_word(self.raw_query@)
        &&& self@.words == query_words(self.raw_query@)
        &&& total_chars(self@.words, self.words@.len() as int) <= usize::MAX
    }

    /// Validates and normalizes a query.
    pub fn new(raw_query: &str, min_ratio: i64, min_similarity: i64, max_results: Option<i32>) -> (r:
        Result<QueryConfig, QueryError>)
        ensures
            match r {
                Ok(config) => {
                    &&& query_error(raw_query@, min_ratio, min_similarity, max_results) is None
                    &&& config.wf()
                    &&& config.raw_query@ == raw_query@
                    &&& config@ == query_view(raw_query@, min_ratio, min_similarity, max_results)
                },
                Err(e) => query_error(raw_query@, min_ratio, min_similarity, max_results) == Some(
                    e,
                ),
            },
    {
        if raw_query.is_empty() {
            return Err(QueryError::InvalidQuery);
        }
        if !is_valid_min_ratio(min_ratio) || !is_valid_min_similarity(min_similarity) {
            return Err(QueryError::InvalidThreshold);
        }
        let cap: Option<usize> = match max_results {
            Some(cap) => {
                if cap <= 0 {
                    return Err(QueryError::InvalidResultCap);
                }
                Some(cap as usize)
            },
            None => None,
        };
        let lower = Folded::new(raw_query);
        let decoded = decode(&lower.chars);
        let multi_word = has_space(&decoded);
        let words = if multi_word {
            split(&decoded)
        } else {
            let ghost text = lower.chars@;
            let mut words: Vec<Vec<char>> = Vec::new();
            let size = lower.chars.len();
            words.push(lower.chars);
            assert(word_views(words@) =~= seq![text]);
            assert(total_chars(word_views(words@), 1) == size) by {
                assert(total_chars(word_views(words@), 0) == 0);
            }
            words
        };
        Ok(
            QueryConfig {
                raw_query: raw_query.to_owned(),
                min_ratio,
                min_similarity,
                max_results: cap,
                words,
                multi_word,
            },
        )
    }
}

/// Whether `s` holds a space.
pub fn has_space(s: &Vec<char>) -> (b: bool)
    ensures
        b == s@.contains(' '),
{
    let mut i: usize = 0;
    while i < s.len()
        invariant
            i <= s@.len(),
            forall|j: int| 0 <= j < i ==> s@[j] != ' ',
        decreases s@.len() - i,
    {
        if s[i] == ' ' {
            return true;
        }
        i += 1;
    }
    false
}

} // verus!
