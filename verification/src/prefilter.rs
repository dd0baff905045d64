//! The exact prefilter: one automaton over all the words of a query, asked
//! of each text which of the words stand in it.

use crate::disjoint::word_views;
use crate::text::{contains, contains_chars, string_from_chars, Folded};
use aho_corasick::{AhoCorasick, BuildError};
use vstd::prelude::*;

verus! {

/// The automaton of the `aho_corasick` crate, taken as it is.
#[verifier::external_type_specification]
#[verifier::external_body]
pub struct ExAhoCorasick(AhoCorasick);

/// Why the `aho_corasick` crate could not build an automaton.
#[verifier::external_type_specification]
#[verifier::external_body]
pub struct ExBuildError(BuildError);

/// The patterns that an automaton searches for, in the order in which they
/// were given to it.
pub uninterp spec fn automaton_patterns(automaton: AhoCorasick) -> Seq<Seq<char>>;

/// The automaton reports every match of every pattern: it was built with
/// the standard match semantics, for searches that may begin anywhere.
pub uninterp spec fn reports_every_match(automaton: AhoCorasick) -> bool;

/// Calls `AhoCorasick::new`, which may refuse patterns that are too many
/// or too long. The automaton that it builds searches for the given
/// patterns, numbered in the order given, and reports every match.
#[verifier::external_body]
fn build_automaton(patterns: &Vec<String>) -> (r: Result<AhoCorasick, BuildError>)
    ensures
        match r {
            Ok(automaton) => reports_every_match(automaton) && automaton_patterns(automaton)
                == Seq::new(patterns@.len(), |i: int| patterns@[i]@),
            Err(_) => true,
        },
{
    AhoCorasick::new(patterns)
}

/// Calls `AhoCorasick::find_overlapping_iter` and keeps the number of the
/// pattern of each match. The search reports every place where a pattern
/// stands in the text, so a pattern's number is in the result exactly if
/// the pattern is a substring of the text. (The automaton compares bytes;
/// between two strings that is the same as comparing characters.)
#[verifier::external_body]
fn matched_patterns(automaton: &AhoCorasick, text: &str) -> (hits: Vec<usize>)
    requires
        reports_every_match(*automaton),
    ensures
        forall|k: int|
            0 <= k < hits@.len() ==> (#[trigger] hits@[k]) < automaton_patterns(*automaton).len()
                && contains(text@, automaton_patterns(*automaton)[hits@[k] as int]),
        forall|p: int|
            0 <= p < automaton_patterns(*automaton).len() && contains(
                text@,
                #[trigger] automaton_patterns(*automaton)[p],
            ) ==> exists|k: int| 0 <= k < hits@.len() && hits@[k] == p,
{
    automaton.find_overlapping_iter(text).map(|m| m.pattern().as_usize()).collect()
}

/// The prefilter of a query. Where the automaton could not be built, each
/// word is searched for by itself: the answers are the same.
pub struct Prefilter {
    automaton: Option<AhoCorasick>,
    words: Vec<Vec<char>>,
}

impl Prefilter {
    /// The words that the prefilter looks for.
    pub closed spec fn patterns(&self) -> Seq<Seq<char>> {
        word_views(self.words@)
    }

    /// The automaton, where there is one, searches for these words.
    pub closed spec fn wf(&self) -> bool {
        match self.automaton {
            Some(automaton) => reports_every_match(automaton) && automaton_patterns(automaton)
                == word_views(self.words@),
            None => true,
        }
    }

    /// The prefilter for the folded words `words`.
    pub fn new(words: &Vec<Vec<char>>) -> (p: Prefilter)
        ensures
            p.wf(),
            p.patterns() == word_views(words@),
    {
        let mut strings: Vec<String> = Vec::new();
        let mut kept: Vec<Vec<char>> = Vec::new();
        let mut k: usize = 0;
        while k < words.len()
            invariant
                k <= words@.len(),
                strings@.len() == k,
                kept@.len() == k,
                forall|j: int| 0 <= j < k ==> (#[trigger] strings@[j])@ == words@[j]@,
                forall|j: int| 0 <= j < k ==> (#[trigger] kept@[j])@ == words@[j]@,
            decreases words@.len() - k,
        {
            strings.push(string_from_chars(&words[k]));
            kept.push(words[k].clone());
            k += 1;
        }
        assert(word_views(kept@) =~= word_views(words@));
        assert(Seq::new(strings@.len(), |i: int| strings@[i]@) =~= word_views(words@));
        let automaton = match build_automaton(&strings) {
            Ok(automaton) => Some(automaton),
            Err(_) => None,
        };
        Prefilter { automaton, words: kept }
    }

    /// The number of words.
    pub fn len(&self) -> (n: usize)
        ensures
            n == self.patterns().len(),
    {
        self.words.len()
    }

    /// For each word, whether it is a substring of `text`.
    pub fn present(&self, text: &Folded) -> (flags: Vec<bool>)
        requires
            self.wf(),
            text.wf(),
        ensures
            flags@.len() == self.patterns().len(),
            forall|k: int|
                0 <= k < flags@.len() ==> #[trigger] flags@[k] == contains(
                    text@,
                    self.patterns()[k],
                ),
    {
        let n = self.words.len();
        let ghost patterns = word_views(self.words@);
        match &self.automaton {
            Some(automaton) => {
                let hits = matched_patterns(automaton, text.lower.as_str());
                let mut flags: Vec<bool> = vec![false; n];
                let mut i: usize = 0;
                while i < hits.len()
                    invariant
                        n == patterns.len(),
                        i <= hits@.len(),
                        flags@.len() == n,
                        forall|k: int| 0 <= k < hits@.len() ==> (#[trigger] hits@[k]) < n,
                        forall|p: int|
                            0 <= p < n ==> (#[trigger] flags@[p] <==> exists|k: int|
                                0 <= k < i && hits@[k] == p),
                    decreases hits@.len() - i,
                {
                    let hit = hits[i];
                    let ghost before = flags@;
                    flags.set(hit, true);
                    assert forall|p: int| 0 <= p < n implies (#[trigger] flags@[p] <==> exists|
                        k: int,
                    |
                        0 <= k < i + 1 && hits@[k] == p) by {
                        if p == hit {
                            assert(hits@[i as int] == p);
                        } else if before[p] {
                            let k = choose|k: int| 0 <= k < i && hits@[k] == p;
                            assert(0 <= k < i + 1 && hits@[k] == p);
                        }
                    }
                    i += 1;
                }
                assert forall|p: int| 0 <= p < n implies #[trigger] flags@[p] == contains(
                    text@,
                    patterns[p],
                ) by {
                    if flags@[p] {
                        let k = choose|k: int| 0 <= k < hits@.len() && hits@[k] == p;
                        assert(contains(text@, patterns[hits@[k] as int]));
                    }
                }
                flags
            },
            None => {
                let mut flags: Vec<bool> = Vec::new();
                let mut k: usize = 0;
                while k < n
                    invariant
                        n == self.words@.len(),
                        patterns == word_views(self.words@),
                        k <= n,
                        flags@.len() == k,
                        forall|j: int|
                            0 <= j < k ==> #[trigger] flags@[j] == contains(text@, patterns[j]),
                    decreases n - k,
                {
                    flags.push(contains_chars(&text.chars, &self.words[k]));
                    k += 1;
                }
                flags
            },
        }
    }

    /// Whether every word is a substring of `text`.
    pub fn all_present(&self, text: &Folded) -> (b: bool)
        requires
            self.wf(),
            text.wf(),
        ensures
            b == contains_all(text@, self.patterns()),
    {
        let flags = self.present(text);
        let mut k: usize = 0;
        while k < flags.len()
            invariant
                k <= flags@.len(),
                flags@.len() == self.patterns().len(),
                forall|j: int|
                    0 <= j < flags@.len() ==> #[trigger] flags@[j] == contains(
                        text@,
                        self.patterns()[j],
                    ),
                forall|j: int| 0 <= j < k ==> contains(text@, #[trigger] self.patterns()[j]),
            decreases flags@.len() - k,
        {
            if !flags[k] {
                return false;
            }
            k += 1;
        }
        true
    }
}

/// Every one of `words` is a substring of `text`.
pub open spec fn contains_all(text: Seq<char>, words: Seq<Seq<char>>) -> bool {
    forall|k: int| 0 <= k < words.len() ==> contains(text, #[trigger] words[k])
}

} // verus!
