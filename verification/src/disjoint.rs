//! Disjoint multi-word matching: each word of a query claims the first
//! place in the text where it stands and no earlier word has claimed a
//! character.

use crate::score::Score;
use crate::text::{find_from, lowercase, occurs_at, Folded};
use vstd::prelude::*;

verus! {

/// The texts that the vectors of `words` hold.
pub open spec fn word_views(words: Seq<Vec<char>>) -> Seq<Seq<char>> {
    Seq::new(words.len(), |i: int| words[i]@)
}

/// No character of the `len` from `start` on is claimed.
pub open spec fn span_free(used: Seq<bool>, start: int, len: int) -> bool {
    forall|p: int| start <= p < start + len ==> !#[trigger] used[p]
}

/// `word` stands in `text` at `i`, on characters that are all unclaimed.
pub open spec fn claimable_at(text: Seq<char>, word: Seq<char>, used: Seq<bool>, i: int) -> bool {
    occurs_at(text, word, i) && span_free(used, i, word.len() as int)
}

/// `i` is the first position where `word` can be claimed.
pub open spec fn is_first_claim(text: Seq<char>, word: Seq<char>, used: Seq<bool>, i: int) -> bool {
    claimable_at(text, word, used, i) && forall|j: int|
        0 <= j < i ==> !#[trigger] claimable_at(text, word, used, j)
}

/// The first position where `word` can be claimed, if there is one.
pub open spec fn first_claim(text: Seq<char>, word: Seq<char>, used: Seq<bool>) -> Option<int> {
    if exists|i: int| is_first_claim(text, word, used, i) {
        Some(choose|i: int| is_first_claim(text, word, used, i))
    } else {
        None
    }
}

/// `used` with the `len` characters from `start` on claimed as well.
pub open spec fn claim_span(used: Seq<bool>, start: int, len: int) -> Seq<bool> {
    Seq::new(used.len(), |p: int| used[p] || start <= p < start + len)
}

/// The characters of `text` that the first `k` words have claimed.
pub open spec fn claimed_after(words: Seq<Seq<char>>, text: Seq<char>, k: int) -> Seq<bool>
    decreases k,
{
    if k <= 0 {
        Seq::new(text.len(), |p: int| false)
    } else {
        let before = claimed_after(words, text, k - 1);
        match first_claim(text, words[k - 1], before) {
            Some(i) => claim_span(before, i, words[k - 1].len() as int),
            None => before,
        }
    }
}

/// Where word `k` is claimed, if anywhere: at the first place where it
/// stands clear of the words before it.
pub open spec fn span_start(words: Seq<Seq<char>>, text: Seq<char>, k: int) -> Option<int> {
    first_claim(text, words[k], claimed_after(words, text, k))
}

/// The characters that the first `k` words have matched.
pub open spec fn matched_chars(words: Seq<Seq<char>>, text: Seq<char>, k: int) -> nat
    decreases k,
{
    if k <= 0 {
        0
    } else if span_start(words, text, k - 1) is Some {
        matched_chars(words, text, k - 1) + words[k - 1].len()
    } else {
        matched_chars(words, text, k - 1)
    }
}

/// The characters of the first `k` words.
pub open spec fn total_chars(words: Seq<Seq<char>>, k: int) -> nat
    decreases k,
{
    if k <= 0 {
        0
    } else {
        total_chars(words, k - 1) + words[k - 1].len()
    }
}

/// The disjoint ratio of folded words to a folded text: the characters of
/// the words that found a place, over the characters of all the words.
pub open spec fn disjoint_score(words: Seq<Seq<char>>, text: Seq<char>) -> Score {
    Score::spec_of(
        matched_chars(words, text, words.len() as int),
        total_chars(words, words.len() as int),
    )
}

/// There is at most one first position.
proof fn lemma_first_claim_is(text: Seq<char>, word: Seq<char>, used: Seq<bool>, i: int)
    requires
        is_first_claim(text, word, used, i),
    ensures
        first_claim(text, word, used) == Some(i),
{
    let j = choose|j: int| is_first_claim(text, word, used, j);
    assert(claimable_at(text, word, used, i));
    assert(claimable_at(text, word, used, j));
}

/// Where the word can be claimed nowhere, no position is the first.
proof fn lemma_first_claim_none(text: Seq<char>, word: Seq<char>, used: Seq<bool>)
    requires
        forall|j: int| !#[trigger] claimable_at(text, word, used, j),
    ensures
        first_claim(text, word, used) is None,
{
}

/// The first `k` words have matched no more characters than they hold.
pub proof fn lemma_matched_at_most_total(words: Seq<Seq<char>>, text: Seq<char>, k: int)
    ensures
        matched_chars(words, text, k) <= total_chars(words, k),
    decreases k,
{
    if k > 0 {
        lemma_matched_at_most_total(words, text, k - 1);
    }
}

/// The more words, the more characters.
pub proof fn lemma_total_chars_monotonic(words: Seq<Seq<char>>, j: int, k: int)
    requires
        j <= k,
    ensures
        total_chars(words, j) <= total_chars(words, k),
    decreases k - j,
{
    if j < k {
        lemma_total_chars_monotonic(words, j, k - 1);
    }
}

/// A word is claimed only where it stands in the text, and only on
/// characters that no earlier word has claimed.
pub proof fn lemma_span_is_free_occurrence(words: Seq<Seq<char>>, text: Seq<char>, k: int)
    requires
        span_start(words, text, k) is Some,
    ensures
        claimable_at(text, words[k], claimed_after(words, text, k), span_start(words, text, k)->0),
{
    let used = claimed_after(words, text, k);
    let i = choose|i: int| is_first_claim(text, words[k], used, i);
    assert(is_first_claim(text, words[k], used, i));
}

/// The claimed characters lie within the text.
proof fn lemma_claimed_len(words: Seq<Seq<char>>, text: Seq<char>, k: int)
    ensures
        claimed_after(words, text, k).len() == text.len(),
    decreases k,
{
    if k > 0 {
        lemma_claimed_len(words, text, k - 1);
    }
}

/// What word `j` has claimed stays claimed for every later word.
proof fn lemma_claim_lasts(words: Seq<Seq<char>>, text: Seq<char>, j: int, k: int, p: int)
    requires
        0 <= j < k,
        span_start(words, text, j) is Some,
        span_start(words, text, j)->0 <= p < span_start(words, text, j)->0 + words[j].len(),
    ensures
        claimed_after(words, text, k)[p],
    decreases k,
{
    lemma_span_is_free_occurrence(words, text, j);
    lemma_claimed_len(words, text, k - 1);
    if k - 1 > j {
        lemma_claim_lasts(words, text, j, k - 1, p);
    }
}

/// No character of the text is claimed by two words.
pub proof fn lemma_spans_disjoint(words: Seq<Seq<char>>, text: Seq<char>, j: int, k: int, p: int)
    requires
        0 <= j < k,
        span_start(words, text, j) is Some,
        span_start(words, text, k) is Some,
    ensures
        !(span_start(words, text, j)->0 <= p < span_start(words, text, j)->0 + words[j].len()
            && span_start(words, text, k)->0 <= p < span_start(words, text, k)->0
            + words[k].len()),
{
    let s = span_start(words, text, j)->0;
    let t = span_start(words, text, k)->0;
    if s <= p < s + words[j].len() && t <= p < t + words[k].len() {
        lemma_claim_lasts(words, text, j, k, p);
        lemma_span_is_free_occurrence(words, text, k);
        assert(!claimed_after(words, text, k)[p]);
    }
}

/// The disjoint ratio lies between 0 % and 100 %.
pub proof fn lemma_disjoint_score_wf(words: Seq<Seq<char>>, text: Seq<char>)
    requires
        total_chars(words, words.len() as int) <= usize::MAX,
    ensures
        disjoint_score(words, text).wf(),
{
    lemma_matched_at_most_total(words, text, words.len() as int);
}

/// The first position where `word` stands in `text` on unclaimed characters.
pub fn find_free_occurrence(text: &Vec<char>, word: &Vec<char>, used: &Vec<bool>) -> (r: Option<
    usize,
>)
    requires
        used@.len() == text@.len(),
    ensures
        match r {
            Some(i) => first_claim(text@, word@, used@) == Some(i as int),
            None => first_claim(text@, word@, used@) is None,
        },
{
    let len = word.len();
    let size = text.len();
    let mut from: usize = 0;
    loop
        invariant
            len == word@.len(),
            size == text@.len(),
            used@.len() == text@.len(),
            forall|j: int| 0 <= j < from ==> !#[trigger] claimable_at(text@, word@, used@, j),
        decreases text@.len() - from,
    {
        match find_from(text, word, from) {
            None => {
                proof {
                    lemma_first_claim_none(text@, word@, used@);
                }
                return None;
            },
            Some(at) => {
                let mut free = true;
                let mut p: usize = at;
                assert(at + len <= size);
                while p < at + len
                    invariant
                        len == word@.len(),
                        size == text@.len(),
                        used@.len() == text@.len(),
                        at + len <= text@.len(),
                        at <= p <= at + len,
                        free ==> forall|q: int| at <= q < p ==> !#[trigger] used@[q],
                        !free ==> !span_free(used@, at as int, len as int),
                    decreases at + len - p,
                {
                    if used[p] {
                        free = false;
                    }
                    p += 1;
                }
                if free {
                    proof {
                        lemma_first_claim_is(text@, word@, used@, at as int);
                    }
                    return Some(at);
                }
                from = at + 1;
            },
        }
    }
}

/// Claims the `len` characters from `start` on.
fn claim(used: &mut Vec<bool>, start: usize, len: usize)
    requires
        start + len <= old(used)@.len(),
    ensures
        final(used)@ == claim_span(old(used)@, start as int, len as int),
{
    let size = used.len();
    let mut p: usize = start;
    while p < start + len
        invariant
            size == used@.len(),
            start <= p <= start + len,
            start + len <= used@.len(),
            used@.len() == old(used)@.len(),
            forall|q: int|
                0 <= q < used@.len() ==> used@[q] == (old(used)@[q] || start <= q < p),
        decreases start + len - p,
    {
        used.set(p, true);
        p += 1;
    }
    assert(used@ =~= claim_span(old(used)@, start as int, len as int));
}

/// For each word in turn, where it is claimed in `text`, if anywhere.
pub fn disjoint_spans(words: &Vec<Vec<char>>, text: &Vec<char>) -> (spans: Vec<Option<usize>>)
    ensures
        spans@.len() == words@.len(),
        forall|k: int|
            0 <= k < words@.len() ==> match #[trigger] spans@[k] {
                Some(i) => span_start(word_views(words@), text@, k) == Some(i as int),
                None => span_start(word_views(words@), text@, k) is None,
            },
{
    let ghost views = word_views(words@);
    let mut used: Vec<bool> = vec![false; text.len()];
    let mut spans: Vec<Option<usize>> = Vec::new();
    let mut k: usize = 0;
    assert(used@ =~= claimed_after(views, text@, 0));
    while k < words.len()
        invariant
            views == word_views(words@),
            k <= words@.len(),
            used@ == claimed_after(views, text@, k as int),
            used@.len() == text@.len(),
            spans@.len() == k,
            forall|j: int|
                0 <= j < k ==> match #[trigger] spans@[j] {
                    Some(i) => span_start(views, text@, j) == Some(i as int),
                    None => span_start(views, text@, j) is None,
                },
        decreases words@.len() - k,
    {
        let word = &words[k];
        assert(views[k as int] == word@);
        let found = find_free_occurrence(text, word, &used);
        match found {
            Some(i) => {
                proof {
                    lemma_span_is_free_occurrence(views, text@, k as int);
                }
                claim(&mut used, i, word.len());
            },
            None => {},
        }
        spans.push(found);
        k += 1;
    }
    spans
}

/// The disjoint ratio of folded words to a folded text.
pub fn multi_word_ratio_folded(words: &Vec<Vec<char>>, text: &Vec<char>) -> (s: Score)
    requires
        total_chars(word_views(words@), words@.len() as int) <= usize::MAX,
    ensures
        s == disjoint_score(word_views(words@), text@),
        s.wf(),
{
    let ghost views = word_views(words@);
    let spans = disjoint_spans(words, text);
    let mut matched: usize = 0;
    let mut total: usize = 0;
    let mut k: usize = 0;
    while k < words.len()
        invariant
            views == word_views(words@),
            total_chars(views, words@.len() as int) <= usize::MAX,
            k <= words@.len(),
            spans@.len() == words@.len(),
            forall|j: int|
                0 <= j < words@.len() ==> match #[trigger] spans@[j] {
                    Some(i) => span_start(views, text@, j) == Some(i as int),
                    None => span_start(views, text@, j) is None,
                },
            matched == matched_chars(views, text@, k as int),
            total == total_chars(views, k as int),
            matched <= total,
        decreases words@.len() - k,
    {
        let len = words[k].len();
        assert(views[k as int] == words@[k as int]@);
        proof {
            lemma_total_chars_monotonic(views, k + 1, words@.len() as int);
        }
        total += len;
        if spans[k].is_some() {
            matched += len;
        }
        k += 1;
    }
    Score::of(matched, total)
}

/// The words of `query_words` and `text`, folded to lowercase, and the
/// disjoint ratio of the first to the second; `None` where the words hold
/// more characters than can be counted.
pub fn multi_word_lcs_ratio(query_words: &Vec<String>, text: &str) -> (r: Option<Score>)
    ensures
        match r {
            Some(s) => total_chars(folded_words(query_words@), query_words@.len() as int)
                <= usize::MAX && s == disjoint_score(folded_words(query_words@), lowercase(text@))
                && s.wf(),
            None => total_chars(folded_words(query_words@), query_words@.len() as int)
                > usize::MAX,
        },
{
    let ghost folded = folded_words(query_words@);
    let mut words: Vec<Vec<char>> = Vec::new();
    let mut total: usize = 0;
    let mut k: usize = 0;
    while k < query_words.len()
        invariant
            folded == folded_words(query_words@),
            k <= query_words@.len(),
            words@.len() == k,
            forall|j: int| 0 <= j < k ==> (#[trigger] words@[j])@ == folded[j],
            total == total_chars(folded, k as int),
        decreases query_words@.len() - k,
    {
        let word = Folded::new(query_words[k].as_str());
        match total.checked_add(word.chars.len()) {
            Some(sum) => {
                total = sum;
            },
            None => {
                proof {
                    lemma_total_chars_monotonic(folded, k + 1, query_words@.len() as int);
                }
                return None;
            },
        }
        words.push(word.chars);
        k += 1;
    }
    assert(word_views(words@) =~= folded);
    let text = Folded::new(text);
    Some(multi_word_ratio_folded(&words, &text.chars))
}

/// The words of `words`, each folded to lowercase.
pub open spec fn folded_words(words: Seq<String>) -> Seq<Seq<char>> {
    Seq::new(words.len(), |i: int| lowercase(words[i]@))
}

} // verus!
