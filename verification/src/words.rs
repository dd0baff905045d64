//! From a folded query to its words: `%20` is read as a space, and the
//! text between runs of whitespace is a word.

use crate::disjoint::{total_chars, word_views};
use crate::text::{contains, occurs_at};
use vstd::prelude::*;

verus! {

/// Whether `c` is whitespace, as `char::is_whitespace` tells it.
pub uninterp spec fn is_whitespace(c: char) -> bool;

/// Calls `char::is_whitespace`. Nothing is claimed of the result but that it
/// is the same for the same character: it is named `is_whitespace`.
#[verifier::external_body]
pub(crate) fn char_is_whitespace(c: char) -> (b: bool)
    ensures
        b == is_whitespace(c),
{
    c.is_whitespace()
}

/// The three characters `%20` stand in `s` at `i`.
pub open spec fn escape_at(s: Seq<char>, i: int) -> bool {
    0 <= i && i + 3 <= s.len() && s[i] == '%' && s[i + 1] == '2' && s[i + 2] == '0'
}

/// `s` from `i` on, with a space in place of each `%20`.
pub open spec fn decode_from(s: Seq<char>, i: int) -> Seq<char>
    decreases s.len() - i,
{
    if i < 0 || i >= s.len() {
        Seq::empty()
    } else if escape_at(s, i) {
        seq![' '] + decode_from(s, i + 3)
    } else {
        seq![s[i]] + decode_from(s, i + 1)
    }
}

/// `s` with a space in place of each `%20`, read from left to right.
pub open spec fn decode_spaces(s: Seq<char>) -> Seq<char> {
    decode_from(s, 0)
}

/// `s` with a space in place of each `%20`.
pub fn decode(s: &Vec<char>) -> (out: Vec<char>)
    ensures
        out@ == decode_spaces(s@),
{
    let n = s.len();
    let mut out: Vec<char> = Vec::new();
    let mut i: usize = 0;
    while i < n
        invariant
            n == s@.len(),
            i <= n,
            decode_spaces(s@) == out@ + decode_from(s@, i as int),
        decreases n - i,
    {
        let ghost before = out@;
        if n - i >= 3 && s[i] == '%' && s[i + 1] == '2' && s[i + 2] == '0' {
            out.push(' ');
            assert(out@ + decode_from(s@, i + 3) =~= before + (seq![' '] + decode_from(
                s@,
                i + 3,
            )));
            i += 3;
        } else {
            out.push(s[i]);
            assert(out@ + decode_from(s@, i + 1) =~= before + (seq![s@[i as int]] + decode_from(
                s@,
                i + 1,
            )));
            i += 1;
        }
    }
    assert(out@ + decode_from(s@, n as int) =~= out@);
    out
}

/// Where the run of characters that are no whitespace ends, which holds
/// position `i` or would begin there.
pub open spec fn run_end(s: Seq<char>, i: int) -> int
    decreases s.len() - i,
{
    if i < 0 || i >= s.len() || is_whitespace(s[i]) {
        i
    } else {
        run_end(s, i + 1)
    }
}

/// A run ends at or after the position it was asked for, within the text,
/// and holds no whitespace.
pub proof fn lemma_run_end(s: Seq<char>, i: int)
    requires
        0 <= i <= s.len(),
    ensures
        i <= run_end(s, i) <= s.len(),
        forall|p: int| i <= p < run_end(s, i) ==> !is_whitespace(#[trigger] s[p]),
        run_end(s, i) < s.len() ==> is_whitespace(s[run_end(s, i)]),
    decreases s.len() - i,
{
    if i < s.len() && !is_whitespace(s[i]) {
        lemma_run_end(s, i + 1);
    }
}

/// The words of `s` from `i` on.
pub open spec fn words_from(s: Seq<char>, i: int) -> Seq<Seq<char>>
    decreases s.len() - i,
{
    if i < 0 || i >= s.len() {
        Seq::empty()
    } else if is_whitespace(s[i]) {
        words_from(s, i + 1)
    } else {
        let end = run_end(s, i + 1);
        proof {
            lemma_run_end(s, i + 1);
        }
        seq![s.subrange(i, end)] + words_from(s, end)
    }
}

/// The words of `s`: its maximal runs of characters that are no
/// whitespace, from left to right.
pub open spec fn split_whitespace(s: Seq<char>) -> Seq<Seq<char>> {
    words_from(s, 0)
}

/// The characters of a word followed by other words.
proof fn lemma_total_chars_prepend(first: Seq<char>, rest: Seq<Seq<char>>, k: int)
    requires
        0 <= k <= rest.len(),
    ensures
        total_chars(seq![first] + rest, k + 1) == first.len() + total_chars(rest, k),
    decreases k,
{
    let all = seq![first] + rest;
    if k == 0 {
        assert(total_chars(all, 0) == 0);
        assert(all[0] == first);
    } else {
        lemma_total_chars_prepend(first, rest, k - 1);
        assert(all[k] == rest[k - 1]);
    }
}

/// Every word is a run of the text that holds no whitespace and is not
/// empty, and all the words together hold no more characters than the text.
pub proof fn lemma_words_from(s: Seq<char>, i: int)
    requires
        0 <= i <= s.len(),
    ensures
        forall|k: int|
            0 <= k < words_from(s, i).len() ==> (#[trigger] words_from(s, i)[k]).len() > 0,
        forall|k: int, p: int|
            0 <= k < words_from(s, i).len() && 0 <= p < words_from(s, i)[k].len()
                ==> !is_whitespace(#[trigger] words_from(s, i)[k][p]),
        forall|k: int|
            0 <= k < words_from(s, i).len() ==> contains(s, #[trigger] words_from(s, i)[k]),
        total_chars(words_from(s, i), words_from(s, i).len() as int) <= s.len() - i,
    decreases s.len() - i,
{
    if i < s.len() {
        if is_whitespace(s[i]) {
            lemma_words_from(s, i + 1);
        } else {
            let end = run_end(s, i + 1);
            lemma_run_end(s, i + 1);
            lemma_words_from(s, end);
            let first = s.subrange(i, end);
            let rest = words_from(s, end);
            let all = words_from(s, i);
            assert(all == seq![first] + rest);
            lemma_total_chars_prepend(first, rest, rest.len() as int);
            assert(occurs_at(s, first, i));
            assert forall|k: int| 0 <= k < all.len() implies (#[trigger] all[k]).len() > 0
                && contains(s, all[k]) by {
                if k > 0 {
                    assert(all[k] == rest[k - 1]);
                }
            }
            assert forall|k: int, p: int|
                0 <= k < all.len() && 0 <= p < all[k].len() implies !is_whitespace(
                #[trigger] all[k][p],
            ) by {
                if k > 0 {
                    assert(all[k] == rest[k - 1]);
                } else {
                    assert(first[p] == s[i + p]);
                }
            }
        }
    }
}

/// The words of `s`.
pub fn split(s: &Vec<char>) -> (words: Vec<Vec<char>>)
    ensures
        word_views(words@) == split_whitespace(s@),
        total_chars(word_views(words@), words@.len() as int) <= s@.len() <= usize::MAX,
{
    let n = s.len();
    let mut words: Vec<Vec<char>> = Vec::new();
    let mut i: usize = 0;
    while i < n
        invariant
            n == s@.len(),
            i <= n,
            split_whitespace(s@) == word_views(words@) + words_from(s@, i as int),
        decreases n - i,
    {
        if char_is_whitespace(s[i]) {
            i += 1;
        } else {
            let mut word: Vec<char> = Vec::new();
            word.push(s[i]);
            let mut end: usize = i + 1;
            while end < n && !char_is_whitespace(s[end])
                invariant
                    n == s@.len(),
                    i < end <= n,
                    run_end(s@, end as int) == run_end(s@, i + 1),
                    word@ == s@.subrange(i as int, end as int),
                decreases n - end,
            {
                word.push(s[end]);
                end += 1;
                assert(word@ =~= s@.subrange(i as int, end as int));
            }
            let ghost before = words@;
            words.push(word);
            assert(word_views(words@) + words_from(s@, end as int) =~= word_views(before) + (
            seq![s@.subrange(i as int, end as int)] + words_from(s@, end as int)));
            i = end;
        }
    }
    assert(word_views(words@) + words_from(s@, n as int) =~= word_views(words@));
    proof {
        lemma_words_from(s@, 0);
    }
    words
}

} // verus!
