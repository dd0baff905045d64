//! The ratio of the longest common subsequence of a query and a text.

use crate::score::Score;
use crate::text::{contains, lowercase, occurs_at, Folded};
use vstd::prelude::*;

verus! {

/// `c` is what is left of `a` after deleting some of its characters.
pub open spec fn is_subsequence(c: Seq<char>, a: Seq<char>) -> bool
    decreases a.len(),
{
    if c.len() == 0 {
        true
    } else if a.len() == 0 {
        false
    } else {
        (c.last() == a.last() && is_subsequence(c.drop_last(), a.drop_last())) || is_subsequence(
            c,
            a.drop_last(),
        )
    }
}

/// The length of the longest common subsequence of `a` and `b`.
pub open spec fn lcs_len(a: Seq<char>, b: Seq<char>) -> nat
    decreases a.len() + b.len(),
{
    if a.len() == 0 || b.len() == 0 {
        0
    } else if a.last() == b.last() {
        lcs_len(a.drop_last(), b.drop_last()) + 1
    } else {
        let left = lcs_len(a.drop_last(), b);
        let right = lcs_len(a, b.drop_last());
        if left >= right {
            left
        } else {
            right
        }
    }
}

/// The ratio of a folded query to a folded text: the share of the query's
/// characters that lie on a longest common subsequence, and 0 % where
/// either is empty.
pub open spec fn lcs_score(query: Seq<char>, text: Seq<char>) -> Score {
    if query.len() == 0 || text.len() == 0 {
        Score { matched: 0, total: 1 }
    } else {
        Score { matched: lcs_len(query, text) as usize, total: query.len() as usize }
    }
}

/// A longest common subsequence is no longer than either text.
pub proof fn lemma_lcs_len_bounded(a: Seq<char>, b: Seq<char>)
    ensures
        lcs_len(a, b) <= a.len(),
        lcs_len(a, b) <= b.len(),
    decreases a.len() + b.len(),
{
    if a.len() == 0 || b.len() == 0 {
    } else if a.last() == b.last() {
        lemma_lcs_len_bounded(a.drop_last(), b.drop_last());
    } else {
        lemma_lcs_len_bounded(a.drop_last(), b);
        lemma_lcs_len_bounded(a, b.drop_last());
    }
}

/// Some common subsequence of `a` and `b` has the length `lcs_len(a, b)`.
pub proof fn lemma_lcs_len_attained(a: Seq<char>, b: Seq<char>) -> (c: Seq<char>)
    ensures
        is_subsequence(c, a),
        is_subsequence(c, b),
        c.len() == lcs_len(a, b),
    decreases a.len() + b.len(),
{
    if a.len() == 0 || b.len() == 0 {
        Seq::empty()
    } else if a.last() == b.last() {
        let c = lemma_lcs_len_attained(a.drop_last(), b.drop_last());
        let d = c.push(a.last());
        assert(d.drop_last() =~= c);
        d
    } else if lcs_len(a.drop_last(), b) >= lcs_len(a, b.drop_last()) {
        lemma_lcs_len_attained(a.drop_last(), b)
    } else {
        lemma_lcs_len_attained(a, b.drop_last())
    }
}

/// Without its last character a subsequence of `a` is still one.
proof fn lemma_subsequence_drop_last(c: Seq<char>, a: Seq<char>)
    requires
        is_subsequence(c, a),
        c.len() > 0,
    ensures
        is_subsequence(c.drop_last(), a),
    decreases a.len(),
{
    if c.drop_last().len() > 0 {
        if c.last() == a.last() && is_subsequence(c.drop_last(), a.drop_last()) {
        } else {
            lemma_subsequence_drop_last(c, a.drop_last());
        }
    }
}

/// No common subsequence of `a` and `b` is longer than `lcs_len(a, b)`.
pub proof fn lemma_lcs_len_greatest(c: Seq<char>, a: Seq<char>, b: Seq<char>)
    requires
        is_subsequence(c, a),
        is_subsequence(c, b),
    ensures
        c.len() <= lcs_len(a, b),
    decreases a.len() + b.len(),
{
    if c.len() == 0 {
    } else if a.last() == b.last() {
        let in_a = c.last() == a.last() && is_subsequence(c.drop_last(), a.drop_last());
        let in_b = c.last() == b.last() && is_subsequence(c.drop_last(), b.drop_last());
        if in_a && in_b {
            lemma_lcs_len_greatest(c.drop_last(), a.drop_last(), b.drop_last());
        } else if in_a {
            lemma_subsequence_drop_last(c, b.drop_last());
            lemma_lcs_len_greatest(c.drop_last(), a.drop_last(), b.drop_last());
        } else if in_b {
            lemma_subsequence_drop_last(c, a.drop_last());
            lemma_lcs_len_greatest(c.drop_last(), a.drop_last(), b.drop_last());
        } else {
            lemma_lcs_len_greatest(c, a.drop_last(), b.drop_last());
        }
    } else {
        if c.last() == a.last() && is_subsequence(c.drop_last(), a.drop_last()) {
            lemma_lcs_len_greatest(c, a, b.drop_last());
        } else {
            lemma_lcs_len_greatest(c, a.drop_last(), b);
        }
    }
}

/// `n` is the length of a longest common subsequence of `a` and `b`: some
/// common subsequence has that length, and none is longer.
pub open spec fn is_longest_common_length(n: nat, a: Seq<char>, b: Seq<char>) -> bool {
    &&& exists|c: Seq<char>|
        #![trigger is_subsequence(c, a)]
        is_subsequence(c, a) && is_subsequence(c, b) && c.len() == n
    &&& forall|c: Seq<char>|
        #![trigger is_subsequence(c, a)]
        is_subsequence(c, a) && is_subsequence(c, b) ==> c.len() <= n
}

/// `lcs_len` is the length of a longest common subsequence.
pub proof fn lemma_lcs_len_is_longest(a: Seq<char>, b: Seq<char>)
    ensures
        is_longest_common_length(lcs_len(a, b), a, b),
{
    let witness = lemma_lcs_len_attained(a, b);
    assert(is_subsequence(witness, a));
    assert forall|c: Seq<char>|
        #![trigger is_subsequence(c, a)]
        is_subsequence(c, a) && is_subsequence(c, b) implies c.len() <= lcs_len(a, b) by {
        lemma_lcs_len_greatest(c, a, b);
    }
}

/// Every text is a subsequence of itself.
pub proof fn lemma_subsequence_reflexive(a: Seq<char>)
    ensures
        is_subsequence(a, a),
    decreases a.len(),
{
    if a.len() > 0 {
        lemma_subsequence_reflexive(a.drop_last());
    }
}

/// A substring of a text is a subsequence of it.
pub proof fn lemma_substring_is_subsequence(text: Seq<char>, pat: Seq<char>, i: int)
    requires
        occurs_at(text, pat, i),
    ensures
        is_subsequence(pat, text),
    decreases text.len(),
{
    if pat.len() > 0 {
        let shorter = text.drop_last();
        if i + pat.len() == text.len() {
            assert(text.subrange(i, i + pat.len())[pat.len() - 1] == text.last());
            assert(shorter.subrange(i, i + pat.len() - 1) =~= pat.drop_last());
            lemma_substring_is_subsequence(shorter, pat.drop_last(), i);
        } else {
            assert(shorter.subrange(i, i + pat.len()) =~= text.subrange(i, i + pat.len()));
            lemma_substring_is_subsequence(shorter, pat, i);
        }
    }
}

/// Compared with itself, a text that is not empty scores 100 %.
pub proof fn lemma_lcs_score_of_itself(s: Seq<char>)
    requires
        s.len() > 0,
        s.len() <= usize::MAX,
    ensures
        lcs_score(s, s).is_full(),
        lcs_score(s, s) == (Score { matched: s.len() as usize, total: s.len() as usize }),
{
    lemma_subsequence_reflexive(s);
    lemma_lcs_len_greatest(s, s, s);
    lemma_lcs_len_bounded(s, s);
}

/// A query that is a substring of the text scores 100 %, unless it is empty.
pub proof fn lemma_lcs_score_of_substring(query: Seq<char>, text: Seq<char>)
    requires
        contains(text, query),
        query.len() > 0,
        query.len() <= usize::MAX,
    ensures
        lcs_score(query, text).is_full(),
{
    let i = choose|i: int| occurs_at(text, query, i);
    lemma_substring_is_subsequence(text, query, i);
    lemma_subsequence_reflexive(query);
    lemma_lcs_len_greatest(query, query, text);
    lemma_lcs_len_bounded(query, text);
}

/// The ratio of any two texts lies between 0 % and 100 %.
pub proof fn lemma_lcs_score_wf(query: Seq<char>, text: Seq<char>)
    requires
        query.len() <= usize::MAX,
    ensures
        lcs_score(query, text).wf(),
{
    lemma_lcs_len_bounded(query, text);
}

/// The length of the longest common subsequence of the first `i` characters
/// of `a` and the first `j` of `b`.
pub open spec fn lcs_cell(a: Seq<char>, b: Seq<char>, i: int, j: int) -> nat {
    lcs_len(a.take(i), b.take(j))
}

/// How one cell follows from the three before it.
proof fn lemma_lcs_cell_step(a: Seq<char>, b: Seq<char>, i: int, j: int)
    requires
        0 <= i < a.len(),
        0 <= j < b.len(),
    ensures
        lcs_cell(a, b, i + 1, j + 1) == if a[i] == b[j] {
            lcs_cell(a, b, i, j) + 1
        } else if lcs_cell(a, b, i, j + 1) >= lcs_cell(a, b, i + 1, j) {
            lcs_cell(a, b, i, j + 1)
        } else {
            lcs_cell(a, b, i + 1, j)
        },
        lcs_cell(a, b, i, j) < a.len(),
        lcs_cell(a, b, i, 0) == 0,
        lcs_cell(a, b, 0, j) == 0,
{
    let row = a.take(i + 1);
    let col = b.take(j + 1);
    assert(row.drop_last() =~= a.take(i));
    assert(col.drop_last() =~= b.take(j));
    lemma_lcs_len_bounded(a.take(i), b.take(j));
}

/// The length of the longest common subsequence of `a` and `b`, by dynamic
/// programming over every pair of a prefix of `a` and a prefix of `b`.
pub fn lcs_length(a: &Vec<char>, b: &Vec<char>) -> (r: usize)
    ensures
        r == lcs_len(a@, b@),
        is_longest_common_length(r as nat, a@, b@),
{
    proof {
        lemma_lcs_len_is_longest(a@, b@);
    }
    let m = a.len();
    let n = b.len();
    if m == 0 || n == 0 {
        return 0;
    }
    // prev[j] is the length for the first i characters of a and the first j + 1 of b.
    let mut prev: Vec<usize> = vec![0usize; n];
    let mut i: usize = 0;
    while i < m
        invariant
            m == a@.len(),
            n == b@.len(),
            n > 0,
            i <= m,
            prev@.len() == n,
            forall|k: int| 0 <= k < n ==> #[trigger] prev@[k] == lcs_cell(a@, b@, i as int, k + 1),
        decreases m - i,
    {
        let mut cur: Vec<usize> = Vec::new();
        let mut j: usize = 0;
        while j < n
            invariant
                m == a@.len(),
                n == b@.len(),
                i < m,
                j <= n,
                prev@.len() == n,
                forall|k: int| 0 <= k < n ==> #[trigger] prev@[k] == lcs_cell(a@, b@, i as int, k + 1),
                cur@.len() == j,
                forall|k: int| 0 <= k < j ==> #[trigger] cur@[k] == lcs_cell(a@, b@, i + 1, k + 1),
            decreases n - j,
        {
            proof {
                lemma_lcs_cell_step(a@, b@, i as int, j as int);
            }
            let value = if a[i] == b[j] {
                let diagonal = if j == 0 {
                    0
                } else {
                    prev[j - 1]
                };
                diagonal + 1
            } else {
                let above = prev[j];
                let left = if j == 0 {
                    0
                } else {
                    cur[j - 1]
                };
                if above >= left {
                    above
                } else {
                    left
                }
            };
            cur.push(value);
            j += 1;
        }
        prev = cur;
        i += 1;
    }
    assert(a@.take(m as int) =~= a@);
    assert(b@.take(n as int) =~= b@);
    prev[n - 1]
}

/// The ratio of a folded query to a folded text.
pub fn lcs_ratio_folded(query: &Vec<char>, text: &Vec<char>) -> (s: Score)
    ensures
        s == lcs_score(query@, text@),
        s.wf(),
{
    if query.len() == 0 || text.len() == 0 {
        return Score::zero();
    }
    let matched = lcs_length(query, text);
    proof {
        lemma_lcs_len_bounded(query@, text@);
    }
    Score::of(matched, query.len())
}

/// The ratio of `str1`, the query, to `str2`, both folded to lowercase.
pub fn lcs_ratio(str1: &str, str2: &str) -> (s: Score)
    ensures
        s == lcs_score(lowercase(str1@), lowercase(str2@)),
        s.wf(),
{
    let query = Folded::new(str1);
    let text = Folded::new(str2);
    lcs_ratio_folded(&query.chars, &text.chars)
}

} // verus!
