//! The partial ratio: the best alignment of the shorter of two texts
//! against the longer.

use crate::score::Score;
use crate::text::{contains, contains_chars, lowercase, occurs_at, Folded};
use vstd::prelude::*;

verus! {

/// Among the first `k` characters of `short`, the number that equal the
/// character of `long` that they face when `short` is laid at `offset`.
pub open spec fn aligned_matches(short: Seq<char>, long: Seq<char>, offset: int, k: int) -> nat
    decreases k,
{
    if k <= 0 {
        0
    } else {
        let rest = aligned_matches(short, long, offset, k - 1);
        if short[k - 1] == long[offset + k - 1] {
            rest + 1
        } else {
            rest
        }
    }
}

/// The greatest number of facing characters that are equal, over the
/// offsets 0 to `last`.
pub open spec fn best_alignment(short: Seq<char>, long: Seq<char>, last: int) -> nat
    decreases last + 1,
{
    if last < 0 {
        0
    } else {
        let before = best_alignment(short, long, last - 1);
        let here = aligned_matches(short, long, last, short.len() as int);
        if here > before {
            here
        } else {
            before
        }
    }
}

/// The partial ratio of two folded texts: 100 % where one holds the other,
/// else the best alignment of the shorter against the longer, over the
/// length of the shorter.
pub open spec fn partial_score(a: Seq<char>, b: Seq<char>) -> Score {
    if contains(b, a) || contains(a, b) {
        Score { matched: 1, total: 1 }
    } else if a.len() <= b.len() {
        Score {
            matched: best_alignment(a, b, b.len() - a.len()) as usize,
            total: a.len() as usize,
        }
    } else {
        Score {
            matched: best_alignment(b, a, a.len() - b.len()) as usize,
            total: b.len() as usize,
        }
    }
}

/// No more characters can match than were compared.
pub proof fn lemma_aligned_matches_bounded(short: Seq<char>, long: Seq<char>, offset: int, k: int)
    requires
        0 <= k,
    ensures
        aligned_matches(short, long, offset, k) <= k,
    decreases k,
{
    if k > 0 {
        lemma_aligned_matches_bounded(short, long, offset, k - 1);
    }
}

/// The shorter text stands at `offset` exactly when all its characters match there.
pub proof fn lemma_aligned_all_is_occurrence(short: Seq<char>, long: Seq<char>, offset: int, k: int)
    requires
        0 <= offset,
        0 <= k <= short.len(),
        offset + k <= long.len(),
    ensures
        aligned_matches(short, long, offset, k) == k <==> long.subrange(offset, offset + k)
            == short.take(k),
    decreases k,
{
    let window = long.subrange(offset, offset + k);
    if k == 0 {
        assert(window =~= short.take(k));
    } else {
        lemma_aligned_all_is_occurrence(short, long, offset, k - 1);
        lemma_aligned_matches_bounded(short, long, offset, k - 1);
        let shorter = long.subrange(offset, offset + k - 1);
        if aligned_matches(short, long, offset, k) == k {
            assert(window =~= short.take(k)) by {
                assert forall|i: int| 0 <= i < k implies window[i] == short.take(k)[i] by {
                    if i < k - 1 {
                        assert(shorter[i] == short.take(k - 1)[i]);
                    }
                }
            }
        }
        if window == short.take(k) {
            assert(shorter =~= short.take(k - 1)) by {
                assert forall|i: int| 0 <= i < k - 1 implies shorter[i] == short.take(k - 1)[i] by {
                    assert(window[i] == short.take(k)[i]);
                }
            }
            assert(window[k - 1] == short.take(k)[k - 1]);
        }
    }
}

/// The best alignment is that of some offset, and no offset does better.
pub proof fn lemma_best_alignment_is_greatest(short: Seq<char>, long: Seq<char>, last: int)
    requires
        0 <= last,
    ensures
        exists|offset: int|
            0 <= offset <= last && #[trigger] aligned_matches(
                short,
                long,
                offset,
                short.len() as int,
            ) == best_alignment(short, long, last),
        forall|offset: int|
            0 <= offset <= last ==> #[trigger] aligned_matches(
                short,
                long,
                offset,
                short.len() as int,
            ) <= best_alignment(short, long, last),
    decreases last,
{
    if last > 0 {
        lemma_best_alignment_is_greatest(short, long, last - 1);
        let before = choose|offset: int|
            0 <= offset <= last - 1 && #[trigger] aligned_matches(
                short,
                long,
                offset,
                short.len() as int,
            ) == best_alignment(short, long, last - 1);
        let here = aligned_matches(short, long, last, short.len() as int);
        if here > best_alignment(short, long, last - 1) {
            assert(aligned_matches(short, long, last, short.len() as int) == best_alignment(
                short,
                long,
                last,
            ));
        } else {
            assert(aligned_matches(short, long, before, short.len() as int) == best_alignment(
                short,
                long,
                last,
            ));
        }
    } else {
        assert(best_alignment(short, long, -1) == 0);
        assert(aligned_matches(short, long, 0, short.len() as int) == best_alignment(
            short,
            long,
            0,
        ));
    }
}

/// Where `short` is no substring of `long`, not all of its characters match
/// at any offset.
proof fn lemma_best_alignment_of_absent(short: Seq<char>, long: Seq<char>)
    requires
        short.len() <= long.len(),
        !contains(long, short),
    ensures
        short.len() > 0,
        best_alignment(short, long, long.len() - short.len()) < short.len(),
{
    if short.len() == 0 {
        assert(long.subrange(0, 0) =~= short);
        assert(occurs_at(long, short, 0));
    }
    let last = long.len() - short.len();
    lemma_best_alignment_is_greatest(short, long, last);
    let offset = choose|offset: int|
        0 <= offset <= last && #[trigger] aligned_matches(short, long, offset, short.len() as int)
            == best_alignment(short, long, last);
    lemma_aligned_matches_bounded(short, long, offset, short.len() as int);
    lemma_aligned_all_is_occurrence(short, long, offset, short.len() as int);
    assert(short.take(short.len() as int) =~= short);
    assert(!occurs_at(long, short, offset));
}

/// The partial ratio of any two texts lies between 0 % and 100 %.
pub proof fn lemma_partial_score_wf(a: Seq<char>, b: Seq<char>)
    requires
        a.len() <= usize::MAX,
        b.len() <= usize::MAX,
    ensures
        partial_score(a, b).wf(),
{
    if !(contains(b, a) || contains(a, b)) {
        if a.len() <= b.len() {
            lemma_best_alignment_of_absent(a, b);
        } else {
            lemma_best_alignment_of_absent(b, a);
        }
    }
}

/// Where one text is a substring of the other, the partial ratio is 100 %;
/// and nowhere else.
pub proof fn lemma_partial_score_full_iff_contained(a: Seq<char>, b: Seq<char>)
    requires
        a.len() <= usize::MAX,
        b.len() <= usize::MAX,
    ensures
        partial_score(a, b).is_full() <==> contains(b, a) || contains(a, b),
{
    if !(contains(b, a) || contains(a, b)) {
        if a.len() <= b.len() {
            lemma_best_alignment_of_absent(a, b);
        } else {
            lemma_best_alignment_of_absent(b, a);
        }
    }
}

/// The number of characters of `short` that equal the one they face in
/// `long` when `short` is laid at `offset`.
fn count_aligned(short: &Vec<char>, long: &Vec<char>, offset: usize) -> (count: usize)
    requires
        offset + short@.len() <= long@.len(),
    ensures
        count == aligned_matches(short@, long@, offset as int, short@.len() as int),
        count <= short@.len(),
{
    let n = short.len();
    let limit = long.len();
    let mut count: usize = 0;
    let mut k: usize = 0;
    while k < n
        invariant
            n == short@.len(),
            limit == long@.len(),
            offset + n <= limit,
            k <= n,
            count <= k,
            count == aligned_matches(short@, long@, offset as int, k as int),
        decreases n - k,
    {
        if short[k] == long[offset + k] {
            count += 1;
        }
        k += 1;
    }
    count
}

/// The partial ratio of two folded texts.
pub fn partial_ratio_folded(a: &Vec<char>, b: &Vec<char>) -> (s: Score)
    ensures
        s == partial_score(a@, b@),
        s.wf(),
{
    let (short, long) = if a.len() <= b.len() {
        (a, b)
    } else {
        (b, a)
    };
    proof {
        lemma_partial_score_wf(a@, b@);
    }
    if contains_chars(b, a) || contains_chars(a, b) {
        return Score::full();
    }
    let last = long.len() - short.len();
    let mut best: usize = 0;
    let mut offset: usize = 0;
    loop
        invariant_except_break
            best == best_alignment(short@, long@, offset - 1),
        invariant
            last == long@.len() - short@.len(),
            offset <= last,
        ensures
            best == best_alignment(short@, long@, last as int),
        decreases last - offset,
    {
        let here = count_aligned(short, long, offset);
        if here > best {
            best = here;
        }
        if offset == last {
            break ;
        }
        offset += 1;
    }
    Score { matched: best, total: short.len() }
}

/// The partial ratio of `s1` and `s2`, both folded to lowercase.
pub fn partial_ratio(s1: &str, s2: &str) -> (s: Score)
    ensures
        s == partial_score(lowercase(s1@), lowercase(s2@)),
        s.wf(),
{
    let a = Folded::new(s1);
    let b = Folded::new(s2);
    partial_ratio_folded(&a.chars, &b.chars)
}

} // verus!
