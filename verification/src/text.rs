//! Texts as sequences of characters: folding to lowercase, substring search.

use vstd::prelude::*;

verus! {

/// The lowercase form of a text, as `str::to_lowercase` gives it.
pub uninterp spec fn lowercase(s: Seq<char>) -> Seq<char>;

/// Calls `str::to_lowercase`. Nothing is claimed of the result but that it is
/// the same for the same characters: it is named `lowercase`.
#[verifier::external_body]
pub(crate) fn to_lowercase(s: &str) -> (r: String)
    ensures
        r@ == lowercase(s@),
{
    s.to_lowercase()
}

/// Calls `String::from_iter` on the characters of `v`: the string built has
/// exactly these characters, in this order.
#[verifier::external_body]
pub(crate) fn string_from_chars(v: &Vec<char>) -> (s: String)
    ensures
        s@ == v@,
{
    String::from_iter(v.iter())
}

/// The characters of `s`, in order.
pub fn chars_of(s: &str) -> (v: Vec<char>)
    ensures
        v@ == s@,
{
    let mut v: Vec<char> = Vec::new();
    for c in it: s.chars()
        invariant
            v.len() == it.index(),
            forall|i: int| 0 <= i < v.len() ==> v@[i] == it.seq()[i],
    {
        v.push(c);
    }
    assert(v@ =~= s@);
    v
}

/// A text folded to lowercase, held both as a string and as its characters.
pub struct Folded {
    pub lower: String,
    pub chars: Vec<char>,
}

impl Folded {
    /// The string and the character vector hold the same text.
    pub open spec fn wf(&self) -> bool {
        self.lower@ == self.chars@
    }

    /// Folds `s` to lowercase.
    pub fn new(s: &str) -> (f: Folded)
        ensures
            f.wf(),
            f.chars@ == lowercase(s@),
    {
        let lower = to_lowercase(s);
        let chars = chars_of(lower.as_str());
        Folded { lower, chars }
    }

    /// Takes `chars` as a text that is folded already.
    pub fn from_chars(chars: Vec<char>) -> (f: Folded)
        ensures
            f.wf(),
            f.chars@ == chars@,
    {
        let lower = string_from_chars(&chars);
        Folded { lower, chars }
    }
}

impl View for Folded {
    type V = Seq<char>;

    open spec fn view(&self) -> Seq<char> {
        self.chars@
    }
}

/// `pat` stands in `text` at position `i`.
pub open spec fn occurs_at(text: Seq<char>, pat: Seq<char>, i: int) -> bool {
    0 <= i && i + pat.len() <= text.len() && text.subrange(i, i + pat.len()) == pat
}

/// `pat` is a substring of `text`.
pub open spec fn contains(text: Seq<char>, pat: Seq<char>) -> bool {
    exists|i: int| #[trigger] occurs_at(text, pat, i)
}

/// Whether `pat` stands in `text` at position `i`.
pub fn matches_at(text: &Vec<char>, pat: &Vec<char>, i: usize) -> (b: bool)
    ensures
        b == occurs_at(text@, pat@, i as int),
{
    let n = text.len();
    let m = pat.len();
    if m > n || i > n - m {
        return false;
    }
    let mut k: usize = 0;
    while k < m
        invariant
            n == text@.len(),
            m == pat@.len(),
            i + m <= n,
            k <= m,
            forall|j: int| 0 <= j < k ==> text@[i + j] == pat@[j],
        decreases m - k,
    {
        if text[i + k] != pat[k] {
            assert(text@.subrange(i as int, i + m)[k as int] == text@[i + k]);
            return false;
        }
        k += 1;
    }
    assert(text@.subrange(i as int, i + m) =~= pat@);
    true
}

/// The first position at or after `from` where `pat` stands in `text`.
pub fn find_from(text: &Vec<char>, pat: &Vec<char>, from: usize) -> (r: Option<usize>)
    ensures
        match r {
            Some(i) => from <= i && occurs_at(text@, pat@, i as int) && forall|j: int|
                from <= j < i ==> !occurs_at(text@, pat@, j),
            None => forall|j: int| from <= j ==> !occurs_at(text@, pat@, j),
        },
{
    let n = text.len();
    let m = pat.len();
    if m > n || from > n - m {
        return None;
    }
    let last = n - m;
    let mut i: usize = from;
    loop
        invariant
            n == text@.len(),
            m == pat@.len(),
            last == n - m,
            from <= i <= last,
            forall|j: int| from <= j < i ==> !occurs_at(text@, pat@, j),
        decreases last - i,
    {
        if matches_at(text, pat, i) {
            return Some(i);
        }
        if i == last {
            return None;
        }
        i += 1;
    }
}

/// Whether `pat` is a substring of `text`.
pub fn contains_chars(text: &Vec<char>, pat: &Vec<char>) -> (b: bool)
    ensures
        b == contains(text@, pat@),
{
    match find_from(text, pat, 0) {
        Some(_) => true,
        None => false,
    }
}

/// `spans` lists every place where `pattern` stands in `text`, from left to
/// right, each by the positions of its first and of its last character.
pub open spec fn lists_occurrences(
    spans: Seq<(usize, usize)>,
    text: Seq<char>,
    pattern: Seq<char>,
) -> bool {
    &&& forall|k: int|
        0 <= k < spans.len() ==> occurs_at(text, pattern, (#[trigger] spans[k]).0 as int)
            && spans[k].1 == spans[k].0 + pattern.len() - 1
    &&& forall|j: int, k: int|
        0 <= j < k < spans.len() ==> (#[trigger] spans[j]).0 < (#[trigger] spans[k]).0
    &&& forall|i: int|
        occurs_at(text, pattern, i) ==> exists|k: int|
            0 <= k < spans.len() && (#[trigger] spans[k]).0 == i
}

/// Every place where `pattern` stands in `text`, overlapping ones too.
pub fn occurrences(text: &Vec<char>, pattern: &Vec<char>) -> (spans: Vec<(usize, usize)>)
    requires
        pattern@.len() > 0,
    ensures
        lists_occurrences(spans@, text@, pattern@),
{
    let len = pattern.len();
    let size = text.len();
    let mut spans: Vec<(usize, usize)> = Vec::new();
    let mut from: usize = 0;
    loop
        invariant
            len == pattern@.len(),
            len > 0,
            size == text@.len(),
            forall|k: int|
                0 <= k < spans@.len() ==> occurs_at(text@, pattern@, (#[trigger] spans@[k]).0 as int)
                    && spans@[k].1 == spans@[k].0 + len - 1 && spans@[k].0 < from,
            forall|j: int, k: int|
                0 <= j < k < spans@.len() ==> (#[trigger] spans@[j]).0 < (#[trigger] spans@[k]).0,
            forall|i: int|
                0 <= i < from && occurs_at(text@, pattern@, i) ==> exists|k: int|
                    0 <= k < spans@.len() && (#[trigger] spans@[k]).0 == i,
        decreases size - from,
    {
        match find_from(text, pattern, from) {
            None => {
                return spans;
            },
            Some(at) => {
                let ghost before = spans@;
                spans.push((at, at + len - 1));
                assert forall|i: int|
                    0 <= i < at + 1 && occurs_at(text@, pattern@, i) implies exists|k: int|
                    0 <= k < spans@.len() && (#[trigger] spans@[k]).0 == i by {
                    if i == at {
                        assert(spans@[before.len() as int].0 == i);
                    } else {
                        let k = choose|k: int| 0 <= k < before.len() && (#[trigger] before[k]).0 == i;
                        assert(spans@[k].0 == i);
                    }
                }
                from = at + 1;
            },
        }
    }
}

/// Every place where `pattern` stands in `text`, both folded to lowercase;
/// `None` where the folded pattern is empty.
pub fn find_non_overlapping_matches(text: &str, pattern: &str) -> (r: Option<Vec<(usize, usize)>>)
    ensures
        r is None <==> lowercase(pattern@).len() == 0,
        match r {
            Some(spans) => lists_occurrences(spans@, lowercase(text@), lowercase(pattern@)),
            None => true,
        },
{
    let text = Folded::new(text);
    let pattern = Folded::new(pattern);
    if pattern.chars.len() == 0 {
        None
    } else {
        Some(occurrences(&text.chars, &pattern.chars))
    }
}

} // verus!
