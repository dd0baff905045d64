//! The parameters of a request, read from one line of `key=value` fields
//! that `&` parts.

use crate::text::{chars_of, string_from_chars};
use vstd::prelude::*;

verus! {

/// The parameters of a request as its line names them. The two thresholds
/// are kept as the text of their fields.
pub struct SearchParams {
    /// The query; empty where the line names none.
    pub query: String,
    /// The text of the field `min_ratio`, if there is one.
    pub min_ratio: Option<String>,
    /// The text of the field `min_similarity`, if there is one.
    pub min_similarity: Option<String>,
    /// The number of the field `max_results`, if there is one and it is a
    /// number.
    pub max_results: Option<i32>,
}

/// What the parameters hold.
pub struct ParamsView {
    pub query: Seq<char>,
    pub min_ratio: Option<Seq<char>>,
    pub min_similarity: Option<Seq<char>>,
    pub max_results: Option<i32>,
}

impl View for SearchParams {
    type V = ParamsView;

    open spec fn view(&self) -> ParamsView {
        ParamsView {
            query: self.query@,
            min_ratio: match self.min_ratio {
                Some(text) => Some(text@),
                None => None,
            },
            min_similarity: match self.min_similarity {
                Some(text) => Some(text@),
                None => None,
            },
            max_results: self.max_results,
        }
    }
}

/// `c` is one of the digits 0 to 9.
pub open spec fn is_digit(c: char) -> bool {
    '0' <= c <= '9'
}

/// The number that the digits of `s` write in base ten.
pub open spec fn digits_value(s: Seq<char>) -> int
    decreases s.len(),
{
    if s.len() == 0 {
        0
    } else {
        digits_value(s.drop_last()) * 10 + (s.last() as int - '0' as int)
    }
}

/// The digits of a number text: what follows its sign, if it has one.
pub open spec fn number_digits(s: Seq<char>) -> Seq<char> {
    if s.len() > 0 && (s[0] == '-' || s[0] == '+') {
        s.skip(1)
    } else {
        s
    }
}

/// The number that `s` writes: an optional sign and then digits, at least
/// one and nothing else, for a number that 32 bits hold.
pub open spec fn parsed_i32(s: Seq<char>) -> Option<i32> {
    let digits = number_digits(s);
    let value = if s.len() > 0 && s[0] == '-' {
        -digits_value(digits)
    } else {
        digits_value(digits)
    };
    if digits.len() > 0 && (forall|i: int| 0 <= i < digits.len() ==> is_digit(#[trigger] digits[i]))
        && i32::MIN <= value <= i32::MAX {
        Some(value as i32)
    } else {
        None
    }
}

/// The first position at or after `i` where `mark` stands in `s`, and the
/// length of `s` where it stands nowhere from `i` on.
pub open spec fn next_mark(s: Seq<char>, mark: char, i: int) -> int
    decreases s.len() - i,
{
    if i < 0 || i >= s.len() || s[i] == mark {
        i
    } else {
        next_mark(s, mark, i + 1)
    }
}

/// The next mark lies at or after the position asked for, within the text.
pub proof fn lemma_next_mark(s: Seq<char>, mark: char, i: int)
    requires
        0 <= i <= s.len(),
    ensures
        i <= next_mark(s, mark, i) <= s.len(),
    decreases s.len() - i,
{
    if i < s.len() && s[i] != mark {
        lemma_next_mark(s, mark, i + 1);
    }
}

/// The key and the value of a field: what stands before and after its first
/// `=`, if it has one.
pub open spec fn split_pair(field: Seq<char>) -> Option<(Seq<char>, Seq<char>)> {
    let at = next_mark(field, '=', 0);
    if at < field.len() {
        Some((field.take(at), field.skip(at + 1)))
    } else {
        None
    }
}

/// The parameters after one more field: a field with a known key sets its
/// parameter anew, any other field changes nothing.
pub open spec fn with_field(params: ParamsView, field: Seq<char>) -> ParamsView {
    match split_pair(field) {
        Some((key, value)) => if key == "query"@ {
            ParamsView { query: value, ..params }
        } else if key == "min_ratio"@ {
            ParamsView { min_ratio: Some(value), ..params }
        } else if key == "min_similarity"@ {
            ParamsView { min_similarity: Some(value), ..params }
        } else if key == "max_results"@ {
            ParamsView { max_results: parsed_i32(value), ..params }
        } else {
            params
        },
        None => params,
    }
}

/// The parameters that the fields of `line` from `i` on make of `params`,
/// read from left to right.
pub open spec fn params_from(line: Seq<char>, i: int, params: ParamsView) -> ParamsView
    decreases line.len() - i,
{
    if i < 0 || i > line.len() {
        params
    } else {
        let end = next_mark(line, '&', i);
        proof {
            lemma_next_mark(line, '&', i);
        }
        let next = with_field(params, line.subrange(i, end));
        if end >= line.len() {
            next
        } else {
            params_from(line, end + 1, next)
        }
    }
}

/// The parameters that a line names: each field sets its parameter, a
/// later field over an earlier one, and a parameter that no field names
/// is empty or absent.
pub open spec fn line_params(line: Seq<char>) -> ParamsView {
    params_from(
        line,
        0,
        ParamsView {
            query: Seq::empty(),
            min_ratio: None,
            min_similarity: None,
            max_results: None,
        },
    )
}

/// A longer number of digits is no smaller.
proof fn lemma_digits_value_grows(s: Seq<char>, k: int)
    requires
        0 <= k <= s.len(),
        forall|i: int| 0 <= i < s.len() ==> is_digit(#[trigger] s[i]),
    ensures
        0 <= digits_value(s.take(k)) <= digits_value(s),
    decreases s.len() - k,
{
    if k == s.len() {
        assert(s.take(k) =~= s);
        lemma_digits_value_nonnegative(s);
    } else {
        lemma_digits_value_grows(s, k + 1);
        assert(s.take(k + 1).drop_last() =~= s.take(k));
        assert(is_digit(s[k]));
        lemma_digits_value_nonnegative(s.take(k));
    }
}

/// Digits write no negative number.
proof fn lemma_digits_value_nonnegative(s: Seq<char>)
    requires
        forall|i: int| 0 <= i < s.len() ==> is_digit(#[trigger] s[i]),
    ensures
        0 <= digits_value(s),
    decreases s.len(),
{
    if s.len() > 0 {
        lemma_digits_value_nonnegative(s.drop_last());
        assert(is_digit(s[s.len() - 1]));
    }
}

/// The number that `s` writes, if it writes one that 32 bits hold.
pub fn parse_i32(s: &Vec<char>) -> (r: Option<i32>)
    ensures
        r == parsed_i32(s@),
{
    let n = s.len();
    let negative = n > 0 && s[0] == '-';
    let start: usize = if n > 0 && (s[0] == '-' || s[0] == '+') {
        1
    } else {
        0
    };
    let ghost digits = number_digits(s@);
    assert(digits =~= s@.skip(start as int));
    if start == n {
        return None;
    }
    let mut value: i64 = 0;
    let mut i: usize = start;
    while i < n
        invariant
            n == s@.len(),
            digits == number_digits(s@),
            digits == s@.skip(start as int),
            start <= i <= n,
            forall|j: int| 0 <= j < i - start ==> is_digit(#[trigger] digits[j]),
            value == digits_value(digits.take(i - start)),
            0 <= value <= 0x8000_0000,
        decreases n - i,
    {
        let c = s[i];
        assert(digits[i - start] == c);
        if c < '0' || c > '9' {
            assert(!is_digit(digits[i - start]));
            return None;
        }
        let d: i64 = (c as u32 - '0' as u32) as i64;
        assert(digits.take(i - start + 1).drop_last() =~= digits.take(i - start));
        value = value * 10 + d;
        if value > 0x8000_0000 {
            proof {
                if forall|j: int| 0 <= j < digits.len() ==> is_digit(#[trigger] digits[j]) {
                    lemma_digits_value_grows(digits, i - start + 1);
                }
            }
            return None;
        }
        i += 1;
    }
    assert(digits.take(n - start) =~= digits);
    if negative {
        Some((-value) as i32)
    } else if value > 0x7fff_ffff {
        None
    } else {
        Some(value as i32)
    }
}

/// Whether `a` and `b` hold the same characters.
fn same_chars(a: &Vec<char>, b: &Vec<char>) -> (same: bool)
    ensures
        same == (a@ == b@),
{
    if a.len() != b.len() {
        return false;
    }
    let mut i: usize = 0;
    while i < a.len()
        invariant
            a@.len() == b@.len(),
            i <= a@.len(),
            forall|j: int| 0 <= j < i ==> a@[j] == b@[j],
        decreases a@.len() - i,
    {
        if a[i] != b[i] {
            return false;
        }
        i += 1;
    }
    assert(a@ =~= b@);
    true
}

/// The characters of `line` from `from` up to `to`.
fn slice_chars(line: &Vec<char>, from: usize, to: usize) -> (part: Vec<char>)
    requires
        from <= to <= line@.len(),
    ensures
        part@ == line@.subrange(from as int, to as int),
{
    let mut part: Vec<char> = Vec::new();
    let mut i: usize = from;
    while i < to
        invariant
            from <= i <= to <= line@.len(),
            part@ == line@.subrange(from as int, i as int),
        decreases to - i,
    {
        part.push(line[i]);
        i += 1;
        assert(part@ =~= line@.subrange(from as int, i as int));
    }
    part
}

/// The first position at or after `from` where `mark` stands in `s`, and
/// the length of `s` where it stands nowhere from `from` on.
fn find_mark(s: &Vec<char>, mark: char, from: usize) -> (at: usize)
    requires
        from <= s@.len(),
    ensures
        at == next_mark(s@, mark, from as int),
        from <= at <= s@.len(),
{
    let n = s.len();
    let mut at: usize = from;
    while at < n && s[at] != mark
        invariant
            n == s@.len(),
            from <= at <= n,
            next_mark(s@, mark, at as int) == next_mark(s@, mark, from as int),
        decreases n - at,
    {
        at += 1;
    }
    at
}

/// The parameters after the field `field`.
fn apply_field(params: SearchParams, field: &Vec<char>) -> (next: SearchParams)
    ensures
        next@ == with_field(params@, field@),
{
    let n = field.len();
    let at = find_mark(field, '=', 0);
    if at == n {
        return params;
    }
    let key = slice_chars(field, 0, at);
    let value = slice_chars(field, at + 1, n);
    if same_chars(&key, &chars_of("query")) {
        SearchParams { query: string_from_chars(&value), ..params }
    } else if same_chars(&key, &chars_of("min_ratio")) {
        SearchParams { min_ratio: Some(string_from_chars(&value)), ..params }
    } else if same_chars(&key, &chars_of("min_similarity")) {
        SearchParams { min_similarity: Some(string_from_chars(&value)), ..params }
    } else if same_chars(&key, &chars_of("max_results")) {
        SearchParams { max_results: parse_i32(&value), ..params }
    } else {
        params
    }
}

/// The parameters that `line` names.
pub fn parse_params(line: &str) -> (params: SearchParams)
    ensures
        params@ == line_params(line@),
{
    let chars = chars_of(line);
    let n = chars.len();
    let mut params = SearchParams {
        query: String::new(),
        min_ratio: None,
        min_similarity: None,
        max_results: None,
    };
    let mut i: usize = 0;
    loop
        invariant
            n == chars@.len(),
            chars@ == line@,
            i <= n,
            line_params(line@) == params_from(chars@, i as int, params@),
        decreases n - i,
    {
        let end = find_mark(&chars, '&', i);
        let field = slice_chars(&chars, i, end);
        params = apply_field(params, &field);
        if end >= n {
            return params;
        }
        i = end + 1;
    }
}

} // verus!
