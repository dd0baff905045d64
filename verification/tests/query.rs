use subtitle_search::params::{parse_i32, parse_params};
use subtitle_search::prefilter::Prefilter;
use subtitle_search::query::{has_space, QueryConfig, QueryError};
use subtitle_search::score::{default_min_ratio, default_min_similarity, MAX_RATIO, UNIT};
use subtitle_search::text::Folded;
use subtitle_search::words::{decode, split};

fn chars(s: &str) -> Vec<char> {
    s.chars().collect()
}

fn words(list: &[&str]) -> Vec<Vec<char>> {
    list.iter().map(|w| chars(w)).collect()
}

fn config(query: &str) -> QueryConfig {
    match QueryConfig::new(query, default_min_ratio(), default_min_similarity(), None) {
        Ok(config) => config,
        Err(e) => panic!("{:?}", e),
    }
}

fn refusal(query: &str, min_ratio: i64, min_similarity: i64, cap: Option<i32>) -> Option<QueryError> {
    QueryConfig::new(query, min_ratio, min_similarity, cap).err()
}

#[test]
fn a_single_word_is_kept_whole_and_lowered() {
    let c = config("Hello");
    assert!(!c.multi_word);
    assert_eq!(c.words, words(&["hello"]));
    assert_eq!(c.raw_query, "Hello");
    assert_eq!(c.min_ratio, 50 * UNIT);
    assert_eq!(c.min_similarity, 0);
    assert_eq!(c.max_results, None);
}

#[test]
fn an_escaped_space_parts_words() {
    let c = config("Hello%20World");
    assert!(c.multi_word);
    assert_eq!(c.words, words(&["hello", "world"]));
}

#[test]
fn whitespace_of_any_kind_parts_the_words_of_a_query_with_a_space() {
    let c = config("  one\ttwo \u{3000}three%20%20four\n");
    assert!(c.multi_word);
    assert_eq!(c.words, words(&["one", "two", "three", "four"]));
}

#[test]
fn without_a_space_other_whitespace_parts_nothing() {
    let c = config("one\ttwo");
    assert!(!c.multi_word);
    assert_eq!(c.words, words(&["one\ttwo"]));
}

#[test]
fn a_query_of_spaces_has_no_words() {
    let c = config(" ");
    assert!(c.multi_word);
    assert_eq!(c.words, words(&[]));
    let c = config("%20");
    assert!(c.multi_word);
    assert_eq!(c.words, words(&[]));
}

#[test]
fn an_empty_query_is_refused_first() {
    assert_eq!(refusal("", 50 * UNIT, 0, None), Some(QueryError::InvalidQuery));
    assert_eq!(refusal("", -1, 2 * UNIT, Some(0)), Some(QueryError::InvalidQuery));
}

#[test]
fn thresholds_outside_their_bounds_are_refused() {
    assert_eq!(refusal("q", 150 * UNIT, 0, None), Some(QueryError::InvalidThreshold));
    assert_eq!(refusal("q", MAX_RATIO + 1, 0, None), Some(QueryError::InvalidThreshold));
    assert_eq!(refusal("q", -1, 0, None), Some(QueryError::InvalidThreshold));
    assert_eq!(refusal("q", 0, UNIT + 1, None), Some(QueryError::InvalidThreshold));
    assert_eq!(refusal("q", 0, -1, None), Some(QueryError::InvalidThreshold));
    assert_eq!(refusal("q", -1, 0, Some(0)), Some(QueryError::InvalidThreshold));
}

#[test]
fn thresholds_on_their_bounds_are_accepted() {
    assert_eq!(refusal("q", 0, 0, None), None);
    assert_eq!(refusal("q", MAX_RATIO, UNIT, None), None);
}

#[test]
fn a_cap_of_zero_or_less_is_refused() {
    assert_eq!(refusal("q", 0, 0, Some(0)), Some(QueryError::InvalidResultCap));
    assert_eq!(refusal("q", 0, 0, Some(-3)), Some(QueryError::InvalidResultCap));
    assert_eq!(refusal("q", 0, 0, Some(i32::MIN)), Some(QueryError::InvalidResultCap));
}

#[test]
fn a_positive_cap_is_kept() {
    let c = QueryConfig::new("q", 0, 0, Some(7)).ok().unwrap();
    assert_eq!(c.max_results, Some(7));
    let c = QueryConfig::new("q", 0, 0, Some(i32::MAX)).ok().unwrap();
    assert_eq!(c.max_results, Some(i32::MAX as usize));
}

#[test]
fn decode_reads_each_escape_as_one_space() {
    assert_eq!(decode(&chars("a%20b")), chars("a b"));
    assert_eq!(decode(&chars("%20%20")), chars("  "));
    assert_eq!(decode(&chars("%2a%20")), chars("%2a "));
    assert_eq!(decode(&chars("%%20")), chars("% "));
    assert_eq!(decode(&chars("%2")), chars("%2"));
    assert_eq!(decode(&chars("")), chars(""));
}

#[test]
fn split_gives_the_runs_between_whitespace() {
    assert_eq!(split(&chars(" a  bc\td ")), words(&["a", "bc", "d"]));
    assert_eq!(split(&chars("abc")), words(&["abc"]));
    assert_eq!(split(&chars(" \n\t")), words(&[]));
    assert_eq!(split(&chars("")), words(&[]));
    assert_eq!(split(&chars("a\u{a0}b")), words(&["a", "b"]));
}

#[test]
fn has_space_sees_only_the_space_character() {
    assert!(has_space(&chars("a b")));
    assert!(!has_space(&chars("a\tb")));
    assert!(!has_space(&chars("")));
}

#[test]
fn the_prefilter_tells_for_each_word_whether_it_occurs() {
    let p = Prefilter::new(&words(&["hello", "world", "moon", "o w", "hello"]));
    assert_eq!(p.len(), 5);
    let text = Folded::new("Hello World");
    assert_eq!(p.present(&text), vec![true, true, false, true, true]);
    assert!(!p.all_present(&text));
    let p = Prefilter::new(&words(&["hello", "world"]));
    assert!(p.all_present(&text));
    assert!(!p.all_present(&Folded::new("hello")));
}

#[test]
fn the_prefilter_misses_no_overlapping_or_repeated_occurrence() {
    let p = Prefilter::new(&words(&["aba", "bab", "abab", "b", "aa"]));
    assert_eq!(p.present(&Folded::new("ABABA")), vec![true, true, true, true, false]);
    assert_eq!(p.present(&Folded::new("")), vec![false, false, false, false, false]);
}

#[test]
fn the_prefilter_compares_characters_of_any_width() {
    let p = Prefilter::new(&words(&["日本", "本語", "語日", "é"]));
    assert_eq!(p.present(&Folded::new("日本語É")), vec![true, true, false, true]);
}

#[test]
fn the_prefilter_finds_an_empty_word_everywhere() {
    let p = Prefilter::new(&words(&["", "a"]));
    assert_eq!(p.present(&Folded::new("")), vec![true, false]);
    assert_eq!(p.present(&Folded::new("xyz")), vec![true, false]);
    assert_eq!(p.present(&Folded::new("a")), vec![true, true]);
}

#[test]
fn a_prefilter_without_words_holds_of_every_text() {
    let p = Prefilter::new(&words(&[]));
    assert_eq!(p.len(), 0);
    assert_eq!(p.present(&Folded::new("abc")), Vec::<bool>::new());
    assert!(p.all_present(&Folded::new("abc")));
}

#[test]
fn params_are_read_field_by_field() {
    let p = parse_params("query=hello%20world&min_ratio=80&min_similarity=0.5&max_results=10");
    assert_eq!(p.query, "hello%20world");
    assert_eq!(p.min_ratio.as_deref(), Some("80"));
    assert_eq!(p.min_similarity.as_deref(), Some("0.5"));
    assert_eq!(p.max_results, Some(10));
}

#[test]
fn params_that_the_line_does_not_name_are_absent() {
    let p = parse_params("");
    assert_eq!(p.query, "");
    assert_eq!(p.min_ratio, None);
    assert_eq!(p.min_similarity, None);
    assert_eq!(p.max_results, None);
    let p = parse_params("query=abc");
    assert_eq!(p.query, "abc");
    assert_eq!(p.min_ratio, None);
}

#[test]
fn a_later_field_overrides_an_earlier_one() {
    let p = parse_params("query=a&max_results=5&query=b&max_results=x&min_ratio=1&min_ratio=");
    assert_eq!(p.query, "b");
    assert_eq!(p.max_results, None);
    assert_eq!(p.min_ratio.as_deref(), Some(""));
}

#[test]
fn unknown_and_malformed_fields_are_ignored() {
    let p = parse_params("&&foo=bar&query&=x&Query=no&query=a=b&&");
    assert_eq!(p.query, "a=b");
    assert_eq!(p.min_ratio, None);
    assert_eq!(p.max_results, None);
}

#[test]
fn numbers_are_parsed_as_thirty_two_bit_integers() {
    for (text, expected) in [
        ("0", Some(0)),
        ("12", Some(12)),
        ("+12", Some(12)),
        ("-12", Some(-12)),
        ("007", Some(7)),
        ("-0", Some(0)),
        ("2147483647", Some(i32::MAX)),
        ("-2147483648", Some(i32::MIN)),
        ("2147483648", None),
        ("-2147483649", None),
        ("00000000000000000000000000012", Some(12)),
        ("99999999999999999999999999999", None),
        ("", None),
        ("+", None),
        ("-", None),
        ("+-1", None),
        ("1.5", None),
        (" 1", None),
        ("1 ", None),
        ("1_000", None),
        ("１２", None),
        ("abc", None),
    ] {
        assert_eq!(parse_i32(&chars(text)), expected, "{:?}", text);
        assert_eq!(parse_i32(&chars(text)), text.parse::<i32>().ok(), "{:?}", text);
    }
}
