use subtitle_search::prefilter::Prefilter;
use subtitle_search::query::{QueryConfig, QueryError};
use subtitle_search::rank::{rank, rank_order, RankedResult};
use subtitle_search::response::{
    assemble, run_search, search_corpus, show_cap, CorpusFile, Response, SearchResponse, Suggestion,
};
use subtitle_search::scan::{scan_file, score_text, MatchCandidate, Segment};
use subtitle_search::score::{default_min_ratio, default_min_similarity, Score, UNIT};
use std::cmp::Ordering;

fn segment(timestamp: &str, similarity: i64, text: &str) -> Segment {
    Segment { timestamp: timestamp.to_string(), prior_similarity: similarity, text: text.to_string() }
}

fn file(name: &str, segments: Vec<Segment>) -> CorpusFile {
    CorpusFile { name: name.to_string(), segments }
}

fn hello_corpus() -> Vec<CorpusFile> {
    vec![file("a.json", vec![segment("00:01", 900_000, "hello world")])]
}

fn setup(query: &str, min_ratio: i64, min_similarity: i64, cap: Option<i32>) -> (QueryConfig, Prefilter) {
    let config = match QueryConfig::new(query, min_ratio, min_similarity, cap) {
        Ok(config) => config,
        Err(e) => panic!("{:?}", e),
    };
    let prefilter = Prefilter::new(&config.words);
    (config, prefilter)
}

fn success(response: Response) -> SearchResponse {
    match response {
        Response::Success(record) => record,
        Response::Error(e) => panic!("{:?}", e),
    }
}

fn candidate(text: &str, matched: usize, total: usize) -> MatchCandidate {
    MatchCandidate {
        source_file: "f.json".to_string(),
        index: 0,
        timestamp: "00:00".to_string(),
        prior_similarity: UNIT,
        text: text.to_string(),
        match_ratio: Score { matched, total },
    }
}

fn texts(results: &[RankedResult]) -> Vec<String> {
    results.iter().map(|r| r.candidate.text.clone()).collect()
}

#[test]
fn scenario_single_word_with_default_thresholds() {
    let record = success(run_search(
        "hello",
        default_min_ratio(),
        default_min_similarity(),
        None,
        &hello_corpus(),
        "subtitle",
    ));
    assert_eq!(record.count, 1);
    assert_eq!(record.data.len(), 1);
    let hit = &record.data[0];
    assert_eq!(hit.candidate.match_ratio.matched, hit.candidate.match_ratio.total);
    assert!(hit.exact_match);
    assert_eq!(hit.candidate.source_file, "a.json");
    assert_eq!(hit.candidate.index, 0);
    assert_eq!(hit.candidate.timestamp, "00:01");
    assert_eq!(hit.candidate.prior_similarity, 900_000);
    assert_eq!(hit.candidate.text, "hello world");
    assert_eq!(record.folder, "subtitle");
    assert_eq!(record.max_results, "unlimited");
    assert!(record.guidance.is_none());
}

#[test]
fn scenario_escaped_two_word_query() {
    let record = success(run_search("hello%20world", 80 * UNIT, 0, None, &hello_corpus(), "subtitle"));
    assert_eq!(record.count, 1);
    let ratio = record.data[0].candidate.match_ratio;
    assert_eq!(ratio.matched, ratio.total);
    assert_eq!(ratio, Score { matched: 10, total: 10 });
    assert!(record.data[0].exact_match);
}

#[test]
fn scenario_query_without_a_match() {
    let record = success(run_search(
        "zzz",
        default_min_ratio(),
        default_min_similarity(),
        None,
        &hello_corpus(),
        "subtitle",
    ));
    assert_eq!(record.count, 0);
    assert!(record.data.is_empty());
    let guidance = record.guidance.unwrap();
    assert_eq!(guidance.query, "zzz");
    assert_eq!(
        guidance.suggestions,
        vec![
            Suggestion::CheckInput,
            Suggestion::LowerMinRatio { current: 50 * UNIT },
            Suggestion::LowerMinSimilarity { current: 0 },
            Suggestion::ShorterQuery,
        ]
    );
}

#[test]
fn scenario_threshold_out_of_range_is_an_error() {
    match run_search("hello", 150 * UNIT, 0, None, &hello_corpus(), "subtitle") {
        Response::Error(e) => assert_eq!(e, QueryError::InvalidThreshold),
        Response::Success(_) => panic!("a ratio threshold of 150 % was accepted"),
    }
}

#[test]
fn every_refusal_is_an_error_record() {
    let corpus = hello_corpus();
    assert!(matches!(run_search("", 0, 0, None, &corpus, "s"), Response::Error(QueryError::InvalidQuery)));
    assert!(matches!(
        run_search("q", 0, 2 * UNIT, None, &corpus, "s"),
        Response::Error(QueryError::InvalidThreshold)
    ));
    assert!(matches!(
        run_search("q", 0, 0, Some(0), &corpus, "s"),
        Response::Error(QueryError::InvalidResultCap)
    ));
}

#[test]
fn an_empty_corpus_gives_guidance_not_an_error() {
    let record = success(run_search("hello", 50 * UNIT, 0, Some(3), &Vec::new(), "subtitle"));
    assert_eq!(record.count, 0);
    assert_eq!(record.max_results, "3");
    assert_eq!(record.guidance.unwrap().suggestions.len(), 4);
    let files = vec![file("a.json", Vec::new()), file("b.json", vec![segment("0", 0, "nothing alike")])];
    let record = success(run_search("hello", 90 * UNIT, 0, None, &files, "subtitle"));
    assert_eq!(record.count, 0);
    assert!(record.guidance.is_some());
}

#[test]
fn a_single_word_that_is_absent_scores_its_lcs_ratio() {
    let (config, prefilter) = setup("help", 0, 0, None);
    assert_eq!(score_text(&config, &prefilter, "Hello World"), Some(Score { matched: 3, total: 4 }));
    assert_eq!(score_text(&config, &prefilter, "xyz"), Some(Score { matched: 0, total: 4 }));
    assert_eq!(score_text(&config, &prefilter, ""), Some(Score { matched: 0, total: 1 }));
    assert_eq!(score_text(&config, &prefilter, "a HELPer"), Some(Score { matched: 1, total: 1 }));
}

#[test]
fn several_words_reject_a_text_that_lacks_one() {
    let (config, prefilter) = setup("hello world", 0, 0, None);
    assert_eq!(score_text(&config, &prefilter, "hello there"), None);
    assert_eq!(score_text(&config, &prefilter, "World, hello"), Some(Score { matched: 10, total: 10 }));
}

#[test]
fn several_words_that_overlap_score_what_fits_side_by_side() {
    let (config, prefilter) = setup("ab bc", 0, 0, None);
    // Both words stand in "abc", but they share the "b".
    assert_eq!(score_text(&config, &prefilter, "abc"), Some(Score { matched: 2, total: 4 }));
    assert_eq!(score_text(&config, &prefilter, "abc bc"), Some(Score { matched: 4, total: 4 }));
}

#[test]
fn a_query_of_spaces_scores_zero() {
    let (config, prefilter) = setup(" ", 0, 0, None);
    assert_eq!(score_text(&config, &prefilter, "anything"), Some(Score { matched: 0, total: 1 }));
    let record = success(run_search(" ", 0, 0, None, &hello_corpus(), "s"));
    assert_eq!(record.count, 1);
    assert_eq!(record.data[0].candidate.match_ratio, Score { matched: 0, total: 1 });
    let record = success(run_search(" ", 1, 0, None, &hello_corpus(), "s"));
    assert_eq!(record.count, 0);
}

#[test]
fn scan_keeps_the_segments_that_reach_both_thresholds() {
    let (config, prefilter) = setup("hello", 60 * UNIT, 500_000, None);
    let segments = vec![
        segment("00:01", 900_000, "Hello there"),
        segment("00:02", 499_999, "hello again"),
        segment("00:03", 500_000, "help"),
        segment("00:04", 700_000, "hexxo"),
        segment("00:05", 700_000, "he"),
        segment("00:06", UNIT, ""),
    ];
    let found = scan_file(&config, &prefilter, "a.json", &segments);
    let summary: Vec<(usize, &str, Score)> =
        found.iter().map(|c| (c.index, c.timestamp.as_str(), c.match_ratio)).collect();
    assert_eq!(
        summary,
        vec![
            (0, "00:01", Score { matched: 1, total: 1 }),
            (2, "00:03", Score { matched: 3, total: 5 }),
            (3, "00:04", Score { matched: 3, total: 5 }),
        ]
    );
    assert!(found.iter().all(|c| c.source_file == "a.json"));
    assert_eq!(found[1].text, "help");
    assert_eq!(found[1].prior_similarity, 500_000);
}

#[test]
fn ranking_puts_higher_ratios_first_and_exact_matches_before_their_equals() {
    let (config, prefilter) = setup("ab cd", 0, 0, None);
    let lists = vec![
        vec![candidate("only ab", 1, 2), candidate("ab and cd", 1, 2), candidate("best", 3, 4)],
        vec![],
        vec![candidate("cd ab!", 2, 4), candidate("worst", 1, 4), candidate("full ab cd", 4, 4)],
    ];
    let ranked = rank(lists, &config, &prefilter);
    assert_eq!(ranked.len(), 6);
    assert_eq!(texts(&ranked[..2]), vec!["full ab cd", "best"]);
    let mut exact: Vec<String> = texts(&ranked[2..4]);
    exact.sort();
    assert_eq!(exact, vec!["ab and cd", "cd ab!"]);
    assert_eq!(texts(&ranked[4..]), vec!["only ab", "worst"]);
    let flags: Vec<bool> = ranked.iter().map(|r| r.exact_match).collect();
    assert_eq!(flags, vec![true, false, true, true, false, false]);
    for pair in ranked.windows(2) {
        assert_ne!(rank_order(&pair[1], &pair[0]), Ordering::Less);
    }
}

#[test]
fn ranking_keeps_every_candidate_once() {
    let (config, prefilter) = setup("x", 0, 0, None);
    let mut list = Vec::new();
    for i in 0..200usize {
        let mut c = candidate("t", (i * 37) % 101, 101);
        c.index = i;
        list.push(c);
    }
    let ranked = rank(vec![list], &config, &prefilter);
    let mut seen: Vec<usize> = ranked.iter().map(|r| r.candidate.index).collect();
    seen.sort();
    assert_eq!(seen, (0..200).collect::<Vec<usize>>());
    for pair in ranked.windows(2) {
        let (a, b) = (pair[0].candidate.match_ratio, pair[1].candidate.match_ratio);
        assert!(a.matched >= b.matched);
    }
}

#[test]
fn the_cap_keeps_the_best() {
    let corpus = vec![
        file("a.json", vec![segment("1", UNIT, "hexlo"), segment("2", UNIT, "hello")]),
        file("b.json", vec![segment("3", UNIT, "xyz"), segment("4", UNIT, "hxllo"), segment("5", UNIT, "hel")]),
    ];
    for (cap, expected) in [(Some(1), 1usize), (Some(2), 2), (Some(4), 4), (Some(5), 4), (Some(100), 4), (None, 4)] {
        let (config, prefilter) = setup("hello", 50 * UNIT, 0, cap);
        let ranked = search_corpus(&config, &prefilter, &corpus);
        assert_eq!(ranked.len(), expected, "{:?}", cap);
        assert_eq!(ranked[0].candidate.text, "hello");
        assert!(ranked[0].exact_match);
        for pair in ranked.windows(2) {
            assert_ne!(rank_order(&pair[1], &pair[0]), Ordering::Less);
        }
    }
    let (config, prefilter) = setup("hello", 50 * UNIT, 0, Some(3));
    let ranked = search_corpus(&config, &prefilter, &corpus);
    let ratios: Vec<Score> = ranked.iter().map(|r| r.candidate.match_ratio).collect();
    assert_eq!(
        ratios,
        vec![Score { matched: 1, total: 1 }, Score { matched: 4, total: 5 }, Score { matched: 4, total: 5 }]
    );
}

#[test]
fn rank_order_compares_ratio_then_flag() {
    let result = |matched, total, exact_match| RankedResult { candidate: candidate("t", matched, total), exact_match };
    assert_eq!(rank_order(&result(2, 3, false), &result(1, 2, true)), Ordering::Less);
    assert_eq!(rank_order(&result(1, 2, true), &result(2, 3, false)), Ordering::Greater);
    assert_eq!(rank_order(&result(1, 2, true), &result(2, 4, false)), Ordering::Less);
    assert_eq!(rank_order(&result(1, 2, false), &result(2, 4, true)), Ordering::Greater);
    assert_eq!(rank_order(&result(1, 2, true), &result(2, 4, true)), Ordering::Equal);
    assert_eq!(rank_order(&result(1, 2, false), &result(3, 6, false)), Ordering::Equal);
}

#[test]
fn the_cap_is_shown_as_a_number_or_as_unlimited() {
    assert_eq!(show_cap(None), "unlimited");
    assert_eq!(show_cap(Some(1)), "1");
    assert_eq!(show_cap(Some(10)), "10");
    assert_eq!(show_cap(Some(907)), "907");
    assert_eq!(show_cap(Some(0)), "0");
    assert_eq!(show_cap(Some(usize::MAX)), usize::MAX.to_string());
}

#[test]
fn assemble_counts_the_results_and_guides_only_where_there_are_none() {
    let (config, _) = setup("hello", 50 * UNIT, 250_000, Some(12));
    let results = vec![
        RankedResult { candidate: candidate("hello", 1, 1), exact_match: true },
        RankedResult { candidate: candidate("help", 3, 5), exact_match: false },
    ];
    let record = assemble(results, &config, "subtitle");
    assert_eq!(record.count, 2);
    assert_eq!(texts(&record.data), vec!["hello", "help"]);
    assert_eq!(record.folder, "subtitle");
    assert_eq!(record.max_results, "12");
    assert!(record.guidance.is_none());
    let record = assemble(Vec::new(), &config, "subtitle");
    assert_eq!(record.count, 0);
    let guidance = record.guidance.unwrap();
    assert_eq!(guidance.query, "hello");
    assert_eq!(
        guidance.suggestions,
        vec![
            Suggestion::CheckInput,
            Suggestion::LowerMinRatio { current: 50 * UNIT },
            Suggestion::LowerMinSimilarity { current: 250_000 },
            Suggestion::ShorterQuery,
        ]
    );
}
