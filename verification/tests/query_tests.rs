use chrono::TimeZone;
use chrono::Utc;
use log_search_mcp::model::LogicalQuery;
use log_search_mcp::model::MatchPosition;
use log_search_mcp::model::SearchQuery;
use log_search_mcp::query::ParsedTimeFilter;
use log_search_mcp::query::QueryProcessor;
use log_search_mcp::text;
use log_search_mcp::timestamp::parse_timestamp;
use log_search_mcp::timestamp::Timestamp;
use regex::Regex;

fn sq(text: &str) -> SearchQuery {
    SearchQuery { query: Some(text.to_string()), regex: false, case_sensitive: false, whole_word: false }
}

fn at(year: i32, month: u32, day: u32, hour: u32, min: u32, sec: u32) -> Timestamp {
    let dt = Utc.with_ymd_and_hms(year, month, day, hour, min, sec).single().unwrap();
    Timestamp { secs: dt.timestamp(), nanos: dt.timestamp_subsec_nanos() }
}

#[test]
fn logical_combinations_work() {
    let qp = QueryProcessor::new();
    let query = LogicalQuery {
        must: vec![sq("error")],
        any: vec![sq("traffic"), sq("network")],
        none: vec![sq("fatal")],
    };
    assert!(qp.matches("traffic error occurred", &query));
    assert!(!qp.matches("info traffic ok", &query));
    assert!(!qp.matches("traffic fatal error", &query));
}

#[test]
fn whole_word_and_regex_positions() {
    let qp = QueryProcessor::new();
    let query = SearchQuery {
        query: Some("err".into()),
        regex: false,
        case_sensitive: false,
        whole_word: true,
    };
    let positions = qp.find_positions("err and terror", &query);
    assert_eq!(positions.len(), 1);
    assert_eq!(positions[0].offset, 0);

    let re_query = SearchQuery {
        query: Some(r"t[a-z]{3}or".into()),
        regex: true,
        case_sensitive: false,
        whole_word: false,
    };
    let re_pos = qp.find_positions("err and terror", &re_query);
    assert_eq!(re_pos.len(), 1);
    assert_eq!(re_pos[0].offset, 8);
}

#[test]
fn time_filter_respects_range() {
    let qp = QueryProcessor::new();
    let tf = ParsedTimeFilter {
        start: Some(at(2024, 1, 1, 0, 0, 0)),
        end: Some(at(2024, 1, 2, 0, 0, 0)),
        regex: Regex::new(r"\d{4}-\d{2}-\d{2}T\d{2}:\d{2}:\d{2}Z").ok(),
    };
    let log_in = "2024-01-01T12:00:00Z something";
    let log_out = "2024-01-03T00:00:00Z late";
    assert!(qp.apply_time_filter(log_in, &Some(tf.clone())));
    assert!(!qp.apply_time_filter(log_out, &Some(tf)));
}

#[test]
fn whole_word_position_has_exact_span() {
    let qp = QueryProcessor::new();
    let query = SearchQuery { query: Some("err".into()), regex: false, case_sensitive: false, whole_word: true };
    assert_eq!(qp.find_positions("err and terror", &query), vec![MatchPosition { offset: 0, length: 3 }]);
}

#[test]
fn regex_position_has_exact_span() {
    let qp = QueryProcessor::new();
    let query = SearchQuery { query: Some("t[a-z]{3}or".into()), regex: true, case_sensitive: false, whole_word: false };
    assert_eq!(qp.find_positions("err and terror", &query), vec![MatchPosition { offset: 8, length: 6 }]);
}

#[test]
fn plain_positions_do_not_overlap() {
    let qp = QueryProcessor::new();
    let query = SearchQuery { query: Some("aa".into()), regex: false, case_sensitive: true, whole_word: false };
    assert_eq!(
        qp.find_positions("aaaaa", &query),
        vec![MatchPosition { offset: 0, length: 2 }, MatchPosition { offset: 2, length: 2 }]
    );
}

#[test]
fn whole_word_positions_respect_both_boundaries() {
    let qp = QueryProcessor::new();
    let query = SearchQuery { query: Some("cat".into()), regex: false, case_sensitive: true, whole_word: true };
    assert_eq!(
        qp.find_positions("cat concat cat_ (cat) cat", &query),
        vec![
            MatchPosition { offset: 0, length: 3 },
            MatchPosition { offset: 17, length: 3 },
            MatchPosition { offset: 22, length: 3 },
        ]
    );
}

#[test]
fn absent_and_empty_queries_have_no_positions() {
    let qp = QueryProcessor::new();
    let absent = SearchQuery { query: None, regex: false, case_sensitive: false, whole_word: false };
    assert!(qp.find_positions("anything", &absent).is_empty());
    for regex in [false, true] {
        for whole_word in [false, true] {
            let empty = SearchQuery { query: Some(String::new()), regex, case_sensitive: false, whole_word };
            assert!(qp.find_positions("anything", &empty).is_empty());
        }
    }
}

#[test]
fn invalid_regex_matches_nothing_and_has_no_positions() {
    let qp = QueryProcessor::new();
    let query = SearchQuery { query: Some("(".into()), regex: true, case_sensitive: false, whole_word: false };
    assert!(!qp.single_match("a ( b", &query));
    assert!(qp.find_positions("a ( b", &query).is_empty());
}

#[test]
fn absent_query_matches_everything() {
    let qp = QueryProcessor::new();
    let absent = SearchQuery { query: None, regex: true, case_sensitive: true, whole_word: true };
    assert!(qp.single_match("", &absent));
    assert!(qp.single_match("whatever", &absent));
}

#[test]
fn plain_match_ignores_case_unless_asked() {
    let qp = QueryProcessor::new();
    let loose = sq("ERROR");
    assert!(qp.single_match("an error here", &loose));
    let strict = SearchQuery { query: Some("ERROR".into()), regex: false, case_sensitive: true, whole_word: false };
    assert!(!qp.single_match("an error here", &strict));
    assert!(qp.single_match("an ERROR here", &strict));
}

#[test]
fn case_insensitive_positions_are_found_in_lowercase_text() {
    let qp = QueryProcessor::new();
    assert_eq!(qp.find_positions("xx ErRoR", &sq("ERROR")), vec![MatchPosition { offset: 3, length: 5 }]);
}

#[test]
fn regex_match_honours_case_flag() {
    let qp = QueryProcessor::new();
    let loose = SearchQuery { query: Some("^warn".into()), regex: true, case_sensitive: false, whole_word: false };
    let strict = SearchQuery { query: Some("^warn".into()), regex: true, case_sensitive: true, whole_word: false };
    assert!(qp.single_match("WARN disk", &loose));
    assert!(!qp.single_match("WARN disk", &strict));
    assert!(!qp.single_match("a warn", &loose));
}

#[test]
fn whole_word_match_escapes_the_keyword() {
    let qp = QueryProcessor::new();
    let query = SearchQuery { query: Some("a.b".into()), regex: false, case_sensitive: false, whole_word: true };
    assert!(qp.single_match("see a.b here", &query));
    assert!(!qp.single_match("see axb here", &query));
    assert!(!qp.single_match("see xa.b here", &query));
}

#[test]
fn empty_any_clause_is_no_constraint() {
    let qp = QueryProcessor::new();
    let query = LogicalQuery { must: vec![sq("a")], any: vec![], none: vec![] };
    assert!(qp.matches("a", &query));
    let everything = LogicalQuery { must: vec![], any: vec![], none: vec![] };
    assert!(qp.matches("", &everything));
    let needs_one = LogicalQuery { must: vec![], any: vec![sq("x"), sq("y")], none: vec![] };
    assert!(!qp.matches("a", &needs_one));
    assert!(qp.matches("y", &needs_one));
}

#[test]
fn compile_regex_reports_the_pattern() {
    let qp = QueryProcessor::new();
    assert!(qp.compile_regex("a+", true).is_ok());
    let err = qp.compile_regex("a(", true).unwrap_err();
    match &err {
        log_search_mcp::error::LogSearchError::RegexError { pattern, reason } => {
            assert_eq!(pattern, "a(");
            assert!(!reason.is_empty());
        }
        other => panic!("unexpected error {:?}", other),
    }
    assert!(err.message().starts_with("正则表达式错误: a( - "));
}

#[test]
fn compile_regex_applies_case_flag() {
    let qp = QueryProcessor::new();
    assert!(qp.compile_regex("abc", false).unwrap().is_match("ABC"));
    assert!(!qp.compile_regex("abc", true).unwrap().is_match("ABC"));
}

#[test]
fn time_filter_accepts_when_nothing_can_be_decided() {
    let qp = QueryProcessor::new();
    assert!(qp.apply_time_filter("2024-01-03T00:00:00Z late", &None));
    let no_regex = ParsedTimeFilter { start: Some(at(2024, 1, 1, 0, 0, 0)), end: None, regex: None };
    assert!(qp.apply_time_filter("2020-01-01T00:00:00Z", &Some(no_regex)));
    let window = ParsedTimeFilter {
        start: Some(at(2024, 1, 1, 0, 0, 0)),
        end: Some(at(2024, 1, 2, 0, 0, 0)),
        regex: Regex::new(r"\d{4}-\d{2}-\d{2}.\d{2}:\d{2}:\d{2}Z?").ok(),
    };
    assert!(qp.apply_time_filter("no timestamp at all", &Some(window.clone())));
    assert!(qp.apply_time_filter("2024-13-45T99:00:00Z not a date", &Some(window.clone())));
    assert!(!qp.apply_time_filter("2023-12-31 23:59:59 early", &Some(window.clone())));
    assert!(qp.apply_time_filter("2024-01-01 00:00:00 on the start", &Some(window.clone())));
    assert!(qp.apply_time_filter("2024-01-02T00:00:00Z on the end", &Some(window.clone())));
    assert!(!qp.apply_time_filter("2024-01-02T00:00:01Z past the end", &Some(window)));
}

#[test]
fn time_filter_uses_the_first_match_only() {
    let qp = QueryProcessor::new();
    let window = ParsedTimeFilter {
        start: Some(at(2024, 1, 1, 0, 0, 0)),
        end: None,
        regex: Regex::new(r"\d{4}-\d{2}-\d{2}T\d{2}:\d{2}:\d{2}Z").ok(),
    };
    assert!(!qp.apply_time_filter("2020-01-01T00:00:00Z then 2024-06-01T00:00:00Z", &Some(window)));
}

#[test]
fn timestamps_are_read_in_each_accepted_form() {
    assert_eq!(parse_timestamp("2024-01-01T12:00:00Z"), Some(Timestamp { secs: 1704110400, nanos: 0 }));
    assert_eq!(parse_timestamp("2024-01-01T12:00:00+02:00"), Some(Timestamp { secs: 1704103200, nanos: 0 }));
    assert_eq!(parse_timestamp("2024-01-01 12:00:00"), Some(Timestamp { secs: 1704110400, nanos: 0 }));
    assert_eq!(parse_timestamp("2024-01-01 12:00:00.250"), Some(Timestamp { secs: 1704110400, nanos: 250_000_000 }));
    assert_eq!(parse_timestamp("2024-01-01T12:00:00"), Some(Timestamp { secs: 1704110400, nanos: 0 }));
    assert_eq!(parse_timestamp("2024-01-01T12:00:00.500"), Some(Timestamp { secs: 1704110400, nanos: 500_000_000 }));
    assert_eq!(parse_timestamp("yesterday"), None);
    assert_eq!(parse_timestamp(""), None);
}

#[test]
fn timestamps_order_by_seconds_then_nanoseconds() {
    let a = Timestamp { secs: 5, nanos: 900 };
    let b = Timestamp { secs: 6, nanos: 0 };
    let c = Timestamp { secs: 6, nanos: 1 };
    assert!(a.before(&b));
    assert!(b.before(&c));
    assert!(!c.before(&b));
    assert!(!b.before(&b));
    let negative = Timestamp { secs: -1, nanos: 999_999_999 };
    assert!(negative.before(&Timestamp { secs: 0, nanos: 0 }));
}

#[test]
fn byte_search_finds_and_rejects() {
    assert!(text::contains(b"hello world", b"o w"));
    assert!(text::contains(b"hello", b""));
    assert!(text::contains(b"", b""));
    assert!(!text::contains(b"hello", b"hello!"));
    assert!(!text::contains(b"hello", b"lol"));
    assert!(text::matches_at(b"hello", b"ll", 2));
    assert!(!text::matches_at(b"hello", b"ll", 1));
    assert!(text::str_eq("gz", "gz"));
    assert!(!text::str_eq("gz", "gZ"));
    assert!(text::bytes_eq(b"", b""));
    assert!(!text::bytes_eq(b"a", b"ab"));
}

#[test]
fn word_bytes_are_ascii_letters_digits_and_underscore() {
    for b in 0u8..=255 {
        let expected = b.is_ascii_alphanumeric() || b == b'_';
        assert_eq!(text::is_word(b), expected, "byte {}", b);
    }
}

#[test]
fn scans_on_edges() {
    assert!(text::scan(b"", b"a").is_empty());
    assert!(text::scan(b"abc", b"").is_empty());
    assert!(text::scan(b"ab", b"abc").is_empty());
    assert_eq!(text::scan(b"abcabc", b"abc"), vec![MatchPosition { offset: 0, length: 3 }, MatchPosition { offset: 3, length: 3 }]);
    assert_eq!(text::scan_whole_words(b"a a", b"a"), vec![MatchPosition { offset: 0, length: 1 }, MatchPosition { offset: 2, length: 1 }]);
    assert!(text::scan_whole_words(b"aa", b"a").is_empty());
}

#[test]
fn lowercase_positions_are_counted_in_the_lowercase_text() {
    let qp = QueryProcessor::new();
    let text = "\u{130}x";
    let lowered = text.to_lowercase();
    assert_eq!(text.len(), 3);
    assert_eq!(lowered.len(), 4);
    let spans = qp.find_positions(text, &sq("x"));
    assert_eq!(spans, vec![MatchPosition { offset: 3, length: 1 }]);
    assert!(spans[0].offset + spans[0].length <= lowered.len());
    assert!(spans[0].offset + spans[0].length > text.len());
    let strict = SearchQuery { query: Some("x".into()), regex: false, case_sensitive: true, whole_word: false };
    assert_eq!(qp.find_positions(text, &strict), vec![MatchPosition { offset: 2, length: 1 }]);
}
