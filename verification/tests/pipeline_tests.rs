use log_search_mcp::config::Config;
use log_search_mcp::config::LogParserConfig;
use log_search_mcp::config::LogSourceConfig;
use log_search_mcp::config::SearchConfig;
use log_search_mcp::config::ServerConfig;
use log_search_mcp::config::ServerMode;
use log_search_mcp::model::FileScanConfig;
use log_search_mcp::model::HitResult;
use log_search_mcp::model::LogicalQuery;
use log_search_mcp::model::SearchQuery;
use log_search_mcp::model::SearchRequest;
use log_search_mcp::pipeline::FileScan;
use log_search_mcp::search::SearchEngine;

fn engine() -> SearchEngine {
    SearchEngine::new(Config {
        server: ServerConfig { mode: ServerMode::Stdio, http_addr: None, http_port: None },
        log_parser: LogParserConfig { default_log_start_pattern: None, default_timestamp_regex: None },
        search: SearchConfig::default(),
        log_sources: LogSourceConfig::default(),
    })
}

fn request(keyword: &str, start: Option<&str>, max_hits: Option<usize>) -> SearchRequest {
    SearchRequest {
        scan_config: FileScanConfig { root_path: "/r".into(), include_globs: vec![], exclude_globs: vec![] },
        logical_query: LogicalQuery {
            must: vec![SearchQuery { query: Some(keyword.into()), regex: false, case_sensitive: false, whole_word: false }],
            any: vec![],
            none: vec![],
        },
        time_filter: None,
        log_start_pattern: start.map(|s| s.to_string()),
        page_size: 10,
        page: 1,
        max_hits,
        hard_timeout_ms: None,
        include_content: true,
    }
}

fn stream(engine: &SearchEngine, req: &SearchRequest, lines: &[&str]) -> (Vec<HitResult>, usize) {
    let plan = engine.prepare(req).unwrap();
    let mut scan = FileScan::new("/r/a.log", req, &plan);
    let mut read = 0;
    for line in lines {
        read += 1;
        if !scan.feed(line.to_string(), &engine.query, req, &plan) {
            break;
        }
    }
    assert_eq!(scan.lines_taken(), read);
    (scan.finish(&engine.query, req, &plan), read)
}

fn summary(hits: &[HitResult]) -> Vec<(usize, usize, String)> {
    hits.iter().map(|h| (h.start_line, h.end_line, h.content.clone())).collect()
}

#[test]
fn streaming_agrees_with_the_search_of_all_lines() {
    let engine = engine();
    let lines = ["S boot\n", " error in boot\n", "S run\n", "S error late\n", " tail\n", "S error last"];
    for start in [None, Some("^S ")] {
        for max_hits in [None, Some(0), Some(1), Some(2), Some(5)] {
            let req = request("error", start, max_hits);
            let (streamed, _) = stream(&engine, &req, &lines);
            let owned: Vec<String> = lines.iter().map(|l| l.to_string()).collect();
            let whole = engine.search_file("/r/a.log", &owned, &req).unwrap();
            assert_eq!(summary(&streamed), summary(&whole), "start {:?} cap {:?}", start, max_hits);
        }
    }
}

#[test]
fn single_line_mode_stops_reading_at_the_cap() {
    let engine = engine();
    let req = request("error", None, Some(1));
    let (hits, read) = stream(&engine, &req, &["ok\n", "error a\n", "error b\n", "error c\n"]);
    assert_eq!(read, 2);
    assert_eq!(summary(&hits), vec![(2, 2, "error a\n".to_string())]);
}

#[test]
fn multi_line_mode_stops_when_the_capping_record_closes() {
    let engine = engine();
    let req = request("error", Some("^S "), Some(1));
    let (hits, read) = stream(&engine, &req, &["S error a\n", " more\n", "S next\n", "S error b\n"]);
    assert_eq!(read, 3);
    assert_eq!(summary(&hits), vec![(1, 2, "S error a\n more\n".to_string())]);
}

#[test]
fn last_open_record_is_judged_at_the_end() {
    let engine = engine();
    let req = request("error", Some("^S "), None);
    let (hits, read) = stream(&engine, &req, &["head\n", "S one\n", " error\n"]);
    assert_eq!(read, 3);
    assert_eq!(summary(&hits), vec![(2, 3, "S one\n error\n".to_string())]);
    let (none, read) = stream(&engine, &req, &[]);
    assert_eq!(read, 0);
    assert!(none.is_empty());
}

#[test]
fn a_full_scan_takes_nothing_more() {
    let engine = engine();
    let req = request("error", None, Some(1));
    let plan = engine.prepare(&req).unwrap();
    let mut scan = FileScan::new("/r/a.log", &req, &plan);
    assert!(!scan.full());
    assert!(!scan.feed("error 1\n".into(), &engine.query, &req, &plan));
    assert!(scan.full());
    assert!(!scan.feed("error 2\n".into(), &engine.query, &req, &plan));
    assert_eq!(scan.lines_taken(), 1);
    assert_eq!(scan.finish(&engine.query, &req, &plan).len(), 1);
}
