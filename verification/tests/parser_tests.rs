use log_search_mcp::model::LogEntry;
use log_search_mcp::parser::LogParser;
use regex::Regex;

fn owned(lines: &[&str]) -> Vec<String> {
    lines.iter().map(|l| l.to_string()).collect()
}

fn spans(entries: &[LogEntry]) -> Vec<(usize, usize)> {
    entries.iter().map(|e| (e.start_line, e.end_line)).collect()
}

#[test]
fn parse_example_log_by_timestamp() {
    let mut lines: Vec<String> = Vec::new();
    lines.push("2025-11-18 09:46:17.544 DEBUG first record\n".to_string());
    for i in 0..108 {
        lines.push(format!("    at frame {}\n", i));
    }
    lines.push("2025-11-18 09:46:17.600 INFO  second\n".to_string());
    lines.push("2025-11-18 09:46:17.700 WARN  third\n".to_string());
    lines.push("2025-11-18 09:46:17.800 INFO  init check points\n".to_string());
    lines.push("  init check points success\n".to_string());

    let start_re = Regex::new(r"^\d{4}-\d{2}-\d{2} \d{2}:\d{2}:\d{2}\.\d{3}\s+\w+").unwrap();
    let collected = LogParser::new().parse("example.log", &lines, &Some(start_re));

    assert_eq!(collected.len(), 4);
    assert_eq!((collected[0].start_line, collected[0].end_line), (1, 109));
    assert_eq!((collected[1].start_line, collected[1].end_line), (110, 110));
    assert_eq!((collected[2].start_line, collected[2].end_line), (111, 111));
    assert_eq!((collected[3].start_line, collected[3].end_line), (112, 113));

    assert!(collected[0].content.starts_with("2025-11-18 09:46:17.544 DEBUG"));
    assert!(collected[3].content.contains("init check points success"));
}

#[test]
fn single_line_mode_gives_one_record_per_line() {
    let lines = owned(&["a\n", "b\n", "c"]);
    let entries = LogParser::new().parse("f.log", &lines, &None);
    assert_eq!(spans(&entries), vec![(1, 1), (2, 2), (3, 3)]);
    assert_eq!(entries[0].content, "a\n");
    assert_eq!(entries[2].content, "c");
    assert!(entries.iter().all(|e| e.file_path == "f.log"));
}

#[test]
fn empty_file_has_no_records() {
    let lines: Vec<String> = Vec::new();
    assert!(LogParser::new().parse("f.log", &lines, &None).is_empty());
    let re = Regex::new("^x").unwrap();
    assert!(LogParser::new().parse("f.log", &lines, &Some(re)).is_empty());
}

#[test]
fn leading_lines_without_start_form_their_own_record() {
    let lines = owned(&["junk 1\n", "junk 2\n", "2025-01-01 first\n", "more\n", "2025-01-02 second\n"]);
    let re = Regex::new(r"^\d{4}-\d{2}-\d{2}").unwrap();
    let entries = LogParser::new().parse("f.log", &lines, &Some(re));
    assert_eq!(spans(&entries), vec![(1, 2), (3, 4), (5, 5)]);
    assert_eq!(entries[0].content, "junk 1\njunk 2\n");
    assert_eq!(entries[1].content, "2025-01-01 first\nmore\n");
    assert_eq!(entries[2].content, "2025-01-02 second\n");
}

#[test]
fn start_pattern_is_case_sensitive_as_compiled() {
    let lines = owned(&["START a\n", "start b\n"]);
    let re = Regex::new("^START").unwrap();
    let entries = LogParser::new().parse("f.log", &lines, &Some(re));
    assert_eq!(spans(&entries), vec![(1, 2)]);
}

#[test]
fn records_partition_the_lines_without_loss() {
    let lines = owned(&["x\n", "S 1\n", "y\n", "z\n", "S 2\n", "S 3\n", "tail without feed"]);
    let re = Regex::new("^S ").unwrap();
    let entries = LogParser::new().parse("f.log", &lines, &Some(re));
    let joined: String = entries.iter().map(|e| e.content.as_str()).collect();
    assert_eq!(joined, lines.concat());
    assert_eq!(entries.first().unwrap().start_line, 1);
    assert_eq!(entries.last().unwrap().end_line, lines.len());
    for pair in entries.windows(2) {
        assert_eq!(pair[0].end_line + 1, pair[1].start_line);
    }
    for e in &entries {
        assert!(e.start_line <= e.end_line);
    }
    assert_eq!(spans(&entries), vec![(1, 1), (2, 4), (5, 5), (6, 7)]);
}

#[test]
fn no_start_line_at_all_gives_one_record() {
    let lines = owned(&["a\n", "b\n"]);
    let re = Regex::new("^never").unwrap();
    let entries = LogParser::new().parse("f.log", &lines, &Some(re));
    assert_eq!(spans(&entries), vec![(1, 2)]);
    assert_eq!(entries[0].content, "a\nb\n");
}
