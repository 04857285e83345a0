use log_search_mcp::error::LogSearchError;
use log_search_mcp::model::FileScanConfig;
use log_search_mcp::scanner::build_globset;
use log_search_mcp::scanner;
use log_search_mcp::scanner::FileScanner;
use log_search_mcp::scanner::PathProbe;
use log_search_mcp::sorting::less;
use log_search_mcp::sorting::sort_dedup;

fn file(path: &str) -> PathProbe {
    PathProbe { path: path.to_string(), is_file: true }
}

fn other(path: &str) -> PathProbe {
    PathProbe { path: path.to_string(), is_file: false }
}

fn globs(patterns: &[&str]) -> Vec<String> {
    patterns.iter().map(|p| p.to_string()).collect()
}

#[test]
fn scan_with_default_include_and_exclude() {
    let root = "/tmp/root";
    let keep_log = format!("{}/a.log", root);
    let keep_gz = format!("{}/b.gz", root);
    let drop_txt = format!("{}/c.txt", root);
    let skip_dir = format!("{}/skip", root);
    let skip_log = format!("{}/skip/d.log", root);
    let walked = vec![
        other(root),
        file(&keep_log),
        file(&keep_gz),
        file(&drop_txt),
        other(&skip_dir),
        file(&skip_log),
    ];

    let cfg = FileScanConfig {
        root_path: root.to_string(),
        include_globs: Vec::new(),
        exclude_globs: vec!["**/skip/**".to_string()],
    };

    let mut paths = FileScanner::new().scan(&cfg, &walked).unwrap();
    paths.sort();

    assert_eq!(paths.len(), 2);
    assert!(paths.contains(&keep_log));
    assert!(paths.contains(&keep_gz));
    assert!(!paths.contains(&drop_txt));
    assert!(!paths.contains(&skip_log));
}

#[test]
fn scan_result_is_sorted_and_unique() {
    let walked = vec![file("/r/z.log"), file("/r/a.log"), file("/r/m.log"), file("/r/a.log")];
    let cfg = FileScanConfig { root_path: "/r".into(), include_globs: globs(&["**/*.log"]), exclude_globs: vec![] };
    let paths = FileScanner::new().scan(&cfg, &walked).unwrap();
    assert_eq!(paths, vec!["/r/a.log", "/r/m.log", "/r/z.log"]);
}

#[test]
fn explicit_paths_need_no_glob_but_must_be_files() {
    let cfg = FileScanConfig { root_path: String::new(), include_globs: globs(&["["]), exclude_globs: vec![] };
    let explicit = Some(vec![file("/var/log/b.txt"), other("/var/log/missing"), file("/var/log/a.txt")]);
    let walked = vec![file("/ignored/x.log")];
    let paths = FileScanner::new().scan_with_paths(&cfg, &explicit, &walked).unwrap();
    assert_eq!(paths, vec!["/var/log/a.txt", "/var/log/b.txt"]);
}

#[test]
fn explicit_and_walked_are_merged() {
    let cfg = FileScanConfig { root_path: "/r".into(), include_globs: vec![], exclude_globs: vec![] };
    let explicit = Some(vec![file("/x/notes.txt"), file("/r/a.log")]);
    let walked = vec![file("/r/a.log"), file("/r/b.txt"), file("/r/c.log.gz")];
    let paths = FileScanner::new().scan_with_paths(&cfg, &explicit, &walked).unwrap();
    assert_eq!(paths, vec!["/r/a.log", "/r/c.log.gz", "/x/notes.txt"]);
}

#[test]
fn no_root_and_no_explicit_paths_gives_nothing() {
    let cfg = FileScanConfig { root_path: String::new(), include_globs: vec![], exclude_globs: vec![] };
    assert!(FileScanner::new().scan(&cfg, &vec![file("/r/a.log")]).unwrap().is_empty());
}

#[test]
fn malformed_glob_fails_the_scan() {
    let cfg = FileScanConfig { root_path: "/r".into(), include_globs: globs(&["a[b"]), exclude_globs: vec![] };
    assert!(matches!(FileScanner::new().scan(&cfg, &vec![]), Err(LogSearchError::ConfigError(_))));
    let cfg = FileScanConfig { root_path: "/r".into(), include_globs: vec![], exclude_globs: globs(&["{a"]) };
    assert!(matches!(FileScanner::new().scan(&cfg, &vec![]), Err(LogSearchError::ConfigError(_))));
    assert!(matches!(build_globset(&globs(&["*.log", "[z"])), Err(LogSearchError::ConfigError(_))));
}

#[test]
fn glob_matching_tries_the_slash_form_too() {
    let set = build_globset(&globs(&["logs/*.log"])).unwrap();
    assert!(scanner::matches(&set, "logs/a.log"));
    assert!(scanner::matches(&set, "logs\\a.log"));
    assert!(!scanner::matches(&set, "logs/a.txt"));
    let empty = build_globset(&vec![]).unwrap();
    assert!(empty.is_empty());
    assert!(scanner::matches(&empty, "anything"));
}

#[test]
fn scanning_again_changes_nothing() {
    let walked = vec![file("/r/b.log"), file("/r/skip/x.log"), file("/r/a.log"), file("/r/a.log"), file("/r/c.txt")];
    let cfg = FileScanConfig {
        root_path: "/r".into(),
        include_globs: globs(&["**/*.log"]),
        exclude_globs: globs(&["**/skip/**"]),
    };
    let first = FileScanner::new().scan(&cfg, &walked).unwrap();
    let again: Vec<PathProbe> = first.iter().map(|p| file(p)).collect();
    let second = FileScanner::new().scan(&cfg, &again).unwrap();
    assert_eq!(first, vec!["/r/a.log", "/r/b.log"]);
    assert_eq!(second, first);
    assert_eq!(sort_dedup(first.clone()), first);
}

#[test]
fn paths_order_by_bytes() {
    let sorted = sort_dedup(globs(&["b", "a/b", "a-b", "a", "", "a", "ab", "B"]));
    assert_eq!(sorted, vec!["", "B", "a", "a-b", "a/b", "ab", "b"]);
    assert!(less(b"a", b"ab"));
    assert!(!less(b"ab", b"a"));
    assert!(!less(b"a", b"a"));
    assert!(less(b"", b"a"));
    assert!(less(b"a\xff", b"b"));
    let mut expected = globs(&["é", "z", "e", "Z"]);
    expected.sort();
    assert_eq!(sort_dedup(globs(&["é", "z", "e", "Z"])), expected);
}
