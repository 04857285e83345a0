use log_search_mcp::config::parse_server_mode;
use log_search_mcp::config::Config;
use log_search_mcp::config::LogParserConfig;
use log_search_mcp::config::LogSourceConfig;
use log_search_mcp::config::SearchConfig;
use log_search_mcp::config::ServerConfig;
use log_search_mcp::config::ServerMode;
use log_search_mcp::error::LogSearchError;

fn base_config() -> Config {
    Config {
        server: ServerConfig { mode: ServerMode::Http, http_addr: Some("0.0.0.0".to_string()), http_port: Some(8080) },
        log_parser: LogParserConfig { default_log_start_pattern: None, default_timestamp_regex: None },
        search: SearchConfig {
            default_page_size: 10,
            max_page_size: 100,
            default_timeout_ms: 1000,
            max_concurrent_files: 4,
            buffer_size: 65536,
        },
        log_sources: LogSourceConfig::default(),
    }
}

fn complaint_of(config: Config) -> String {
    match config.validate() {
        Err(LogSearchError::ConfigError(m)) => m,
        other => panic!("unexpected outcome {:?}", other),
    }
}

#[test]
fn invalid_page_size_rejected() {
    let mut cfg = base_config();
    cfg.search.default_page_size = 0;
    let err = cfg.validate().unwrap_err().message();
    assert!(err.contains("default_page_size"));
}

#[test]
fn valid_config_is_handed_back() {
    let cfg = base_config().validate().unwrap();
    assert_eq!(cfg.server.http_port, Some(8080));
    assert_eq!(cfg.search.buffer_size, 65536);
    assert!(matches!(cfg.server.mode, ServerMode::Http));
}

#[test]
fn each_rule_has_its_complaint_in_order() {
    let mut cfg = base_config();
    cfg.server.http_port = Some(0);
    cfg.search.default_page_size = 0;
    assert_eq!(complaint_of(cfg), "server.http_port must be > 0");

    let mut cfg = base_config();
    cfg.search.default_page_size = 0;
    cfg.search.max_page_size = 0;
    assert_eq!(complaint_of(cfg), "search.default_page_size must be > 0");

    let mut cfg = base_config();
    cfg.search.max_page_size = 0;
    assert_eq!(complaint_of(cfg), "search.max_page_size must be > 0");

    let mut cfg = base_config();
    cfg.search.max_page_size = 5;
    assert_eq!(complaint_of(cfg), "search.max_page_size must be >= default_page_size");

    let mut cfg = base_config();
    cfg.search.buffer_size = 0;
    assert_eq!(complaint_of(cfg), "search.buffer_size must be > 0");

    let mut cfg = base_config();
    cfg.server.http_port = None;
    assert!(cfg.validate().is_ok());
}

#[test]
fn default_search_config_has_documented_values() {
    let d = SearchConfig::default();
    assert_eq!(
        (d.default_page_size, d.max_page_size, d.default_timeout_ms, d.max_concurrent_files, d.buffer_size),
        (10, 100, 1000, 4, 64 * 1024)
    );
    assert!(LogSourceConfig::default().log_file_paths.is_none());
}

#[test]
fn server_mode_is_read_in_any_case() {
    assert!(matches!(parse_server_mode("stdio"), Ok(ServerMode::Stdio)));
    assert!(matches!(parse_server_mode("HTTP"), Ok(ServerMode::Http)));
    assert!(matches!(parse_server_mode("Both"), Ok(ServerMode::Both)));
    match parse_server_mode("Socket") {
        Err(LogSearchError::ConfigError(m)) => assert_eq!(m, "invalid server.mode: socket"),
        other => panic!("unexpected outcome {:?}", other),
    }
}

#[test]
fn every_error_has_its_text() {
    assert_eq!(LogSearchError::ConfigError("x".into()).message(), "配置错误: x");
    assert_eq!(
        LogSearchError::FileAccessError { path: "/p".into(), reason: "gone".into() }.message(),
        "文件访问错误: /p - gone"
    );
    assert_eq!(
        LogSearchError::RegexError { pattern: "(".into(), reason: "bad".into() }.message(),
        "正则表达式错误: ( - bad"
    );
    assert_eq!(
        LogSearchError::EncodingError { path: "/p".into(), reason: "bad".into() }.message(),
        "编码检测失败: /p - bad"
    );
    assert_eq!(LogSearchError::TimeParseError { input: "t".into() }.message(), "时间解析错误: t");
    assert_eq!(LogSearchError::TimeoutError.message(), "搜索超时");
    assert_eq!(LogSearchError::InvalidRequest("r".into()).message(), "无效请求: r");
    assert_eq!(LogSearchError::Io("disk".into()).message(), "disk");
}
