//! The settings of the server, and the rules they must meet.

use crate::error::LogSearchError;
use crate::text::ascii_lowered;
use crate::text::str_eq;
use crate::text::to_ascii_lowercase;
use vstd::prelude::*;
use vstd::string::StringExecFns;

verus! {

/// All settings.
#[derive(Debug, Clone)]
pub struct Config {
    pub server: ServerConfig,
    pub log_parser: LogParserConfig,
    pub search: SearchConfig,
    pub log_sources: LogSourceConfig,
}

/// How the server is reached.
#[derive(Debug, Clone)]
pub struct ServerConfig {
    pub mode: ServerMode,
    pub http_addr: Option<String>,
    pub http_port: Option<u16>,
}

/// The transports that the server opens.
#[derive(Debug, Clone, Copy, PartialEq, Eq, Structural)]
pub enum ServerMode {
    Stdio,
    Http,
    Both,
}

/// What the parser falls back to where a request is silent.
#[derive(Debug, Clone)]
pub struct LogParserConfig {
    pub default_log_start_pattern: Option<String>,
    pub default_timestamp_regex: Option<String>,
}

/// The limits of a search.
#[derive(Debug, Clone, Copy, PartialEq, Eq, Structural)]
pub struct SearchConfig {
    pub default_page_size: usize,
    pub max_page_size: usize,
    pub default_timeout_ms: u64,
    pub max_concurrent_files: usize,
    pub buffer_size: usize,
}

/// Files that every search reads, whatever root a request names.
#[derive(Debug, Clone)]
pub struct LogSourceConfig {
    pub log_file_paths: Option<Vec<String>>,
}

impl Default for SearchConfig {
    fn default() -> (c: SearchConfig)
        ensures
            c == (SearchConfig {
                default_page_size: 10,
                max_page_size: 100,
                default_timeout_ms: 1000,
                max_concurrent_files: 4,
                buffer_size: 65536,
            }),
    {
        SearchConfig {
            default_page_size: 10,
            max_page_size: 100,
            default_timeout_ms: 1000,
            max_concurrent_files: 4,
            buffer_size: 65536,
        }
    }
}

impl Default for LogSourceConfig {
    fn default() -> (c: LogSourceConfig)
        ensures
            c.log_file_paths is None,
    {
        LogSourceConfig { log_file_paths: None }
    }
}

/// The first rule that the settings break, as the text of the complaint; or
/// nothing where they break none. The rules, in order: the HTTP port, if set,
/// is not 0; the default page size is not 0; the largest page size is not 0;
/// the largest page size is not below the default; the buffer size is not 0.
pub open spec fn first_complaint(config: Config) -> Option<Seq<char>> {
    if config.server.http_port == Some(0u16) {
        Some("server.http_port must be > 0"@)
    } else if config.search.default_page_size == 0 {
        Some("search.default_page_size must be > 0"@)
    } else if config.search.max_page_size == 0 {
        Some("search.max_page_size must be > 0"@)
    } else if config.search.max_page_size < config.search.default_page_size {
        Some("search.max_page_size must be >= default_page_size"@)
    } else if config.search.buffer_size == 0 {
        Some("search.buffer_size must be > 0"@)
    } else {
        None
    }
}

fn complaint(text: &str) -> (r: Result<Config, LogSearchError>)
    ensures
        r matches Err(LogSearchError::ConfigError(m)) && m@ == text@,
{
    Err(LogSearchError::ConfigError(String::from_str(text)))
}

impl Config {
    /// Hands the settings back where they meet every rule, else the complaint
    /// about the first rule they break.
    pub fn validate(self) -> (r: Result<Config, LogSearchError>)
        ensures
            match r {
                Ok(config) => first_complaint(self) is None && config == self,
                Err(e) => e matches LogSearchError::ConfigError(m) && first_complaint(self) == Some(
                    m@,
                ),
            },
    {
        if let Some(port) = self.server.http_port {
            if port == 0 {
                return complaint("server.http_port must be > 0");
            }
        }
        if self.search.default_page_size == 0 {
            return complaint("search.default_page_size must be > 0");
        }
        if self.search.max_page_size == 0 {
            return complaint("search.max_page_size must be > 0");
        }
        if self.search.max_page_size < self.search.default_page_size {
            return complaint("search.max_page_size must be >= default_page_size");
        }
        if self.search.buffer_size == 0 {
            return complaint("search.buffer_size must be > 0");
        }
        Ok(self)
    }
}

/// The mode that a word names, without regard to the case of its letters.
pub open spec fn spec_server_mode(word: Seq<char>) -> Option<ServerMode> {
    let lowered = ascii_lowered(word);
    if lowered == "stdio"@ {
        Some(ServerMode::Stdio)
    } else if lowered == "http"@ {
        Some(ServerMode::Http)
    } else if lowered == "both"@ {
        Some(ServerMode::Both)
    } else {
        None
    }
}

/// Reads a server mode from a word: `stdio`, `http` or `both`, in any case.
pub fn parse_server_mode(word: &str) -> (r: Result<ServerMode, LogSearchError>)
    ensures
        match r {
            Ok(mode) => spec_server_mode(word@) == Some(mode),
            Err(e) => {
                &&& spec_server_mode(word@) is None
                &&& e matches LogSearchError::ConfigError(m) && m@ == "invalid server.mode: "@
                    + ascii_lowered(word@)
            },
        },
{
    let lowered = to_ascii_lowercase(word);
    if str_eq(lowered.as_str(), "stdio") {
        Ok(ServerMode::Stdio)
    } else if str_eq(lowered.as_str(), "http") {
        Ok(ServerMode::Http)
    } else if str_eq(lowered.as_str(), "both") {
        Ok(ServerMode::Both)
    } else {
        let mut text = String::from_str("invalid server.mode: ");
        text.append(lowered.as_str());
        Err(LogSearchError::ConfigError(text))
    }
}

} // verus!
