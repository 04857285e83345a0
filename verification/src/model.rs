//! The values that a search request and its response are made of.

use vstd::prelude::*;

verus! {

/// One logical record of a log file: a single line, or several consecutive
/// lines gathered under one start line. Lines are numbered from 1.
#[derive(Debug, Clone)]
pub struct LogEntry {
    pub file_path: String,
    pub start_line: usize,
    pub end_line: usize,
    pub content: String,
}

/// The mathematical value of a [`LogEntry`].
pub struct LogEntryView {
    pub file_path: Seq<char>,
    pub start_line: int,
    pub end_line: int,
    pub content: Seq<char>,
}

impl View for LogEntry {
    type V = LogEntryView;

    open spec fn view(&self) -> LogEntryView {
        LogEntryView {
            file_path: self.file_path@,
            start_line: self.start_line as int,
            end_line: self.end_line as int,
            content: self.content@,
        }
    }
}

/// Where to look for files: a root directory and glob patterns.
#[derive(Debug, Clone)]
pub struct FileScanConfig {
    pub root_path: String,
    pub include_globs: Vec<String>,
    pub exclude_globs: Vec<String>,
}

/// One text clause. An absent `query` matches every text.
#[derive(Debug, Clone)]
pub struct SearchQuery {
    pub query: Option<String>,
    pub regex: bool,
    pub case_sensitive: bool,
    pub whole_word: bool,
}

/// The two shapes in which a clause may be written: a bare string, or the
/// full record.
#[derive(Debug, Clone)]
pub enum SearchQueryInput {
    Simple(String),
    Full { query: Option<String>, regex: bool, case_sensitive: bool, whole_word: bool },
}

impl From<SearchQueryInput> for SearchQuery {
    fn from(input: SearchQueryInput) -> (q: SearchQuery) {
        match input {
            SearchQueryInput::Simple(s) => SearchQuery {
                query: Some(s),
                regex: false,
                case_sensitive: false,
                whole_word: false,
            },
            SearchQueryInput::Full { query, regex, case_sensitive, whole_word } => SearchQuery {
                query,
                regex,
                case_sensitive,
                whole_word,
            },
        }
    }
}

impl vstd::std_specs::convert::FromSpecImpl<SearchQueryInput> for SearchQuery {
    open spec fn obeys_from_spec() -> bool {
        true
    }

    open spec fn from_spec(input: SearchQueryInput) -> SearchQuery {
        match input {
            SearchQueryInput::Simple(s) => SearchQuery {
                query: Some(s),
                regex: false,
                case_sensitive: false,
                whole_word: false,
            },
            SearchQueryInput::Full { query, regex, case_sensitive, whole_word } => SearchQuery {
                query,
                regex,
                case_sensitive,
                whole_word,
            },
        }
    }
}

/// Three clauses: all of `must`, at least one of `any` unless it is empty,
/// and nothing of `none`.
#[derive(Debug, Clone)]
pub struct LogicalQuery {
    pub must: Vec<SearchQuery>,
    pub any: Vec<SearchQuery>,
    pub none: Vec<SearchQuery>,
}

/// A time window as it arrives in a request: bounds as text, and the
/// expression that finds a timestamp in a record.
#[derive(Debug, Clone)]
pub struct TimeFilter {
    pub time_start: Option<String>,
    pub time_end: Option<String>,
    pub timestamp_regex: Option<String>,
}

/// A match inside a text, in bytes.
#[derive(Debug, Clone, Copy, PartialEq, Eq, Structural)]
pub struct MatchPosition {
    pub offset: usize,
    pub length: usize,
}

/// A search as a caller asks for it.
#[derive(Debug, Clone)]
pub struct SearchRequest {
    pub scan_config: FileScanConfig,
    pub logical_query: LogicalQuery,
    pub time_filter: Option<TimeFilter>,
    pub log_start_pattern: Option<String>,
    pub page_size: usize,
    pub page: usize,
    pub max_hits: Option<usize>,
    pub hard_timeout_ms: Option<u64>,
    pub include_content: bool,
}

/// Whether a request carries record text when it does not say.
pub fn default_include_content() -> (b: bool)
    ensures
        b,
{
    true
}

/// The page of a request that names none.
pub fn default_page() -> (p: usize)
    ensures
        p == 1,
{
    1
}

/// A record that satisfied the query and the time window.
#[derive(Debug, Clone)]
pub struct HitResult {
    pub file_path: String,
    pub start_line: usize,
    pub end_line: usize,
    pub content: String,
    pub match_positions: Vec<MatchPosition>,
}

/// The mathematical value of a [`HitResult`].
pub struct HitView {
    pub file_path: Seq<char>,
    pub start_line: int,
    pub end_line: int,
    pub content: Seq<char>,
    pub match_positions: Seq<MatchPosition>,
}

impl View for HitResult {
    type V = HitView;

    open spec fn view(&self) -> HitView {
        HitView {
            file_path: self.file_path@,
            start_line: self.start_line as int,
            end_line: self.end_line as int,
            content: self.content@,
            match_positions: self.match_positions@,
        }
    }
}

/// The views of a sequence of hits, in order.
pub open spec fn hit_views(hits: Seq<HitResult>) -> Seq<HitView> {
    hits.map_values(|h: HitResult| h@)
}

/// The views of a sequence of records, in order.
pub open spec fn entry_views(entries: Seq<LogEntry>) -> Seq<LogEntryView> {
    entries.map_values(|e: LogEntry| e@)
}

/// The views of a sequence of strings, in order.
pub open spec fn string_views(items: Seq<String>) -> Seq<Seq<char>> {
    items.map_values(|s: String| s@)
}

/// One page of the hits of a search, with the counts that describe the run.
#[derive(Debug, Clone)]
pub struct SearchResponse {
    pub total_hits: usize,
    pub page: usize,
    pub page_size: usize,
    pub total_pages: usize,
    pub hits: Vec<HitResult>,
    pub execution_time_ms: u64,
    pub files_scanned: usize,
    pub timed_out: bool,
    pub failed_files: Vec<(String, String)>,
}

} // verus!
