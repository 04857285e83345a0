//! The engine: it checks a request, settles what the request leaves open,
//! works through the files and assembles the response.

use crate::aggregate::failure_views;
use crate::aggregate::spec_absorb_all;
use crate::aggregate::Aggregation;
use crate::aggregate::Tally;
use crate::aggregate::TaskResult;
use crate::aggregate::TaskView;
use crate::config::Config;
use crate::error::spec_joined;
use crate::error::LogSearchError;
use crate::hits::hits_sound;
use crate::hits::scan_entries;
use crate::hits::spans_ordered_hits;
use crate::hits::spec_scan_entries;
use crate::model::hit_views;
use crate::model::string_views;
use crate::model::FileScanConfig;
use crate::model::HitResult;
use crate::model::HitView;
use crate::model::SearchRequest;
use crate::model::SearchResponse;
use crate::model::TimeFilter;
use crate::paging::ceil_div;
use crate::paging::page_slice;
use crate::paging::spec_page_size;
use crate::parser::law_parse_partitions;
use crate::parser::spec_parse;
use crate::parser::LogParser;
use crate::pattern::regex_built;
use crate::query::ParsedTimeFilter;
use crate::query::QueryProcessor;
use crate::reader::spec_read_lines;
use crate::reader::FileReader;
use crate::scanner::globs_usable;
use crate::scanner::is_chosen;
use crate::scanner::FileScanner;
use crate::scanner::PathProbe;
use crate::sorting::strictly_sorted;
use crate::timestamp::parse_timestamp;
use crate::timestamp::spec_parse_timestamp;
use crate::timestamp::Timestamp;
use regex::Regex;
use vstd::prelude::*;
use vstd::string::StringExecFns;

verus! {

/// What a look at the root path of a request found.
#[derive(Debug, Clone)]
pub enum RootStatus {
    /// The path names a directory.
    Directory,
    /// The path names something that is no directory.
    NotDirectory,
    /// The path could not be looked up, for the reason given.
    Missing { reason: String },
}

/// Why a request is refused before any file is read.
pub enum RequestFault {
    /// No root is named and no files are configured for every search.
    NoSource,
    /// The root is no directory.
    RootNotDirectory,
    /// The root could not be looked up.
    RootMissing,
    /// The page is 0.
    PageZero,
}

/// The text of an optional string.
pub open spec fn opt_view(text: Option<String>) -> Option<Seq<char>> {
    match text {
        Some(s) => Some(s@),
        None => None,
    }
}

/// Whether files are configured that every search reads.
pub open spec fn has_global_paths(config: Config) -> bool {
    config.log_sources.log_file_paths matches Some(paths) && paths@.len() > 0
}

/// The first fault of a request, or nothing where it has none. A request
/// without a root needs configured files; a root must be there and be a
/// directory; the page must be at least 1.
pub open spec fn request_fault(request: SearchRequest, config: Config, root: RootStatus) -> Option<
    RequestFault,
> {
    if request.scan_config.root_path@.len() == 0 && !has_global_paths(config) {
        Some(RequestFault::NoSource)
    } else if request.scan_config.root_path@.len() > 0 && root is NotDirectory {
        Some(RequestFault::RootNotDirectory)
    } else if request.scan_config.root_path@.len() > 0 && root is Missing {
        Some(RequestFault::RootMissing)
    } else if request.page == 0 {
        Some(RequestFault::PageZero)
    } else {
        None
    }
}

/// The reason why a root could not be looked up, where it could not.
pub open spec fn missing_reason(root: RootStatus) -> Option<Seq<char>> {
    match root {
        RootStatus::Missing { reason } => Some(reason@),
        _ => None,
    }
}

/// Whether an error reports a fault of a request.
pub open spec fn reports(
    e: LogSearchError,
    fault: RequestFault,
    request: SearchRequest,
    root: RootStatus,
) -> bool {
    match fault {
        RequestFault::NoSource => e matches LogSearchError::InvalidRequest(m) && m@
            == "root_path is empty and no global log_file_paths configured"@,
        RequestFault::RootNotDirectory => e matches LogSearchError::InvalidRequest(m) && m@ == "\""@
            + request.scan_config.root_path@ + "\" is not a directory"@,
        RequestFault::RootMissing => {
            &&& e matches LogSearchError::FileAccessError { path, reason } && path@
                == request.scan_config.root_path@ && Some(reason@) == missing_reason(root)
        },
        RequestFault::PageZero => e matches LogSearchError::InvalidRequest(m) && m@
            == "page must be >= 1"@,
    }
}

/// The time limit of the work on one file, in milliseconds: the limit of the
/// request where it is set and above 0, else the server's default where that
/// is above 0, else none.
pub open spec fn spec_effective_timeout(requested: Option<u64>, default_ms: u64) -> Option<u64> {
    match requested {
        Some(ms) if ms > 0 => Some(ms),
        _ => if default_ms > 0 {
            Some(default_ms)
        } else {
            None
        },
    }
}

/// The time limit of the work on one file, in milliseconds.
pub fn effective_timeout(requested: Option<u64>, default_ms: u64) -> (limit: Option<u64>)
    ensures
        limit == spec_effective_timeout(requested, default_ms),
{
    if let Some(ms) = requested {
        if ms > 0 {
            return Some(ms);
        }
    }
    if default_ms > 0 {
        Some(default_ms)
    } else {
        None
    }
}

/// The start pattern that a search uses, as text: that of the request, else
/// the server's default.
pub open spec fn chosen_start_pattern(request: SearchRequest, config: Config) -> Option<Seq<char>> {
    if request.log_start_pattern is Some {
        opt_view(request.log_start_pattern)
    } else {
        opt_view(config.log_parser.default_log_start_pattern)
    }
}

/// A time window as texts: its start, its end and its expression.
pub struct WindowView {
    pub start: Option<Seq<char>>,
    pub end: Option<Seq<char>>,
    pub regex: Option<Seq<char>>,
}

impl View for TimeFilter {
    type V = WindowView;

    open spec fn view(&self) -> WindowView {
        WindowView {
            start: opt_view(self.time_start),
            end: opt_view(self.time_end),
            regex: opt_view(self.timestamp_regex),
        }
    }
}

/// The time window that a search uses: that of the request, with the
/// server's default expression where it names none; or, where the request
/// has no window and the server has a default expression, a window without
/// bounds under that expression.
pub open spec fn chosen_window(request: SearchRequest, config: Config) -> Option<WindowView> {
    match request.time_filter {
        Some(window) => Some(
            WindowView {
                start: window@.start,
                end: window@.end,
                regex: if window@.regex is Some {
                    window@.regex
                } else {
                    opt_view(config.log_parser.default_timestamp_regex)
                },
            },
        ),
        None => match config.log_parser.default_timestamp_regex {
            Some(regex) => Some(WindowView { start: None, end: None, regex: Some(regex@) }),
            None => None,
        },
    }
}

/// The instant that an optional text stands for.
pub open spec fn opt_instant(text: Option<Seq<char>>) -> Option<Timestamp> {
    match text {
        Some(t) => spec_parse_timestamp(t),
        None => None,
    }
}

/// Whether a time window can be made ready: its expression, if it has one,
/// compiles.
pub open spec fn window_usable(window: WindowView) -> bool {
    window.regex matches Some(pattern) ==> regex_built(pattern, false) is Some
}

/// The window in its ready form: bounds that cannot be read as instants are
/// dropped, and the expression is compiled with regard to case.
pub open spec fn spec_parsed_window(window: WindowView) -> ParsedTimeFilter {
    ParsedTimeFilter {
        start: opt_instant(window.start),
        end: opt_instant(window.end),
        regex: match window.regex {
            Some(pattern) => regex_built(pattern, false),
            None => None,
        },
    }
}

fn clone_opt(text: &Option<String>) -> (copy: Option<String>)
    ensures
        opt_view(copy) == opt_view(*text),
{
    match text {
        Some(s) => Some(s.clone()),
        None => None,
    }
}

fn parse_opt(text: &Option<String>) -> (at: Option<Timestamp>)
    ensures
        at == opt_instant(opt_view(*text)),
{
    match text {
        Some(s) => parse_timestamp(s.as_str()),
        None => None,
    }
}

/// Makes a time window ready to be applied.
pub fn parse_time_filter(window: &TimeFilter) -> (r: Result<ParsedTimeFilter, LogSearchError>)
    ensures
        r is Ok <==> window_usable(window@),
        r matches Ok(parsed) ==> parsed == spec_parsed_window(window@),
        r matches Err(e) ==> e matches LogSearchError::RegexError { pattern, .. } && Some(pattern@)
            == window@.regex,
{
    let regex: Option<Regex> = match &window.timestamp_regex {
        Some(pattern) => match QueryProcessor::new().compile_regex(pattern.as_str(), true) {
            Ok(re) => Some(re),
            Err(e) => {
                return Err(e);
            },
        },
        None => None,
    };
    Ok(
        ParsedTimeFilter {
            start: parse_opt(&window.time_start),
            end: parse_opt(&window.time_end),
            regex,
        },
    )
}



/// What a search has settled before it reads a file.
#[derive(Debug, Clone)]
pub struct SearchPlan {
    /// The compiled start pattern, where records may span several lines.
    pub start_pattern: Option<Regex>,
    /// The time window in its ready form.
    pub time_filter: Option<ParsedTimeFilter>,
    /// The time limit of the work on one file, in milliseconds.
    pub timeout_ms: Option<u64>,
    /// The number of files that are worked on at a time; at least 1.
    pub max_concurrent: usize,
}

/// Whether a search can be planned: its start pattern and the expression of
/// its time window compile.
pub open spec fn plan_usable(request: SearchRequest, config: Config) -> bool {
    &&& chosen_start_pattern(request, config) matches Some(pattern) ==> regex_built(pattern, false)
        is Some
    &&& chosen_window(request, config) matches Some(window) ==> window_usable(window)
}

/// The plan of a search.
pub open spec fn spec_plan(request: SearchRequest, config: Config) -> SearchPlan {
    SearchPlan {
        start_pattern: match chosen_start_pattern(request, config) {
            Some(pattern) => regex_built(pattern, false),
            None => None,
        },
        time_filter: match chosen_window(request, config) {
            Some(window) => Some(spec_parsed_window(window)),
            None => None,
        },
        timeout_ms: spec_effective_timeout(
            request.hard_timeout_ms,
            config.search.default_timeout_ms,
        ),
        max_concurrent: if config.search.max_concurrent_files < 1 {
            1
        } else {
            config.search.max_concurrent_files
        },
    }
}

/// The pattern whose refusal an error of planning reports: the start pattern
/// where that does not compile, else the expression of the time window.
pub open spec fn refused_pattern(request: SearchRequest, config: Config) -> Option<Seq<char>> {
    match chosen_start_pattern(request, config) {
        Some(pattern) if regex_built(pattern, false) is None => Some(pattern),
        _ => match chosen_window(request, config) {
            Some(window) => window.regex,
            None => None,
        },
    }
}

/// A file as it was loaded for a search: its path, and its bytes (inflated,
/// for a gzip file) or the reason why they could not be had.
#[derive(Debug, Clone)]
pub struct LoadedFile {
    pub path: String,
    pub content: FileContent,
}

/// What loading a file gave.
#[derive(Debug, Clone)]
pub enum FileContent {
    /// The bytes of the file; for a gzip file, the inflated bytes.
    Bytes(Vec<u8>),
    /// The reason why the file could not be read.
    Unreadable(String),
}

/// What the work on one loaded file gives. A file that could not be loaded
/// or decoded fails with the reason; any other gives the hits of its records.
pub open spec fn spec_run_file(file: LoadedFile, request: SearchRequest, plan: SearchPlan) -> TaskView {
    match file.content {
        FileContent::Unreadable(reason) => TaskView {
            hits: Seq::empty(),
            failed: Some((file.path@, reason@)),
            timed_out: false,
        },
        FileContent::Bytes(raw) => match spec_read_lines(file.path@, raw@) {
            Err(why) => TaskView {
                hits: Seq::empty(),
                failed: Some((file.path@, spec_joined("编码检测失败: "@, file.path@, " - "@, why))),
                timed_out: false,
            },
            Ok(lines) => TaskView {
                hits: spec_scan_entries(
                    spec_parse(file.path@, plan.start_pattern, lines),
                    request.logical_query,
                    plan.time_filter,
                    request.include_content,
                    request.max_hits,
                ),
                failed: None,
                timed_out: false,
            },
        },
    }
}

/// What the work on each of a sequence of loaded files gives, in order.
pub open spec fn spec_run_files(files: Seq<LoadedFile>, request: SearchRequest, plan: SearchPlan) -> Seq<
    TaskView,
> {
    files.map_values(|file: LoadedFile| spec_run_file(file, request, plan))
}

/// Whether a response presents a state of a search: the counts are those of
/// the state, and the hits are the asked page of its hits.
pub open spec fn presents(
    response: SearchResponse,
    tally: Tally,
    request: SearchRequest,
    config: Config,
    elapsed_ms: u64,
) -> bool {
    &&& response.total_hits == tally.hits.len()
    &&& response.page == if request.page == 0 {
        1
    } else {
        request.page
    }
    &&& response.page_size == spec_page_size(request.page_size, config.search)
    &&& response.total_pages == ceil_div(response.total_hits as int, response.page_size as int)
    &&& hit_views(response.hits@) == page_slice(
        tally.hits,
        response.page as int,
        response.page_size as int,
    )
    &&& response.execution_time_ms == elapsed_ms
    &&& response.files_scanned == tally.files_scanned
    &&& response.timed_out == tally.timed_out
    &&& failure_views(response.failed_files@) == tally.failed_files
}

/// A search is settled by what it is given: two responses that present the
/// same state under the same request and settings agree in their counts,
/// their hits and their failures, whatever time each took.
pub proof fn law_search_repeatable(
    first: SearchResponse,
    second: SearchResponse,
    tally: Tally,
    request: SearchRequest,
    config: Config,
    first_ms: u64,
    second_ms: u64,
)
    requires
        presents(first, tally, request, config, first_ms),
        presents(second, tally, request, config, second_ms),
    ensures
        first.total_hits == second.total_hits,
        first.page == second.page,
        first.page_size == second.page_size,
        first.total_pages == second.total_pages,
        hit_views(first.hits@) == hit_views(second.hits@),
        first.files_scanned == second.files_scanned,
        first.timed_out == second.timed_out,
        failure_views(first.failed_files@) == failure_views(second.failed_files@),
{
}

/// A search that has stopped stays as it is, whatever files follow.
pub proof fn lemma_stopped_stays(tasks: Seq<TaskView>, max_hits: Option<usize>, n: int)
    requires
        0 <= n <= tasks.len(),
        spec_absorb_all(tasks.take(n), max_hits).stopped,
    ensures
        spec_absorb_all(tasks, max_hits) == spec_absorb_all(tasks.take(n), max_hits),
    decreases tasks.len() - n,
{
    if n < tasks.len() {
        assert(tasks.take(n + 1).drop_last() =~= tasks.take(n));
        lemma_stopped_stays(tasks, max_hits, n + 1);
    } else {
        assert(tasks.take(n) =~= tasks);
    }
}

/// The engine of the search.
#[derive(Debug, Clone)]
pub struct SearchEngine {
    pub config: Config,
    pub scanner: FileScanner,
    pub reader: FileReader,
    pub parser: LogParser,
    pub query: QueryProcessor,
}

impl SearchEngine {
    /// An engine under the given settings; its reader takes the buffer size
    /// of the settings.
    pub fn new(config: Config) -> (engine: SearchEngine)
        ensures
            engine.config == config,
            engine.reader.buffer_size == config.search.buffer_size,
    {
        let reader = FileReader::new(config.search.buffer_size);
        SearchEngine {
            config,
            scanner: FileScanner::new(),
            reader,
            parser: LogParser::new(),
            query: QueryProcessor::new(),
        }
    }

    /// Chooses the files of a scan. `global` holds what a look at each of the
    /// files configured for every search found, and counts only where such
    /// files are configured; `walked` holds every path found under the root.
    pub fn list_files(
        &self,
        config: &FileScanConfig,
        global: &Option<Vec<PathProbe>>,
        walked: &Vec<PathProbe>,
    ) -> (r: Result<Vec<String>, LogSearchError>)
        ensures
            r is Ok <==> globs_usable(*config),
            r matches Ok(files) ==> strictly_sorted(string_views(files@)) && (forall|p: Seq<char>|
                #[trigger] string_views(files@).contains(p) <==> is_chosen(
                    *config,
                    if self.config.log_sources.log_file_paths is Some {
                        *global
                    } else {
                        None
                    },
                    walked@,
                    p,
                )),
            r matches Err(e) ==> e is ConfigError,
    {
        if self.config.log_sources.log_file_paths.is_some() {
            self.scanner.scan_with_paths(config, global, walked)
        } else {
            self.scanner.scan(config, walked)
        }
    }

    /// Checks a request before any file is read. `root` tells what a look at
    /// the root path found; it counts only where the request names a root.
    pub fn validate_request(&self, request: &SearchRequest, root: &RootStatus) -> (r: Result<
        (),
        LogSearchError,
    >)
        ensures
            r is Ok <==> request_fault(*request, self.config, *root) is None,
            r matches Err(e) ==> request_fault(*request, self.config, *root) matches Some(fault)
                && reports(e, fault, *request, *root),
    {
        let has_global: bool = match &self.config.log_sources.log_file_paths {
            Some(paths) => paths.len() > 0,
            None => false,
        };
        if request.scan_config.root_path.as_str().is_empty() {
            if !has_global {
                return Err(
                    LogSearchError::InvalidRequest(
                        String::from_str(
                            "root_path is empty and no global log_file_paths configured",
                        ),
                    ),
                );
            }
        } else {
            match root {
                RootStatus::Directory => {},
                RootStatus::NotDirectory => {
                    let mut text = String::from_str("\"");
                    text.append(request.scan_config.root_path.as_str());
                    text.append("\" is not a directory");
                    return Err(LogSearchError::InvalidRequest(text));
                },
                RootStatus::Missing { reason } => {
                    return Err(
                        LogSearchError::FileAccessError {
                            path: request.scan_config.root_path.clone(),
                            reason: reason.clone(),
                        },
                    );
                },
            }
        }
        if request.page == 0 {
            return Err(LogSearchError::InvalidRequest(String::from_str("page must be >= 1")));
        }
        Ok(())
    }

    /// The time window that a search uses.
    pub fn resolve_time_filter(&self, request: &SearchRequest) -> (window: Option<TimeFilter>)
        ensures
            match window {
                Some(w) => chosen_window(*request, self.config) == Some(w@),
                None => chosen_window(*request, self.config) is None,
            },
    {
        match &request.time_filter {
            Some(window) => {
                let regex = if window.timestamp_regex.is_some() {
                    clone_opt(&window.timestamp_regex)
                } else {
                    clone_opt(&self.config.log_parser.default_timestamp_regex)
                };
                Some(
                    TimeFilter {
                        time_start: clone_opt(&window.time_start),
                        time_end: clone_opt(&window.time_end),
                        timestamp_regex: regex,
                    },
                )
            },
            None => match &self.config.log_parser.default_timestamp_regex {
                Some(regex) => Some(
                    TimeFilter {
                        time_start: None,
                        time_end: None,
                        timestamp_regex: Some(regex.clone()),
                    },
                ),
                None => None,
            },
        }
    }

    /// Settles what a search needs before it reads a file: the start pattern
    /// and the time window, compiled, and the limits of the work.
    pub fn prepare(&self, request: &SearchRequest) -> (r: Result<SearchPlan, LogSearchError>)
        ensures
            r is Ok <==> plan_usable(*request, self.config),
            r matches Ok(plan) ==> plan == spec_plan(*request, self.config),
            r matches Err(e) ==> e matches LogSearchError::RegexError { pattern, .. } && Some(
                pattern@,
            ) == refused_pattern(*request, self.config),
    {
        let chosen: &Option<String> = if request.log_start_pattern.is_some() {
            &request.log_start_pattern
        } else {
            &self.config.log_parser.default_log_start_pattern
        };
        let start_pattern: Option<Regex> = match chosen {
            Some(pattern) => match self.query.compile_regex(pattern.as_str(), true) {
                Ok(re) => Some(re),
                Err(e) => {
                    return Err(e);
                },
            },
            None => None,
        };
        let time_filter: Option<ParsedTimeFilter> = match self.resolve_time_filter(request) {
            Some(window) => match parse_time_filter(&window) {
                Ok(parsed) => Some(parsed),
                Err(e) => {
                    return Err(e);
                },
            },
            None => None,
        };
        let max_concurrent: usize = if self.config.search.max_concurrent_files < 1 {
            1
        } else {
            self.config.search.max_concurrent_files
        };
        Ok(
            SearchPlan {
                start_pattern,
                time_filter,
                timeout_ms: effective_timeout(
                    request.hard_timeout_ms,
                    self.config.search.default_timeout_ms,
                ),
                max_concurrent,
            },
        )
    }

    /// Searches the lines of one file: gathers them into records and turns
    /// the records that pass into hits.
    pub fn search_file(&self, path: &str, lines: &Vec<String>, request: &SearchRequest) -> (r:
        Result<Vec<HitResult>, LogSearchError>)
        ensures
            r is Ok <==> plan_usable(*request, self.config),
            r matches Ok(hits) ==> hit_views(hits@) == spec_scan_entries(
                spec_parse(
                    path@,
                    spec_plan(*request, self.config).start_pattern,
                    string_views(lines@),
                ),
                request.logical_query,
                spec_plan(*request, self.config).time_filter,
                request.include_content,
                request.max_hits,
            ),
            r matches Ok(hits) ==> spans_ordered_hits(hit_views(hits@)) && hits_sound(
                hit_views(hits@),
                request.logical_query,
                request.include_content,
            ),
            r matches Err(e) ==> e matches LogSearchError::RegexError { pattern, .. } && Some(
                pattern@,
            ) == refused_pattern(*request, self.config),
    {
        let plan = match self.prepare(request) {
            Ok(plan) => plan,
            Err(e) => {
                return Err(e);
            },
        };
        let entries = self.parser.parse(path, lines, &plan.start_pattern);
        proof {
            law_parse_partitions(path@, plan.start_pattern, string_views(lines@));
        }
        Ok(scan_entries(&self.query, &entries, request, &plan.time_filter))
    }

    /// Works on one loaded file: reads its lines, gathers them into records
    /// and turns the records that pass into hits. A file that could not be
    /// loaded or decoded fails by itself, with the reason.
    pub fn run_file(&self, file: &LoadedFile, request: &SearchRequest, plan: &SearchPlan) -> (task:
        TaskResult)
        ensures
            task@ == spec_run_file(*file, *request, *plan),
            spans_ordered_hits(task@.hits),
            hits_sound(task@.hits, request.logical_query, request.include_content),
    {
        let raw: &Vec<u8> = match &file.content {
            FileContent::Bytes(raw) => raw,
            FileContent::Unreadable(reason) => {
                let task = TaskResult {
                    hits: Vec::new(),
                    failed: Some((file.path.clone(), reason.clone())),
                    timed_out: false,
                };
                proof {
                    assert(task@.hits =~= Seq::<HitView>::empty());
                }
                return task;
            },
        };
        let path: &str = file.path.as_str();
        match self.reader.read_lines(path, raw.as_slice()) {
            Ok(lines) => {
                let entries = self.parser.parse(path, &lines, &plan.start_pattern);
                proof {
                    law_parse_partitions(path@, plan.start_pattern, string_views(lines@));
                }
                TaskResult {
                    hits: scan_entries(&self.query, &entries, request, &plan.time_filter),
                    failed: None,
                    timed_out: false,
                }
            },
            Err(e) => {
                let task = TaskResult {
                    hits: Vec::new(),
                    failed: Some((file.path.clone(), e.message())),
                    timed_out: false,
                };
                proof {
                    assert(task@.hits =~= Seq::<HitView>::empty());
                }
                task
            },
        }
    }

    /// Searches loaded files, one after the other in the order given, and
    /// assembles the response. `root` tells what a look at the root path of
    /// the request found; `elapsed_ms` is the time that the caller measured.
    /// The request is checked first, then the plan is made; either may fail.
    /// The search ends early once the cap of the request is reached.
    pub fn search(
        &self,
        request: &SearchRequest,
        root: &RootStatus,
        files: &Vec<LoadedFile>,
        elapsed_ms: u64,
    ) -> (r: Result<SearchResponse, LogSearchError>)
        ensures
            r is Ok <==> request_fault(*request, self.config, *root) is None && plan_usable(
                *request,
                self.config,
            ),
            r matches Ok(response) ==> presents(
                response,
                spec_absorb_all(
                    spec_run_files(files@, *request, spec_plan(*request, self.config)),
                    request.max_hits,
                ),
                *request,
                self.config,
                elapsed_ms,
            ),
            r matches Ok(response) ==> spans_ordered_hits(hit_views(response.hits@)) && hits_sound(
                hit_views(response.hits@),
                request.logical_query,
                request.include_content,
            ),
            r matches Err(e) ==> match request_fault(*request, self.config, *root) {
                Some(fault) => reports(e, fault, *request, *root),
                None => e matches LogSearchError::RegexError { pattern, .. } && Some(pattern@)
                    == refused_pattern(*request, self.config),
            },
    {
        match self.validate_request(request, root) {
            Ok(()) => {},
            Err(e) => {
                return Err(e);
            },
        }
        let plan = match self.prepare(request) {
            Ok(plan) => plan,
            Err(e) => {
                return Err(e);
            },
        };
        let ghost tasks = spec_run_files(files@, *request, plan);
        let mut state = Aggregation::new();
        let mut i: usize = 0;
        let mut go_on: bool = true;
        proof {
            assert(tasks.take(0) =~= Seq::<TaskView>::empty());
        }
        while i < files.len() && go_on
            invariant
                i <= files@.len(),
                tasks == spec_run_files(files@, *request, plan),
                state@ == spec_absorb_all(tasks.take(i as int), request.max_hits),
                state.files_scanned <= i,
                go_on == !state.stopped,
                spans_ordered_hits(state@.hits),
                hits_sound(state@.hits, request.logical_query, request.include_content),
            decreases files@.len() - i,
        {
            proof {
                assert(tasks.take(i + 1).drop_last() =~= tasks.take(i as int));
                assert(tasks.take(i + 1).last() == spec_run_file(files@[i as int], *request, plan));
            }
            let task = self.run_file(&files[i], request, &plan);
            go_on = state.absorb(task, request.max_hits);
            i += 1;
        }
        proof {
            if state.stopped {
                lemma_stopped_stays(tasks, request.max_hits, i as int);
            } else {
                assert(tasks.take(i as int) =~= tasks);
            }
        }
        let ghost all_hits = state.hits@;
        let response = state.respond(request.page, request.page_size, &self.config.search, elapsed_ms);
        proof {
            let from = crate::paging::clip(
                (response.page - 1) * response.page_size,
                all_hits.len() as int,
            );
            let to = crate::paging::clip(
                response.page * response.page_size,
                all_hits.len() as int,
            );
            assert(from <= to) by (nonlinear_arith)
                requires
                    from == crate::paging::clip(
                        (response.page - 1) * response.page_size,
                        all_hits.len() as int,
                    ),
                    to == crate::paging::clip(
                        response.page * response.page_size,
                        all_hits.len() as int,
                    ),
                    response.page >= 1,
                    response.page_size >= 0,
            ;
            assert(hit_views(all_hits.subrange(from, to)) =~= hit_views(all_hits).subrange(
                from,
                to,
            ));
            let page = hit_views(response.hits@);
            assert forall|k: int| 0 <= k < page.len() implies (#[trigger] page[k]).start_line
                <= page[k].end_line && crate::hits::matches_sound(
                page[k],
                request.logical_query,
                request.include_content,
            ) by {
                assert(page[k] == hit_views(all_hits)[from + k]);
            }
        }
        Ok(response)
    }
}

} // verus!
