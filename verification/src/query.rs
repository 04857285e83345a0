//! Matching a record against text clauses and a time window, and locating
//! the matches.

use crate::error::LogSearchError;
use crate::model::LogicalQuery;
use crate::model::MatchPosition;
use crate::model::SearchQuery;
use crate::pattern::escaped;
use crate::pattern::regex_build;
use crate::pattern::regex_built;
use crate::pattern::regex_error_text;
use crate::pattern::regex_escape;
use crate::pattern::regex_find_all;
use crate::pattern::regex_find_first;
use crate::pattern::regex_first_match;
use crate::pattern::regex_is_match;
use crate::pattern::regex_matches;
use crate::pattern::regex_spans;
use crate::text::contains;
use crate::text::contains_bytes;
use crate::text::lowercase_of;
use crate::text::scan;
use crate::text::scan_positions;
use crate::text::scan_whole_words;
use crate::text::spans_within;
use crate::text::to_lowercase;
use crate::text::whole_word_positions;
use crate::timestamp::parse_timestamp;
use crate::timestamp::spec_parse_timestamp;
use crate::timestamp::Timestamp;
use regex::Regex;
use vstd::prelude::*;
use vstd::string::StringExecFns;
use vstd::utf8::encode_utf8;

verus! {

/// A time window ready to be applied: the bounds as instants and the
/// compiled expression that finds a timestamp in a record.
#[derive(Debug, Clone)]
pub struct ParsedTimeFilter {
    pub start: Option<Timestamp>,
    pub end: Option<Timestamp>,
    pub regex: Option<Regex>,
}

/// Evaluates text clauses and time windows. It holds no state.
#[derive(Debug, Clone, Copy)]
pub struct QueryProcessor;

impl Default for QueryProcessor {
    fn default() -> (q: QueryProcessor) {
        QueryProcessor
    }
}

/// The text in which a plain keyword is looked for: the text itself, or its
/// lowercase form where case does not count.
pub open spec fn searched_text(text: Seq<char>, case_sensitive: bool) -> Seq<char> {
    if case_sensitive {
        text
    } else {
        lowercase_of(text)
    }
}

/// The text against which the positions of a clause are counted: the lowercase
/// form for a plain keyword without regard to case, else the text itself.
pub open spec fn measured_text(text: Seq<char>, query: SearchQuery) -> Seq<char> {
    searched_text(text, query.regex || query.case_sensitive)
}

/// The expression that finds `keyword` as a whole word.
pub open spec fn word_pattern(keyword: Seq<char>) -> Seq<char> {
    "\\b"@ + escaped(keyword) + "\\b"@
}

/// Whether a compiled pattern, if there is one, matches the text.
pub open spec fn built_matches(built: Option<Regex>, text: Seq<char>) -> bool {
    match built {
        Some(re) => regex_matches(re, text),
        None => false,
    }
}

/// Whether one clause matches a text. An absent query matches. A regular
/// expression that does not compile matches nothing. A whole word is looked
/// for as an expression between word boundaries. Anything else is looked for
/// as it stands, in lowercase on both sides unless case counts.
pub open spec fn spec_single_match(text: Seq<char>, query: SearchQuery) -> bool {
    match query.query {
        None => true,
        Some(keyword) => if query.regex {
            built_matches(regex_built(keyword@, !query.case_sensitive), text)
        } else if query.whole_word {
            built_matches(regex_built(word_pattern(keyword@), !query.case_sensitive), text)
        } else {
            contains_bytes(
                encode_utf8(searched_text(text, query.case_sensitive)),
                encode_utf8(searched_text(keyword@, query.case_sensitive)),
            )
        },
    }
}

/// Every clause of the sequence matches the text.
pub open spec fn all_match(text: Seq<char>, clauses: Seq<SearchQuery>) -> bool {
    forall|i: int| 0 <= i < clauses.len() ==> spec_single_match(text, #[trigger] clauses[i])
}

/// Some clause of the sequence matches the text.
pub open spec fn some_match(text: Seq<char>, clauses: Seq<SearchQuery>) -> bool {
    exists|i: int| 0 <= i < clauses.len() && spec_single_match(text, #[trigger] clauses[i])
}

/// Whether a text satisfies a logical query: every `must` clause matches, one
/// `any` clause matches unless there is none, and no `none` clause matches.
pub open spec fn spec_matches(text: Seq<char>, query: LogicalQuery) -> bool {
    &&& all_match(text, query.must@)
    &&& query.any@.len() == 0 || some_match(text, query.any@)
    &&& !some_match(text, query.none@)
}

/// The matches of one clause in a text, as byte spans. An absent or empty
/// query has none, and neither has an expression that does not compile.
pub open spec fn spec_find_positions(text: Seq<char>, query: SearchQuery) -> Seq<MatchPosition> {
    match query.query {
        None => Seq::empty(),
        Some(keyword) => if keyword@.len() == 0 {
            Seq::empty()
        } else if query.regex {
            match regex_built(keyword@, !query.case_sensitive) {
                Some(re) => regex_spans(re, text),
                None => Seq::empty(),
            }
        } else if query.whole_word {
            whole_word_positions(
                encode_utf8(searched_text(text, query.case_sensitive)),
                encode_utf8(searched_text(keyword@, query.case_sensitive)),
                0,
            )
        } else {
            scan_positions(
                encode_utf8(searched_text(text, query.case_sensitive)),
                encode_utf8(searched_text(keyword@, query.case_sensitive)),
                0,
            )
        },
    }
}

/// Whether a record passes a time window. It passes where there is no window,
/// no expression, no match of the expression, or no instant to be read from
/// the match; else where the instant is not before the start and not after
/// the end.
pub open spec fn spec_time_accepts(text: Seq<char>, filter: Option<ParsedTimeFilter>) -> bool {
    match filter {
        None => true,
        Some(window) => match window.regex {
            None => true,
            Some(re) => match regex_first_match(re, text) {
                None => true,
                Some(found) => match spec_parse_timestamp(found) {
                    None => true,
                    Some(at) => within_bounds(at, window.start, window.end),
                },
            },
        },
    }
}

/// The instant is not before `start` and not after `end`, where they are set.
pub open spec fn within_bounds(at: Timestamp, start: Option<Timestamp>, end: Option<Timestamp>) -> bool {
    &&& start matches Some(s) ==> !at.spec_before(s)
    &&& end matches Some(e) ==> !e.spec_before(at)
}

impl QueryProcessor {
    pub fn new() -> (q: QueryProcessor) {
        QueryProcessor
    }

    /// Compiles a pattern, without regard to case unless `case_sensitive`.
    pub fn compile_regex(&self, pattern: &str, case_sensitive: bool) -> (r: Result<
        Regex,
        LogSearchError,
    >)
        ensures
            r is Ok <==> regex_built(pattern@, !case_sensitive) is Some,
            r is Ok ==> regex_built(pattern@, !case_sensitive) == Some(r->Ok_0),
            r matches Err(e) ==> e matches LogSearchError::RegexError { pattern: p, .. } && p@
                == pattern@,
    {
        match regex_build(pattern, !case_sensitive) {
            Ok(re) => Ok(re),
            Err(e) => Err(
                LogSearchError::RegexError {
                    pattern: String::from_str(pattern),
                    reason: regex_error_text(&e),
                },
            ),
        }
    }

    /// Tells whether one clause matches a text.
    pub fn single_match(&self, text: &str, query: &SearchQuery) -> (b: bool)
        ensures
            b == spec_single_match(text@, *query),
    {
        let keyword: &String = match &query.query {
            None => {
                return true;
            },
            Some(k) => k,
        };
        if query.regex {
            return match regex_build(keyword.as_str(), !query.case_sensitive) {
                Ok(re) => regex_is_match(&re, text),
                Err(_) => false,
            };
        }
        if query.whole_word {
            let quoted = regex_escape(keyword.as_str());
            let mut pattern = String::from_str("\\b");
            pattern.append(quoted.as_str());
            pattern.append("\\b");
            return match regex_build(pattern.as_str(), !query.case_sensitive) {
                Ok(re) => regex_is_match(&re, text),
                Err(_) => false,
            };
        }
        if query.case_sensitive {
            contains(text.as_bytes(), keyword.as_str().as_bytes())
        } else {
            let hay = to_lowercase(text);
            let key = to_lowercase(keyword.as_str());
            contains(hay.as_str().as_bytes(), key.as_str().as_bytes())
        }
    }

    /// Tells whether a text satisfies a logical query.
    pub fn matches(&self, text: &str, query: &LogicalQuery) -> (b: bool)
        ensures
            b == spec_matches(text@, *query),
    {
        if !self.matches_all(text, &query.must) {
            return false;
        }
        if query.any.len() != 0 && !self.matches_some(text, &query.any) {
            return false;
        }
        if self.matches_some(text, &query.none) {
            return false;
        }
        true
    }

    fn matches_all(&self, text: &str, clauses: &Vec<SearchQuery>) -> (b: bool)
        ensures
            b == all_match(text@, clauses@),
    {
        let mut i: usize = 0;
        while i < clauses.len()
            invariant
                i <= clauses@.len(),
                forall|j: int| 0 <= j < i ==> spec_single_match(text@, #[trigger] clauses@[j]),
            decreases clauses@.len() - i,
        {
            if !self.single_match(text, &clauses[i]) {
                return false;
            }
            i += 1;
        }
        true
    }

    fn matches_some(&self, text: &str, clauses: &Vec<SearchQuery>) -> (b: bool)
        ensures
            b == some_match(text@, clauses@),
    {
        let mut i: usize = 0;
        while i < clauses.len()
            invariant
                i <= clauses@.len(),
                forall|j: int| 0 <= j < i ==> !spec_single_match(text@, #[trigger] clauses@[j]),
            decreases clauses@.len() - i,
        {
            if self.single_match(text, &clauses[i]) {
                return true;
            }
            i += 1;
        }
        false
    }

    /// Lists the matches of one clause in a text, as byte spans. The spans of
    /// a plain keyword without regard to case are counted in the lowercase
    /// form of the text.
    pub fn find_positions(&self, text: &str, query: &SearchQuery) -> (spans: Vec<MatchPosition>)
        ensures
            spans@ == spec_find_positions(text@, *query),
            spans_within(spans@, encode_utf8(measured_text(text@, *query)).len() as int),
    {
        let keyword: &String = match &query.query {
            None => {
                return Vec::new();
            },
            Some(k) => k,
        };
        if keyword.as_str().is_empty() {
            return Vec::new();
        }
        if query.regex {
            return match regex_build(keyword.as_str(), !query.case_sensitive) {
                Ok(re) => regex_find_all(&re, text),
                Err(_) => Vec::new(),
            };
        }
        if query.case_sensitive {
            if query.whole_word {
                scan_whole_words(text.as_bytes(), keyword.as_str().as_bytes())
            } else {
                scan(text.as_bytes(), keyword.as_str().as_bytes())
            }
        } else {
            let hay = to_lowercase(text);
            let key = to_lowercase(keyword.as_str());
            if query.whole_word {
                scan_whole_words(hay.as_str().as_bytes(), key.as_str().as_bytes())
            } else {
                scan(hay.as_str().as_bytes(), key.as_str().as_bytes())
            }
        }
    }

    /// Tells whether a record passes a time window.
    pub fn apply_time_filter(&self, text: &str, filter: &Option<ParsedTimeFilter>) -> (b: bool)
        ensures
            b == spec_time_accepts(text@, *filter),
    {
        let window: &ParsedTimeFilter = match filter {
            None => {
                return true;
            },
            Some(w) => w,
        };
        let re: &Regex = match &window.regex {
            None => {
                return true;
            },
            Some(re) => re,
        };
        let found: String = match regex_find_first(re, text) {
            None => {
                return true;
            },
            Some(found) => found,
        };
        let at: Timestamp = match parse_timestamp(found.as_str()) {
            None => {
                return true;
            },
            Some(at) => at,
        };
        if let Some(start) = &window.start {
            if at.before(start) {
                return false;
            }
        }
        if let Some(end) = &window.end {
            if end.before(&at) {
                return false;
            }
        }
        true
    }
}

} // verus!
