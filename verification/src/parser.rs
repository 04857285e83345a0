//! Gathering the lines of a file into records.

use crate::model::entry_views;
use crate::model::string_views;
use crate::model::LogEntry;
use crate::model::LogEntryView;
use crate::pattern::regex_is_match;
use crate::pattern::regex_matches;
use regex::Regex;
use vstd::prelude::*;
use vstd::string::StringExecFns;

verus! {

/// Whether a line opens a record. Without a start pattern every line does.
pub open spec fn is_start_line(pattern: Option<Regex>, line: Seq<char>) -> bool {
    match pattern {
        None => true,
        Some(re) => regex_matches(re, line),
    }
}

/// Whether line `n` (counted from 1) opens a record: the first line always
/// does, each later one where it is a start line.
pub open spec fn opens_record(pattern: Option<Regex>, lines: Seq<Seq<char>>, n: int) -> bool {
    n <= 1 || is_start_line(pattern, lines[n - 1])
}

/// The record that is still being gathered after the first `n` lines, for
/// `n >= 1`: it runs from the last line that opened a record up to line `n`.
pub open spec fn open_entry(
    path: Seq<char>,
    pattern: Option<Regex>,
    lines: Seq<Seq<char>>,
    n: int,
) -> LogEntryView
    decreases n,
{
    if opens_record(pattern, lines, n) {
        LogEntryView { file_path: path, start_line: n, end_line: n, content: lines[n - 1] }
    } else {
        let before = open_entry(path, pattern, lines, n - 1);
        LogEntryView {
            file_path: path,
            start_line: before.start_line,
            end_line: n,
            content: before.content + lines[n - 1],
        }
    }
}

/// The records that are complete after the first `n` lines: a record is
/// complete as soon as a later line opens the next one.
pub open spec fn closed_entries(
    path: Seq<char>,
    pattern: Option<Regex>,
    lines: Seq<Seq<char>>,
    n: int,
) -> Seq<LogEntryView>
    decreases n,
{
    if n <= 1 {
        Seq::empty()
    } else if opens_record(pattern, lines, n) {
        closed_entries(path, pattern, lines, n - 1).push(open_entry(path, pattern, lines, n - 1))
    } else {
        closed_entries(path, pattern, lines, n - 1)
    }
}

/// The records of a file: the complete ones, and last the one that the end
/// of the file completes. A file without lines has no record.
pub open spec fn spec_parse(path: Seq<char>, pattern: Option<Regex>, lines: Seq<Seq<char>>) -> Seq<
    LogEntryView,
> {
    if lines.len() == 0 {
        Seq::empty()
    } else {
        closed_entries(path, pattern, lines, lines.len() as int).push(
            open_entry(path, pattern, lines, lines.len() as int),
        )
    }
}

/// The texts of a sequence, one after the other.
pub open spec fn concat_all(texts: Seq<Seq<char>>) -> Seq<char>
    decreases texts.len(),
{
    if texts.len() == 0 {
        Seq::empty()
    } else {
        concat_all(texts.drop_last()) + texts.last()
    }
}

/// The contents of a sequence of records, one after the other.
pub open spec fn contents(entries: Seq<LogEntryView>) -> Seq<Seq<char>> {
    entries.map_values(|e: LogEntryView| e.content)
}

/// The line spans of the records lie one after the other and cover the lines
/// 1 to `total`: the first record starts at line 1, each next one starts on
/// the line after the one before it ends, the last one ends at line `total`,
/// and none ends before it starts.
pub open spec fn spans_partition(entries: Seq<LogEntryView>, total: int) -> bool {
    &&& entries.len() == 0 <==> total == 0
    &&& entries.len() > 0 ==> entries[0].start_line == 1 && entries.last().end_line == total
    &&& forall|k: int|
        0 <= k < entries.len() ==> (#[trigger] entries[k]).start_line <= entries[k].end_line
    &&& forall|k: int|
        1 <= k < entries.len() ==> (#[trigger] entries[k]).start_line == entries[k - 1].end_line
            + 1
}

proof fn lemma_concat_push(texts: Seq<Seq<char>>, last: Seq<char>)
    ensures
        concat_all(texts.push(last)) == concat_all(texts) + last,
{
    assert(texts.push(last).drop_last() =~= texts);
}

proof fn lemma_prefix_lossless(
    path: Seq<char>,
    pattern: Option<Regex>,
    lines: Seq<Seq<char>>,
    n: int,
)
    requires
        1 <= n <= lines.len(),
    ensures
        concat_all(contents(closed_entries(path, pattern, lines, n))) + open_entry(
            path,
            pattern,
            lines,
            n,
        ).content == concat_all(lines.take(n)),
    decreases n,
{
    let closed = closed_entries(path, pattern, lines, n);
    let open = open_entry(path, pattern, lines, n);
    assert(lines.take(n) =~= lines.take(n - 1).push(lines[n - 1]));
    lemma_concat_push(lines.take(n - 1), lines[n - 1]);
    if n == 1 {
        assert(contents(closed) =~= Seq::<Seq<char>>::empty());
        assert(lines.take(0) =~= Seq::<Seq<char>>::empty());
        assert(concat_all(lines.take(0)) =~= Seq::<char>::empty());
        assert(concat_all(contents(closed)) + open.content =~= lines[0]);
        assert(concat_all(lines.take(0)) + lines[0] =~= lines[0]);
    } else {
        lemma_prefix_lossless(path, pattern, lines, n - 1);
        let closed_before = closed_entries(path, pattern, lines, n - 1);
        let open_before = open_entry(path, pattern, lines, n - 1);
        if opens_record(pattern, lines, n) {
            assert(contents(closed) =~= contents(closed_before).push(open_before.content));
            lemma_concat_push(contents(closed_before), open_before.content);
        } else {
            assert(concat_all(contents(closed_before)) + (open_before.content + lines[n - 1])
                =~= (concat_all(contents(closed_before)) + open_before.content) + lines[n - 1]);
        }
    }
}

/// Nothing is lost and nothing is added: the contents of the records of a
/// file, one after the other, are the lines of the file, one after the other.
pub proof fn law_parse_lossless(path: Seq<char>, pattern: Option<Regex>, lines: Seq<Seq<char>>)
    ensures
        concat_all(contents(spec_parse(path, pattern, lines))) == concat_all(lines),
{
    let entries = spec_parse(path, pattern, lines);
    if lines.len() == 0 {
        assert(contents(entries) =~= Seq::<Seq<char>>::empty());
    } else {
        let n = lines.len() as int;
        lemma_prefix_lossless(path, pattern, lines, n);
        let closed = closed_entries(path, pattern, lines, n);
        let open = open_entry(path, pattern, lines, n);
        assert(contents(entries) =~= contents(closed).push(open.content));
        lemma_concat_push(contents(closed), open.content);
        assert(lines.take(n) =~= lines);
    }
}

proof fn lemma_prefix_spans(path: Seq<char>, pattern: Option<Regex>, lines: Seq<Seq<char>>, n: int)
    requires
        1 <= n <= lines.len(),
    ensures
        spans_partition(
            closed_entries(path, pattern, lines, n),
            open_entry(path, pattern, lines, n).start_line - 1,
        ),
        1 <= open_entry(path, pattern, lines, n).start_line <= n,
        open_entry(path, pattern, lines, n).end_line == n,
        open_entry(path, pattern, lines, n).file_path == path,
        forall|k: int|
            0 <= k < closed_entries(path, pattern, lines, n).len() ==> (
            #[trigger] closed_entries(path, pattern, lines, n)[k]).file_path == path,
    decreases n,
{
    if n > 1 {
        lemma_prefix_spans(path, pattern, lines, n - 1);
        if opens_record(pattern, lines, n) {
            let before = closed_entries(path, pattern, lines, n - 1);
            let last = open_entry(path, pattern, lines, n - 1);
            let closed = closed_entries(path, pattern, lines, n);
            assert(closed == before.push(last));
            assert forall|k: int| 0 <= k < closed.len() implies (#[trigger] closed[k]).start_line
                <= closed[k].end_line && closed[k].file_path == path by {
                if k < before.len() {
                    assert(closed[k] == before[k]);
                }
            }
            assert forall|k: int| 1 <= k < closed.len() implies (#[trigger] closed[k]).start_line
                == closed[k - 1].end_line + 1 by {
                assert(closed[k - 1] == before[k - 1]);
                if k < before.len() {
                    assert(closed[k] == before[k]);
                }
            }
            if before.len() > 0 {
                assert(closed[0] == before[0]);
            }
        }
    }
}

/// The records of a file divide its lines among them: their line spans lie
/// one after the other and cover every line once, and each record carries
/// the path of the file.
pub proof fn law_parse_partitions(path: Seq<char>, pattern: Option<Regex>, lines: Seq<Seq<char>>)
    ensures
        spans_partition(spec_parse(path, pattern, lines), lines.len() as int),
        forall|k: int|
            0 <= k < spec_parse(path, pattern, lines).len() ==> (#[trigger] spec_parse(
                path,
                pattern,
                lines,
            )[k]).file_path == path,
{
    if lines.len() > 0 {
        let n = lines.len() as int;
        lemma_prefix_spans(path, pattern, lines, n);
        let before = closed_entries(path, pattern, lines, n);
        let last = open_entry(path, pattern, lines, n);
        let entries = spec_parse(path, pattern, lines);
        assert(entries == before.push(last));
        assert forall|k: int| 0 <= k < entries.len() implies (#[trigger] entries[k]).start_line
            <= entries[k].end_line && entries[k].file_path == path by {
            if k < before.len() {
                assert(entries[k] == before[k]);
            }
        }
        assert forall|k: int| 1 <= k < entries.len() implies (#[trigger] entries[k]).start_line
            == entries[k - 1].end_line + 1 by {
            assert(entries[k - 1] == before[k - 1]);
            if k < before.len() {
                assert(entries[k] == before[k]);
            }
        }
        if before.len() > 0 {
            assert(entries[0] == before[0]);
        }
    }
}

/// Without a start pattern every line is a record of its own.
pub proof fn law_single_line_records(path: Seq<char>, lines: Seq<Seq<char>>)
    ensures
        spec_parse(path, None, lines).len() == lines.len(),
        forall|k: int|
            0 <= k < lines.len() ==> #[trigger] spec_parse(path, None, lines)[k] == (LogEntryView {
                file_path: path,
                start_line: k + 1,
                end_line: k + 1,
                content: lines[k],
            }),
{
    if lines.len() > 0 {
        lemma_single_line_prefix(path, lines, lines.len() as int);
    }
}

proof fn lemma_single_line_prefix(path: Seq<char>, lines: Seq<Seq<char>>, n: int)
    requires
        1 <= n <= lines.len(),
    ensures
        closed_entries(path, None, lines, n).len() == n - 1,
        forall|k: int|
            0 <= k < n - 1 ==> #[trigger] closed_entries(path, None, lines, n)[k] == (LogEntryView {
                file_path: path,
                start_line: k + 1,
                end_line: k + 1,
                content: lines[k],
            }),
    decreases n,
{
    if n > 1 {
        lemma_single_line_prefix(path, lines, n - 1);
    }
}

/// Gathers the lines of a file into records. It holds no state.
#[derive(Debug, Clone, Copy)]
pub struct LogParser;

impl Default for LogParser {
    fn default() -> (p: LogParser) {
        LogParser
    }
}

impl LogParser {
    pub fn new() -> (p: LogParser) {
        LogParser
    }

    /// Gathers `lines` into records. Without a start pattern each line is a
    /// record; with one, a record runs from a start line up to the line before
    /// the next start line, and lines before the first start line form a record
    /// of their own.
    pub fn parse(
        &self,
        file_path: &str,
        lines: &Vec<String>,
        log_start_pattern: &Option<Regex>,
    ) -> (entries: Vec<LogEntry>)
        ensures
            entry_views(entries@) == spec_parse(
                file_path@,
                *log_start_pattern,
                string_views(lines@),
            ),
    {
        let ghost texts = string_views(lines@);
        let mut closed: Vec<LogEntry> = Vec::new();
        let mut open: Option<LogEntry> = None;
        let mut i: usize = 0;
        while i < lines.len()
            invariant
                i <= lines@.len(),
                texts == string_views(lines@),
                entry_views(closed@) == closed_entries(
                    file_path@,
                    *log_start_pattern,
                    texts,
                    i as int,
                ),
                i == 0 ==> open is None,
                i > 0 ==> open is Some && open->0@ == open_entry(
                    file_path@,
                    *log_start_pattern,
                    texts,
                    i as int,
                ),
            decreases lines@.len() - i,
        {
            let line: &String = &lines[i];
            assert(texts[i as int] == line@);
            let starts: bool = match log_start_pattern {
                None => true,
                Some(re) => regex_is_match(re, line.as_str()),
            };
            let number: usize = i + 1;
            match open {
                Some(mut current) => {
                    if starts {
                        proof {
                            assert(entry_views(closed@.push(current)) =~= entry_views(closed@).push(
                                current@,
                            ));
                        }
                        closed.push(current);
                        open = Some(
                            LogEntry {
                                file_path: String::from_str(file_path),
                                start_line: number,
                                end_line: number,
                                content: line.clone(),
                            },
                        );
                    } else {
                        current.end_line = number;
                        current.content.append(line.as_str());
                        open = Some(current);
                    }
                },
                None => {
                    open = Some(
                        LogEntry {
                            file_path: String::from_str(file_path),
                            start_line: number,
                            end_line: number,
                            content: line.clone(),
                        },
                    );
                },
            }
            i += 1;
        }
        match open {
            Some(current) => {
                proof {
                    assert(entry_views(closed@.push(current)) =~= entry_views(closed@).push(
                        current@,
                    ));
                }
                closed.push(current);
            },
            None => {
                proof {
                    assert(entry_views(closed@) =~= Seq::<LogEntryView>::empty());
                }
            },
        }
        closed
    }
}

} // verus!
