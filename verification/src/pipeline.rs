//! The search of one file, line by line: records are gathered and judged as
//! the lines arrive, and the reading can end as soon as the cap is reached.

use crate::hits::cap_reached;
use crate::hits::evaluate;
use crate::hits::hits_sound;
use crate::hits::law_hits_in_order;
use crate::hits::spans_ordered_hits;
use crate::hits::lemma_scan_stops;
use crate::hits::spec_scan_entries;
use crate::model::hit_views;
use crate::model::HitResult;
use crate::model::HitView;
use crate::model::LogEntry;
use crate::model::LogEntryView;
use crate::model::SearchRequest;
use crate::parser::closed_entries;
use crate::parser::law_parse_partitions;
use crate::parser::open_entry;
use crate::parser::opens_record;
use crate::parser::spec_parse;
use crate::pattern::regex_is_match;
use crate::query::QueryProcessor;
use crate::search::SearchPlan;
use regex::Regex;
use vstd::prelude::*;
use vstd::string::StringExecFns;

verus! {

/// The records that are settled once the given lines have been read, and no
/// line after them: without a start pattern every line is a record at once;
/// with one, a record is settled when the next one opens.
pub open spec fn settled(path: Seq<char>, pattern: Option<Regex>, lines: Seq<Seq<char>>) -> Seq<
    LogEntryView,
> {
    if pattern is None {
        spec_parse(path, pattern, lines)
    } else {
        closed_entries(path, pattern, lines, lines.len() as int)
    }
}

/// The hits of the records that are settled after the given lines.
pub open spec fn settled_hits(
    path: Seq<char>,
    lines: Seq<Seq<char>>,
    request: SearchRequest,
    plan: SearchPlan,
) -> Seq<HitView> {
    spec_scan_entries(
        settled(path, plan.start_pattern, lines),
        request.logical_query,
        plan.time_filter,
        request.include_content,
        request.max_hits,
    )
}

/// The hits of a file with the given lines.
pub open spec fn file_hits(
    path: Seq<char>,
    lines: Seq<Seq<char>>,
    request: SearchRequest,
    plan: SearchPlan,
) -> Seq<HitView> {
    spec_scan_entries(
        spec_parse(path, plan.start_pattern, lines),
        request.logical_query,
        plan.time_filter,
        request.include_content,
        request.max_hits,
    )
}

/// No hit of a file ends before it starts.
pub proof fn law_file_hits_in_order(
    path: Seq<char>,
    lines: Seq<Seq<char>>,
    request: SearchRequest,
    plan: SearchPlan,
)
    ensures
        spans_ordered_hits(file_hits(path, lines, request, plan)),
{
    law_parse_partitions(path, plan.start_pattern, lines);
    law_hits_in_order(
        spec_parse(path, plan.start_pattern, lines),
        request.logical_query,
        plan.time_filter,
        request.include_content,
        request.max_hits,
    );
}

/// What is gathered of the first `n` lines does not depend on later lines.
pub proof fn lemma_prefix_only(
    path: Seq<char>,
    pattern: Option<Regex>,
    a: Seq<Seq<char>>,
    b: Seq<Seq<char>>,
    n: int,
)
    requires
        0 <= n <= a.len(),
        n <= b.len(),
        a.take(n) == b.take(n),
    ensures
        closed_entries(path, pattern, a, n) == closed_entries(path, pattern, b, n),
        n >= 1 ==> open_entry(path, pattern, a, n) == open_entry(path, pattern, b, n),
    decreases n,
{
    if n >= 1 {
        assert(a[n - 1] == a.take(n)[n - 1]);
        assert(b[n - 1] == b.take(n)[n - 1]);
        assert(a.take(n - 1) =~= a.take(n).take(n - 1));
        assert(b.take(n - 1) =~= b.take(n).take(n - 1));
        lemma_prefix_only(path, pattern, a, b, n - 1);
    }
}

/// The settled records of some lines stand at the head of the records of
/// every file that begins with these lines.
pub proof fn lemma_settled_is_prefix(
    path: Seq<char>,
    pattern: Option<Regex>,
    lines: Seq<Seq<char>>,
    more: Seq<Seq<char>>,
)
    ensures
        settled(path, pattern, lines).len() <= spec_parse(path, pattern, lines + more).len(),
        spec_parse(path, pattern, lines + more).take(settled(path, pattern, lines).len() as int)
            == settled(path, pattern, lines),
    decreases more.len(),
{
    let n = lines.len() as int;
    let whole = lines + more;
    if more.len() == 0 {
        assert(whole =~= lines);
        let all = spec_parse(path, pattern, lines);
        if pattern is None {
            assert(all.take(all.len() as int) =~= all);
        } else if n > 0 {
            assert(all.take(all.len() - 1) =~= closed_entries(path, pattern, lines, n));
        } else {
            assert(all.take(0) =~= closed_entries(path, pattern, lines, n));
        }
    } else {
        let shorter = more.drop_last();
        lemma_settled_is_prefix(path, pattern, lines, shorter);
        let part = lines + shorter;
        assert(whole =~= part.push(more.last()));
        let m = part.len() as int;
        assert(whole.take(m) =~= part);
        assert(part.take(m) =~= part);
        lemma_prefix_only(path, pattern, whole, part, m);
        // The records of `whole` begin with the records of `part` but for its
        // last one, which may still grow.
        let before = spec_parse(path, pattern, part);
        let after = spec_parse(path, pattern, whole);
        let kept = settled(path, pattern, lines);
        if m == 0 {
            assert(lines.len() == 0);
            assert(kept =~= Seq::<LogEntryView>::empty());
            assert(after.take(0) =~= kept);
        } else {
            let closed_part = closed_entries(path, pattern, part, m);
            assert(before == closed_part.push(open_entry(path, pattern, part, m)));
            assert(closed_entries(path, pattern, whole, m) == closed_part);
            if opens_record(pattern, whole, m + 1) {
                assert(after.take(before.len() as int) =~= before);
                assert(after.take(kept.len() as int) =~= before.take(kept.len() as int));
            } else {
                assert(pattern is Some);
                assert(after.len() == before.len());
                assert(after.take(closed_part.len() as int) =~= closed_part);
                assert(before.take(closed_part.len() as int) =~= closed_part);
                if kept.len() == before.len() {
                    // With a start pattern the settled records never include
                    // the last record of `part`.
                    lemma_settled_below(path, pattern, lines, shorter);
                }
                assert(after.take(kept.len() as int) =~= closed_part.take(kept.len() as int));
                assert(before.take(kept.len() as int) =~= closed_part.take(kept.len() as int));
            }
        }
    }
}

proof fn lemma_closed_grows(
    path: Seq<char>,
    pattern: Option<Regex>,
    lines: Seq<Seq<char>>,
    n: int,
    m: int,
)
    requires
        0 <= n <= m <= lines.len(),
    ensures
        closed_entries(path, pattern, lines, n).len() <= closed_entries(
            path,
            pattern,
            lines,
            m,
        ).len(),
    decreases m - n,
{
    if n < m {
        lemma_closed_grows(path, pattern, lines, n, m - 1);
    }
}

proof fn lemma_settled_below(
    path: Seq<char>,
    pattern: Option<Regex>,
    lines: Seq<Seq<char>>,
    more: Seq<Seq<char>>,
)
    requires
        pattern is Some,
        lines.len() + more.len() > 0,
    ensures
        settled(path, pattern, lines).len() < spec_parse(path, pattern, lines + more).len(),
{
    let whole = lines + more;
    let n = lines.len() as int;
    let m = whole.len() as int;
    assert(whole.take(n) =~= lines);
    assert(lines.take(n) =~= lines);
    lemma_prefix_only(path, pattern, whole, lines, n);
    lemma_closed_grows(path, pattern, whole, n, m);
}

/// Once the cap is reached on the settled records of some lines, the hits
/// of the file are settled too: whatever lines follow, they are the hits
/// found so far. So the reading may end there.
pub proof fn law_full_is_final(
    path: Seq<char>,
    lines: Seq<Seq<char>>,
    more: Seq<Seq<char>>,
    request: SearchRequest,
    plan: SearchPlan,
)
    requires
        cap_reached(settled_hits(path, lines, request, plan).len() as int, request.max_hits),
    ensures
        file_hits(path, lines + more, request, plan) == settled_hits(path, lines, request, plan),
{
    lemma_settled_is_prefix(path, plan.start_pattern, lines, more);
    let all = spec_parse(path, plan.start_pattern, lines + more);
    let kept = settled(path, plan.start_pattern, lines);
    lemma_scan_stops(
        all,
        request.logical_query,
        plan.time_filter,
        request.include_content,
        request.max_hits,
        kept.len() as int,
        all.len() as int,
    );
    assert(all.take(all.len() as int) =~= all);
}



/// The search of one file in progress.
pub struct FileScan {
    path: String,
    line_no: usize,
    open: Option<LogEntry>,
    hits: Vec<HitResult>,
    full: bool,
    fed: Ghost<Seq<Seq<char>>>,
}

impl FileScan {
    /// The path of the file.
    pub closed spec fn path(&self) -> Seq<char> {
        self.path@
    }

    /// The lines that were taken in so far.
    pub closed spec fn fed(&self) -> Seq<Seq<char>> {
        self.fed@
    }

    /// The number of lines that were taken in so far.
    pub closed spec fn taken(&self) -> nat {
        self.line_no as nat
    }

    /// The hits found so far.
    pub closed spec fn found(&self) -> Seq<HitView> {
        hit_views(self.hits@)
    }

    /// Whether the cap is reached, so that no further line is taken in.
    pub closed spec fn is_full(&self) -> bool {
        self.full
    }

    /// The state is in order for a request and a plan: the hits found are
    /// those of the records settled by the lines taken in, and the record
    /// that is still open is the one that these lines leave open.
    pub closed spec fn wf(&self, request: SearchRequest, plan: SearchPlan) -> bool {
        &&& self.line_no == self.fed@.len()
        &&& self.full == cap_reached(self.hits@.len() as int, request.max_hits)
        &&& hit_views(self.hits@) == settled_hits(self.path@, self.fed@, request, plan)
        &&& hits_sound(hit_views(self.hits@), request.logical_query, request.include_content)
        &&& if plan.start_pattern is None || self.fed@.len() == 0 {
            self.open is None
        } else {
            self.open is Some && self.open->0@ == open_entry(
                self.path@,
                plan.start_pattern,
                self.fed@,
                self.fed@.len() as int,
            )
        }
    }

    /// What `wf` says of the hits found.
    pub proof fn lemma_found(&self, request: SearchRequest, plan: SearchPlan)
        requires
            self.wf(request, plan),
        ensures
            self.found() == settled_hits(self.path(), self.fed(), request, plan),
            self.is_full() == cap_reached(self.found().len() as int, request.max_hits),
            self.taken() == self.fed().len(),
    {
    }

    /// Begins the search of a file of which no line was read yet.
    pub fn new(path: &str, request: &SearchRequest, plan: &SearchPlan) -> (scan: FileScan)
        ensures
            scan.wf(*request, *plan),
            scan.path() == path@,
            scan.fed() == Seq::<Seq<char>>::empty(),
            scan.taken() == 0,
            !scan.is_full(),
    {
        let scan = FileScan {
            path: String::from_str(path),
            line_no: 0,
            open: None,
            hits: Vec::new(),
            full: false,
            fed: Ghost(Seq::empty()),
        };
        proof {
            assert(hit_views(scan.hits@) =~= Seq::<HitView>::empty());
        }
        scan
    }

    /// The number of lines taken in.
    pub fn lines_taken(&self) -> (n: usize)
        ensures
            n == self.taken(),
    {
        self.line_no
    }

    /// Whether the cap is reached, so that the reading may end.
    pub fn full(&self) -> (b: bool)
        ensures
            b == self.is_full(),
    {
        self.full
    }

    fn settle(
        &mut self,
        processor: &QueryProcessor,
        entry: &LogEntry,
        request: &SearchRequest,
        plan: &SearchPlan,
        Ghost(before): Ghost<Seq<LogEntryView>>,
    )
        requires
            !old(self).full,
            old(self).full == cap_reached(old(self).hits@.len() as int, request.max_hits),
            hits_sound(hit_views(old(self).hits@), request.logical_query, request.include_content),
            hit_views(old(self).hits@) == spec_scan_entries(
                before,
                request.logical_query,
                plan.time_filter,
                request.include_content,
                request.max_hits,
            ),
        ensures
            final(self).full == cap_reached(final(self).hits@.len() as int, request.max_hits),
            hits_sound(
                hit_views(final(self).hits@),
                request.logical_query,
                request.include_content,
            ),
            hit_views(final(self).hits@) == spec_scan_entries(
                before.push(entry@),
                request.logical_query,
                plan.time_filter,
                request.include_content,
                request.max_hits,
            ),
            final(self).path == old(self).path,
            final(self).line_no == old(self).line_no,
            final(self).open == old(self).open,
            final(self).fed == old(self).fed,
    {
        proof {
            assert(before.push(entry@).drop_last() =~= before);
        }
        if let Some(hit) = evaluate(processor, entry, request, &plan.time_filter) {
            proof {
                assert(hit_views(self.hits@.push(hit)) =~= hit_views(self.hits@).push(hit@));
            }
            self.hits.push(hit);
            self.full = match request.max_hits {
                Some(cap) => self.hits.len() >= cap,
                None => false,
            };
        }
    }

    /// Takes in the next line of the file and tells whether the reading goes
    /// on. Once the cap is reached nothing more is taken in.
    pub fn feed(
        &mut self,
        line: String,
        processor: &QueryProcessor,
        request: &SearchRequest,
        plan: &SearchPlan,
    ) -> (go_on: bool)
        requires
            old(self).wf(*request, *plan),
            old(self).taken() < usize::MAX,
        ensures
            final(self).wf(*request, *plan),
            final(self).path() == old(self).path(),
            final(self).fed() == if old(self).is_full() {
                old(self).fed()
            } else {
                old(self).fed().push(line@)
            },
            final(self).taken() == final(self).fed().len(),
            go_on == !final(self).is_full(),
    {
        if self.full {
            return false;
        }
        let ghost path = self.path@;
        let ghost lines = self.fed@;
        let ghost longer = lines.push(line@);
        let ghost n = lines.len() as int;
        let number: usize = self.line_no + 1;
        proof {
            assert(longer.take(n) =~= lines);
            assert(lines.take(n) =~= lines);
            lemma_prefix_only(path, plan.start_pattern, longer, lines, n);
        }
        match &plan.start_pattern {
            None => {
                let entry = LogEntry {
                    file_path: self.path.clone(),
                    start_line: number,
                    end_line: number,
                    content: line,
                };
                self.settle(
                    processor,
                    &entry,
                    request,
                    plan,
                    Ghost(spec_parse(path, None, lines)),
                );
                proof {
                    assert(spec_parse(path, None, longer) =~= spec_parse(path, None, lines).push(
                        entry@,
                    ));
                }
            },
            Some(re) => {
                let starts: bool = regex_is_match(re, line.as_str());
                match self.open.take() {
                    Some(mut current) => {
                        if starts {
                            self.settle(
                                processor,
                                &current,
                                request,
                                plan,
                                Ghost(closed_entries(path, plan.start_pattern, lines, n)),
                            );
                            self.open = Some(
                                LogEntry {
                                    file_path: self.path.clone(),
                                    start_line: number,
                                    end_line: number,
                                    content: line,
                                },
                            );
                        } else {
                            current.end_line = number;
                            current.content.append(line.as_str());
                            self.open = Some(current);
                        }
                    },
                    None => {
                        self.open = Some(
                            LogEntry {
                                file_path: self.path.clone(),
                                start_line: number,
                                end_line: number,
                                content: line,
                            },
                        );
                    },
                }
            },
        }
        self.line_no = number;
        self.fed = Ghost(longer);
        !self.full
    }

    /// Ends the search at the end of the file, or where the reading ended
    /// early, and hands out the hits.
    pub fn finish(self, processor: &QueryProcessor, request: &SearchRequest, plan: &SearchPlan) -> (hits:
        Vec<HitResult>)
        requires
            self.wf(*request, *plan),
        ensures
            hit_views(hits@) == file_hits(self.path(), self.fed(), *request, *plan),
            spans_ordered_hits(hit_views(hits@)),
            hits_sound(hit_views(hits@), request.logical_query, request.include_content),
    {
        let mut scan = self;
        let ghost path = scan.path@;
        let ghost lines = scan.fed@;
        let ghost n = lines.len() as int;
        proof {
            law_file_hits_in_order(path, lines, *request, *plan);
        }
        let last = scan.open.take();
        match last {
            Some(current) => {
                proof {
                    let closed = closed_entries(path, plan.start_pattern, lines, n);
                    assert(spec_parse(path, plan.start_pattern, lines) == closed.push(current@));
                    assert(closed.push(current@).drop_last() =~= closed);
                }
                if !scan.full {
                    scan.settle(
                        processor,
                        &current,
                        request,
                        plan,
                        Ghost(closed_entries(path, plan.start_pattern, lines, n)),
                    );
                }
            },
            None => {},
        }
        scan.hits
    }
}

} // verus!
