//! Turning the records of a file into hits.

use crate::model::entry_views;
use crate::model::hit_views;
use crate::model::HitResult;
use crate::model::HitView;
use crate::model::LogEntry;
use crate::model::LogEntryView;
use crate::model::LogicalQuery;
use crate::model::MatchPosition;
use crate::model::SearchQuery;
use crate::model::SearchRequest;
use crate::query::measured_text;
use crate::query::spec_find_positions;
use crate::query::spec_matches;
use crate::query::spec_time_accepts;
use crate::query::ParsedTimeFilter;
use crate::query::QueryProcessor;
use crate::text::spans_within;
use vstd::prelude::*;
use vstd::utf8::encode_utf8;

verus! {

/// The matches of the clauses of a sequence in a text, clause after clause.
pub open spec fn positions_of(text: Seq<char>, clauses: Seq<SearchQuery>) -> Seq<MatchPosition>
    decreases clauses.len(),
{
    if clauses.len() == 0 {
        Seq::empty()
    } else {
        positions_of(text, clauses.drop_last()) + spec_find_positions(text, clauses.last())
    }
}

/// The matches that a hit reports: those of the `must` clauses, then those
/// of the `any` clauses, then those of the `none` clauses.
pub open spec fn spec_collect_positions(text: Seq<char>, query: LogicalQuery) -> Seq<
    MatchPosition,
> {
    positions_of(text, query.must@) + positions_of(text, query.any@) + positions_of(
        text,
        query.none@,
    )
}

/// Whether a record becomes a hit: it passes the time window and satisfies
/// the query.
pub open spec fn is_hit(
    entry: LogEntryView,
    query: LogicalQuery,
    window: Option<ParsedTimeFilter>,
) -> bool {
    spec_time_accepts(entry.content, window) && spec_matches(entry.content, query)
}

/// The hit that a record becomes. Its content is empty where the request
/// does not ask for content; its matches are counted in the record's text
/// either way.
pub open spec fn spec_hit(entry: LogEntryView, query: LogicalQuery, include_content: bool) -> HitView {
    HitView {
        file_path: entry.file_path,
        start_line: entry.start_line,
        end_line: entry.end_line,
        content: if include_content {
            entry.content
        } else {
            Seq::empty()
        },
        match_positions: spec_collect_positions(entry.content, query),
    }
}

/// Whether the hits gathered from a file so far end the reading of it: a cap
/// is set, and at least one hit and no fewer than the cap are there.
pub open spec fn cap_reached(count: int, max_hits: Option<usize>) -> bool {
    max_hits matches Some(cap) && count > 0 && count >= cap
}

/// The hits of a sequence of records, in order: each record that passes
/// becomes a hit, until the cap is reached.
pub open spec fn spec_scan_entries(
    entries: Seq<LogEntryView>,
    query: LogicalQuery,
    window: Option<ParsedTimeFilter>,
    include_content: bool,
    max_hits: Option<usize>,
) -> Seq<HitView>
    decreases entries.len(),
{
    if entries.len() == 0 {
        Seq::empty()
    } else {
        let before = spec_scan_entries(
            entries.drop_last(),
            query,
            window,
            include_content,
            max_hits,
        );
        if !cap_reached(before.len() as int, max_hits) && is_hit(entries.last(), query, window) {
            before.push(spec_hit(entries.last(), query, include_content))
        } else {
            before
        }
    }
}

/// The clauses of a logical query, `must` first, then `any`, then `none`.
pub open spec fn clauses_of(query: LogicalQuery) -> Seq<SearchQuery> {
    query.must@ + query.any@ + query.none@
}

/// No clause of the sequence measures the text in a form longer than the
/// text itself. A clause does so only where it looks for a plain keyword
/// without regard to case and the lowercase form of the text has more bytes
/// than the text.
pub open spec fn measured_in_text(text: Seq<char>, clauses: Seq<SearchQuery>) -> bool {
    forall|i: int|
        0 <= i < clauses.len() ==> encode_utf8(measured_text(text, #[trigger] clauses[i])).len()
            <= encode_utf8(text).len()
}

proof fn lemma_positions_within(text: Seq<char>, clauses: Seq<SearchQuery>, len: int)
    requires
        forall|i: int|
            0 <= i < clauses.len() ==> spans_within(
                spec_find_positions(text, #[trigger] clauses[i]),
                len,
            ),
    ensures
        spans_within(positions_of(text, clauses), len),
    decreases clauses.len(),
{
    if clauses.len() > 0 {
        let head = clauses.drop_last();
        assert forall|i: int| 0 <= i < head.len() implies spans_within(
            spec_find_positions(text, #[trigger] head[i]),
            len,
        ) by {
            assert(head[i] == clauses[i]);
        }
        lemma_positions_within(text, head, len);
    }
}

fn extend_positions(
    processor: &QueryProcessor,
    text: &str,
    clauses: &Vec<SearchQuery>,
    spans: &mut Vec<MatchPosition>,
)
    ensures
        final(spans)@ == old(spans)@ + positions_of(text@, clauses@),
        forall|i: int|
            0 <= i < clauses@.len() ==> spans_within(
                spec_find_positions(text@, #[trigger] clauses@[i]),
                encode_utf8(measured_text(text@, clauses@[i])).len() as int,
            ),
{
    let ghost start = spans@;
    let mut i: usize = 0;
    proof {
        assert(clauses@.take(0) =~= Seq::<SearchQuery>::empty());
        assert(start + positions_of(text@, clauses@.take(0)) =~= start);
    }
    while i < clauses.len()
        invariant
            i <= clauses@.len(),
            spans@ == start + positions_of(text@, clauses@.take(i as int)),
            forall|j: int|
                0 <= j < i ==> spans_within(
                    spec_find_positions(text@, #[trigger] clauses@[j]),
                    encode_utf8(measured_text(text@, clauses@[j])).len() as int,
                ),
        decreases clauses@.len() - i,
    {
        let mut found = processor.find_positions(text, &clauses[i]);
        proof {
            let next = clauses@.take(i + 1);
            assert(next.drop_last() =~= clauses@.take(i as int));
            assert(next.last() == clauses@[i as int]);
            assert(start + (positions_of(text@, clauses@.take(i as int)) + found@) =~= (start
                + positions_of(text@, clauses@.take(i as int))) + found@);
        }
        spans.append(&mut found);
        i += 1;
    }
    proof {
        assert(clauses@.take(clauses@.len() as int) =~= clauses@);
    }
}

/// Lists the matches that a hit reports for a text: those of the `must`
/// clauses, then `any`, then `none`.
pub fn collect_positions(processor: &QueryProcessor, text: &str, query: &LogicalQuery) -> (spans:
    Vec<MatchPosition>)
    ensures
        spans@ == spec_collect_positions(text@, *query),
        measured_in_text(text@, clauses_of(*query)) ==> spans_within(
            spans@,
            encode_utf8(text@).len() as int,
        ),
{
    let mut spans: Vec<MatchPosition> = Vec::new();
    extend_positions(processor, text, &query.must, &mut spans);
    extend_positions(processor, text, &query.any, &mut spans);
    extend_positions(processor, text, &query.none, &mut spans);
    proof {
        assert(Seq::<MatchPosition>::empty() + positions_of(text@, query.must@) =~= positions_of(
            text@,
            query.must@,
        ));
        if measured_in_text(text@, clauses_of(*query)) {
            let len = encode_utf8(text@).len() as int;
            let all = clauses_of(*query);
            assert forall|i: int| 0 <= i < query.must@.len() implies spans_within(
                spec_find_positions(text@, #[trigger] query.must@[i]),
                len,
            ) by {
                assert(all[i] == query.must@[i]);
            }
            assert forall|i: int| 0 <= i < query.any@.len() implies spans_within(
                spec_find_positions(text@, #[trigger] query.any@[i]),
                len,
            ) by {
                assert(all[query.must@.len() + i] == query.any@[i]);
            }
            assert forall|i: int| 0 <= i < query.none@.len() implies spans_within(
                spec_find_positions(text@, #[trigger] query.none@[i]),
                len,
            ) by {
                assert(all[query.must@.len() + query.any@.len() + i] == query.none@[i]);
            }
            lemma_positions_within(text@, query.must@, len);
            lemma_positions_within(text@, query.any@, len);
            lemma_positions_within(text@, query.none@, len);
        }
    }
    spans
}

/// Turns one record into a hit where it passes the time window and satisfies
/// the query, and into nothing where it does not.
pub fn evaluate(
    processor: &QueryProcessor,
    entry: &LogEntry,
    request: &SearchRequest,
    time_filter: &Option<ParsedTimeFilter>,
) -> (found: Option<HitResult>)
    ensures
        found is Some <==> is_hit(entry@, request.logical_query, *time_filter),
        found matches Some(hit) ==> hit@ == spec_hit(
            entry@,
            request.logical_query,
            request.include_content,
        ),
        found matches Some(hit) ==> (entry.start_line <= entry.end_line ==> hit.start_line
            <= hit.end_line),
        found matches Some(hit) ==> matches_sound(
            hit@,
            request.logical_query,
            request.include_content,
        ),
{
    let text: &str = entry.content.as_str();
    if processor.apply_time_filter(text, time_filter) && processor.matches(
        text,
        &request.logical_query,
    ) {
        let spans = collect_positions(processor, text, &request.logical_query);
        Some(
            HitResult {
                file_path: entry.file_path.clone(),
                start_line: entry.start_line,
                end_line: entry.end_line,
                content: if request.include_content {
                    entry.content.clone()
                } else {
                    String::new()
                },
                match_positions: spans,
            },
        )
    } else {
        None
    }
}

/// No record ends before it starts.
pub open spec fn spans_ordered(entries: Seq<LogEntryView>) -> bool {
    forall|k: int| 0 <= k < entries.len() ==> (#[trigger] entries[k]).start_line <= entries[k].end_line
}

/// No hit ends before it starts.
pub open spec fn spans_ordered_hits(hits: Seq<HitView>) -> bool {
    forall|k: int| 0 <= k < hits.len() ==> (#[trigger] hits[k]).start_line <= hits[k].end_line
}

/// The matches of a hit end inside the bytes of its content. Nothing is
/// said of a hit that carries no content, nor of one whose text a clause
/// measured in a longer lowercase form.
pub open spec fn matches_sound(hit: HitView, query: LogicalQuery, include_content: bool) -> bool {
    include_content && measured_in_text(hit.content, clauses_of(query)) ==> spans_within(
        hit.match_positions,
        encode_utf8(hit.content).len() as int,
    )
}

/// The matches of every hit end inside the bytes of its content, in the
/// sense of [`matches_sound`].
pub open spec fn hits_sound(hits: Seq<HitView>, query: LogicalQuery, include_content: bool) -> bool {
    forall|k: int| 0 <= k < hits.len() ==> matches_sound(#[trigger] hits[k], query, include_content)
}

/// Once the cap is reached, further records add nothing.
pub proof fn lemma_scan_stops(
    entries: Seq<LogEntryView>,
    query: LogicalQuery,
    window: Option<ParsedTimeFilter>,
    include_content: bool,
    max_hits: Option<usize>,
    n: int,
    m: int,
)
    requires
        0 <= n <= m <= entries.len(),
        cap_reached(
            spec_scan_entries(entries.take(n), query, window, include_content, max_hits).len() as int,
            max_hits,
        ),
    ensures
        spec_scan_entries(entries.take(m), query, window, include_content, max_hits)
            == spec_scan_entries(entries.take(n), query, window, include_content, max_hits),
    decreases m - n,
{
    if n < m {
        lemma_scan_stops(entries, query, window, include_content, max_hits, n, m - 1);
        assert(entries.take(m).drop_last() =~= entries.take(m - 1));
    }
}

/// Turns records into hits, in order, until the cap of the request is
/// reached: a record becomes a hit where it passes the time window and
/// satisfies the query.
pub fn scan_entries(
    processor: &QueryProcessor,
    entries: &Vec<LogEntry>,
    request: &SearchRequest,
    time_filter: &Option<ParsedTimeFilter>,
) -> (hits: Vec<HitResult>)
    ensures
        hit_views(hits@) == spec_scan_entries(
            entry_views(entries@),
            request.logical_query,
            *time_filter,
            request.include_content,
            request.max_hits,
        ),
        spans_ordered(entry_views(entries@)) ==> spans_ordered_hits(hit_views(hits@)),
        hits_sound(hit_views(hits@), request.logical_query, request.include_content),
{
    let ghost all = entry_views(entries@);
    let total: usize = entries.len();
    let mut hits: Vec<HitResult> = Vec::new();
    let mut done: usize = 0;
    let mut stop: bool = false;
    proof {
        assert(all.take(0) =~= Seq::<LogEntryView>::empty());
        assert(hit_views(hits@) =~= Seq::<HitView>::empty());
    }
    while done < total && !stop
        invariant
            done <= total,
            total == all.len(),
            all == entry_views(entries@),
            stop == cap_reached(hits@.len() as int, request.max_hits),
            spans_ordered(all) ==> spans_ordered_hits(hit_views(hits@)),
            hits_sound(hit_views(hits@), request.logical_query, request.include_content),
            hit_views(hits@) == spec_scan_entries(
                all.take(done as int),
                request.logical_query,
                *time_filter,
                request.include_content,
                request.max_hits,
            ),
        decreases total - done,
    {
        proof {
            let next = all.take(done + 1);
            assert(next.drop_last() =~= all.take(done as int));
            assert(next.last() == all[done as int]);
        }
        let entry: &LogEntry = &entries[done];
        assert(all[done as int] == entry@);
        if let Some(hit) = evaluate(processor, entry, request, time_filter) {
            proof {
                assert(hit_views(hits@.push(hit)) =~= hit_views(hits@).push(hit@));
            }
            hits.push(hit);
            stop = match request.max_hits {
                Some(cap) => hits.len() >= cap,
                None => false,
            };
        }
        done += 1;
    }
    proof {
        if stop {
            lemma_scan_stops(
                all,
                request.logical_query,
                *time_filter,
                request.include_content,
                request.max_hits,
                done as int,
                total as int,
            );
        }
        assert(all.take(total as int) =~= all);
    }
    hits
}

/// Hits end where their records end: where no record ends before it
/// starts, no hit does.
pub proof fn law_hits_in_order(
    entries: Seq<LogEntryView>,
    query: LogicalQuery,
    window: Option<ParsedTimeFilter>,
    include_content: bool,
    max_hits: Option<usize>,
)
    requires
        spans_ordered(entries),
    ensures
        spans_ordered_hits(spec_scan_entries(entries, query, window, include_content, max_hits)),
    decreases entries.len(),
{
    if entries.len() > 0 {
        let head = entries.drop_last();
        assert forall|k: int| 0 <= k < head.len() implies (#[trigger] head[k]).start_line
            <= head[k].end_line by {
            assert(head[k] == entries[k]);
        }
        law_hits_in_order(head, query, window, include_content, max_hits);
        assert(entries.last() == entries[entries.len() - 1]);
    }
}

} // verus!
