//! Gathering what the files of a search gave, one file at a time, and
//! turning the whole into a response.

use crate::config::SearchConfig;
use crate::model::hit_views;
use crate::model::HitResult;
use crate::model::HitView;
use crate::model::SearchResponse;
use crate::paging::ceil_div;
use crate::paging::effective_page_size;
use crate::paging::page_slice;
use crate::paging::paginate;
use crate::paging::spec_page_size;
use crate::paging::total_pages;
use vstd::prelude::*;

verus! {

/// What the work on one file gave: its hits; or the path and the reason why
/// it failed; and whether it ran out of time.
#[derive(Debug, Clone)]
pub struct TaskResult {
    pub hits: Vec<HitResult>,
    pub failed: Option<(String, String)>,
    pub timed_out: bool,
}

/// The mathematical value of a [`TaskResult`].
pub struct TaskView {
    pub hits: Seq<HitView>,
    pub failed: Option<(Seq<char>, Seq<char>)>,
    pub timed_out: bool,
}

impl View for TaskResult {
    type V = TaskView;

    open spec fn view(&self) -> TaskView {
        TaskView {
            hits: hit_views(self.hits@),
            failed: match self.failed {
                Some(pair) => Some((pair.0@, pair.1@)),
                None => None,
            },
            timed_out: self.timed_out,
        }
    }
}

/// The state of a search between two files.
#[derive(Debug, Clone)]
pub struct Aggregation {
    pub hits: Vec<HitResult>,
    pub failed_files: Vec<(String, String)>,
    pub timed_out: bool,
    pub files_scanned: usize,
    pub stopped: bool,
}

/// The mathematical value of an [`Aggregation`].
pub struct Tally {
    pub hits: Seq<HitView>,
    pub failed_files: Seq<(Seq<char>, Seq<char>)>,
    pub timed_out: bool,
    pub files_scanned: int,
    pub stopped: bool,
}

/// The views of a sequence of failures, in order.
pub open spec fn failure_views(failed: Seq<(String, String)>) -> Seq<(Seq<char>, Seq<char>)> {
    failed.map_values(|pair: (String, String)| (pair.0@, pair.1@))
}

impl View for Aggregation {
    type V = Tally;

    open spec fn view(&self) -> Tally {
        Tally {
            hits: hit_views(self.hits@),
            failed_files: failure_views(self.failed_files@),
            timed_out: self.timed_out,
            files_scanned: self.files_scanned as int,
            stopped: self.stopped,
        }
    }
}

/// The state before the first file.
pub open spec fn empty_tally() -> Tally {
    Tally {
        hits: Seq::empty(),
        failed_files: Seq::empty(),
        timed_out: false,
        files_scanned: 0,
        stopped: false,
    }
}

/// The state after one more file. The file is counted. Where it failed, the
/// failure is noted, else its hits are added. The search stops where the file
/// ran out of time, or where a cap is set and the hits have reached it. A
/// search that has stopped takes nothing more.
pub open spec fn spec_absorb(tally: Tally, task: TaskView, max_hits: Option<usize>) -> Tally {
    if tally.stopped {
        tally
    } else {
        let hits = if task.failed is Some {
            tally.hits
        } else {
            tally.hits + task.hits
        };
        Tally {
            hits,
            failed_files: match task.failed {
                Some(pair) => tally.failed_files.push(pair),
                None => tally.failed_files,
            },
            timed_out: tally.timed_out || task.timed_out,
            files_scanned: tally.files_scanned + 1,
            stopped: task.timed_out || (max_hits matches Some(cap) && hits.len() >= cap),
        }
    }
}

/// The state after a sequence of files, taken in the order in which they
/// were finished.
pub open spec fn spec_absorb_all(tasks: Seq<TaskView>, max_hits: Option<usize>) -> Tally
    decreases tasks.len(),
{
    if tasks.len() == 0 {
        empty_tally()
    } else {
        spec_absorb(spec_absorb_all(tasks.drop_last(), max_hits), tasks.last(), max_hits)
    }
}

impl Aggregation {
    pub fn new() -> (state: Aggregation)
        ensures
            state@ == empty_tally(),
    {
        let state = Aggregation {
            hits: Vec::new(),
            failed_files: Vec::new(),
            timed_out: false,
            files_scanned: 0,
            stopped: false,
        };
        proof {
            assert(state@.hits =~= Seq::<HitView>::empty());
            assert(state@.failed_files =~= Seq::<(Seq<char>, Seq<char>)>::empty());
        }
        state
    }

    /// Takes in what one file gave, and tells whether the search goes on.
    pub fn absorb(&mut self, task: TaskResult, max_hits: Option<usize>) -> (go_on: bool)
        requires
            old(self).files_scanned < usize::MAX,
        ensures
            final(self)@ == spec_absorb(old(self)@, task@, max_hits),
            go_on == !final(self).stopped,
    {
        if self.stopped {
            return false;
        }
        let ghost before = self@;
        let TaskResult { hits, failed, timed_out } = task;
        self.files_scanned = self.files_scanned + 1;
        match failed {
            Some(pair) => {
                proof {
                    assert(failure_views(self.failed_files@.push(pair)) =~= failure_views(
                        self.failed_files@,
                    ).push((pair.0@, pair.1@)));
                }
                self.failed_files.push(pair);
            },
            None => {
                let mut taken = hits;
                proof {
                    assert(hit_views(self.hits@ + taken@) =~= hit_views(self.hits@) + hit_views(
                        taken@,
                    ));
                }
                self.hits.append(&mut taken);
            },
        }
        if timed_out {
            self.timed_out = true;
            self.stopped = true;
        } else if let Some(cap) = max_hits {
            if self.hits.len() >= cap {
                self.stopped = true;
            }
        }
        !self.stopped
    }

    /// Turns the state into the response: one page of the hits, with the counts.
    pub fn respond(self, page: usize, page_size: usize, config: &SearchConfig, elapsed_ms: u64) -> (r:
        SearchResponse)
        ensures
            r.total_hits == self.hits@.len(),
            r.page == if page == 0 {
                1
            } else {
                page
            },
            r.page_size == spec_page_size(page_size, *config),
            r.total_pages == ceil_div(r.total_hits as int, r.page_size as int),
            r.hits@ == page_slice(self.hits@, r.page as int, r.page_size as int),
            r.hits@.len() <= r.page_size,
            r.page_size > 0 ==> (r.hits@.len() == 0 <==> (r.page - 1) * r.page_size >= r.total_hits),
            r.execution_time_ms == elapsed_ms,
            r.files_scanned == self.files_scanned,
            r.timed_out == self.timed_out,
            r.failed_files == self.failed_files,
    {
        let size: usize = effective_page_size(page_size, config);
        let total: usize = self.hits.len();
        let pages: usize = total_pages(total, size);
        let number: usize = if page == 0 {
            1
        } else {
            page
        };
        proof {
            assert(0 <= (number - 1) * size < number * size || size == 0) by (nonlinear_arith)
                requires
                    number >= 1,
                    size >= 0,
            ;
        }
        let slice = paginate(self.hits, page, size);
        SearchResponse {
            total_hits: total,
            page: number,
            page_size: size,
            total_pages: pages,
            hits: slice,
            execution_time_ms: elapsed_ms,
            files_scanned: self.files_scanned,
            timed_out: self.timed_out,
            failed_files: self.failed_files,
        }
    }
}

} // verus!
