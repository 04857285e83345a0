//! Cutting the hits of a search into pages.

use crate::config::SearchConfig;
use crate::model::HitResult;
use vstd::prelude::*;

verus! {

/// The page size that a search uses: the server's default where the request
/// names 0, else the requested size, at most the server's largest and at
/// least 1.
pub open spec fn spec_page_size(requested: usize, config: SearchConfig) -> usize {
    if requested == 0 {
        config.default_page_size
    } else if requested > config.max_page_size {
        if config.max_page_size < 1 {
            1
        } else {
            config.max_page_size
        }
    } else {
        requested
    }
}

/// The number of pages that `total` items fill at `size` items a page,
/// rounded up; 0 where the size is 0.
pub open spec fn ceil_div(total: int, size: int) -> int {
    if size <= 0 {
        0
    } else {
        (total + size - 1) / size
    }
}

/// `x`, brought into the range from 0 to `len`.
pub open spec fn clip(x: int, len: int) -> int {
    if x < 0 {
        0
    } else if x > len {
        len
    } else {
        x
    }
}

/// The items of page `page` (counted from 1) at `size` items a page: those
/// at the indices from `(page - 1) * size` up to, not including,
/// `page * size`, as far as there are items.
pub open spec fn page_slice<T>(items: Seq<T>, page: int, size: int) -> Seq<T> {
    items.subrange(
        clip((page - 1) * size, items.len() as int),
        clip(page * size, items.len() as int),
    )
}

/// The page size that a search uses.
pub fn effective_page_size(requested: usize, config: &SearchConfig) -> (size: usize)
    ensures
        size == spec_page_size(requested, *config),
{
    if requested == 0 {
        config.default_page_size
    } else if requested > config.max_page_size {
        if config.max_page_size < 1 {
            1
        } else {
            config.max_page_size
        }
    } else {
        requested
    }
}

/// The number of pages that `total` items fill at `size` items a page.
pub fn total_pages(total: usize, size: usize) -> (pages: usize)
    ensures
        pages == ceil_div(total as int, size as int),
{
    if size == 0 {
        return 0;
    }
    let whole: usize = total / size;
    let rest: usize = total % size;
    proof {
        lemma_ceil_div(total as int, size as int);
    }
    if rest == 0 {
        whole
    } else {
        whole + 1
    }
}

proof fn lemma_ceil_div(total: int, size: int)
    requires
        0 <= total,
        0 < size,
    ensures
        total % size == 0 ==> ceil_div(total, size) == total / size,
        total % size != 0 ==> ceil_div(total, size) == total / size + 1,
        total / size * size <= total,
        total % size != 0 ==> total / size < total,
        total > 0 ==> (ceil_div(total, size) - 1) * size < total <= ceil_div(total, size) * size,
        total == 0 ==> ceil_div(total, size) == 0,
{
    let q = total / size;
    let r = total % size;
    assert(total == q * size + r && 0 <= r < size) by (nonlinear_arith)
        requires
            q == total / size,
            r == total % size,
            0 < size,
            0 <= total,
    ;
    if r == 0 {
        assert((q * size + size - 1) / size == q) by (nonlinear_arith)
            requires
                0 < size,
        ;
        assert((q - 1) * size < q * size) by (nonlinear_arith)
            requires
                0 < size,
        ;
    } else {
        assert(q <= q * size) by (nonlinear_arith)
            requires
                0 < size,
                0 <= q * size,
        ;
        assert((q * size + r + size - 1) / size == q + 1) by (nonlinear_arith)
            requires
                0 < size,
                0 < r < size,
        ;
        assert(q * size + r <= (q + 1) * size) by (nonlinear_arith)
            requires
                0 < size,
                0 < r < size,
        ;
    }
}

/// A page never holds more than its size, and it is empty exactly where it
/// begins behind the last item.
pub proof fn law_page_bounds<T>(items: Seq<T>, page: int, size: int)
    requires
        page >= 1,
        size > 0,
    ensures
        page_slice(items, page, size).len() <= size,
        page_slice(items, page, size).len() == 0 <==> (page - 1) * size >= items.len(),
{
    let from = (page - 1) * size;
    let to = page * size;
    assert(0 <= from && to == from + size) by (nonlinear_arith)
        requires
            from == (page - 1) * size,
            to == page * size,
            page >= 1,
            size > 0,
    ;
}

/// Takes page `page` out of the hits. Page 0 is read as page 1.
pub fn paginate(hits: Vec<HitResult>, page: usize, size: usize) -> (slice: Vec<HitResult>)
    ensures
        slice@ == page_slice(
            hits@,
            if page == 0 {
                1
            } else {
                page as int
            },
            size as int,
        ),
        slice@.len() <= size,
{
    let total: usize = hits.len();
    let number: usize = if page == 0 {
        1
    } else {
        page
    };
    let ghost from = (number - 1) * size;
    let ghost to = number * size;
    proof {
        assert(0 <= from <= to && to - from == size) by (nonlinear_arith)
            requires
                from == (number - 1) * size,
                to == number * size,
                number >= 1,
                size >= 0,
        ;
    }
    let start: usize = match size.checked_mul(number - 1) {
        Some(start) => start,
        None => {
            proof {
                assert(size * (number - 1) == (number - 1) * size) by (nonlinear_arith);
                assert(hits@.subrange(total as int, total as int) =~= Seq::<HitResult>::empty());
            }
            return Vec::new();
        },
    };
    proof {
        assert(size * (number - 1) == (number - 1) * size) by (nonlinear_arith);
    }
    if start >= total {
        proof {
            assert(hits@.subrange(total as int, total as int) =~= Seq::<HitResult>::empty());
        }
        return Vec::new();
    }
    let end: usize = if size > total - start {
        total
    } else {
        start + size
    };
    let mut kept: Vec<HitResult> = hits;
    kept.truncate(end);
    let slice = kept.split_off(start);
    proof {
        assert(slice@ =~= hits@.subrange(start as int, end as int));
    }
    slice
}

} // verus!
