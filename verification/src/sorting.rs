//! Ordering paths and keeping each once.

use crate::model::string_views;
use crate::text::lemma_utf8_injective;
use vstd::prelude::*;
use vstd::utf8::encode_utf8;

verus! {

/// `a` comes strictly before `b` in the order of a dictionary: at the first
/// place where they differ `a` has the smaller byte, or `a` ends there and
/// `b` goes on.
pub open spec fn bytes_less(a: Seq<u8>, b: Seq<u8>) -> bool
    decreases a.len(),
{
    if b.len() == 0 {
        false
    } else if a.len() == 0 {
        true
    } else if a[0] != b[0] {
        a[0] < b[0]
    } else {
        bytes_less(a.drop_first(), b.drop_first())
    }
}

/// One path comes strictly before another: by their UTF-8 bytes, in the
/// order of a dictionary.
pub open spec fn path_less(a: Seq<char>, b: Seq<char>) -> bool {
    bytes_less(encode_utf8(a), encode_utf8(b))
}

/// Each path of the sequence comes strictly before every later one; so the
/// sequence is in order and holds no path twice.
pub open spec fn strictly_sorted(paths: Seq<Seq<char>>) -> bool {
    forall|i: int, j: int| 0 <= i < j < paths.len() ==> path_less(paths[i], paths[j])
}

/// Two sequences hold the same paths, however often and in whatever order.
pub open spec fn same_paths(a: Seq<Seq<char>>, b: Seq<Seq<char>>) -> bool {
    forall|p: Seq<char>|
        #![trigger a.contains(p)]
        #![trigger b.contains(p)]
        a.contains(p) <==> b.contains(p)
}

pub proof fn lemma_less_irreflexive(a: Seq<u8>)
    ensures
        !bytes_less(a, a),
    decreases a.len(),
{
    if a.len() > 0 {
        lemma_less_irreflexive(a.drop_first());
    }
}

pub proof fn lemma_less_transitive(a: Seq<u8>, b: Seq<u8>, c: Seq<u8>)
    requires
        bytes_less(a, b),
        bytes_less(b, c),
    ensures
        bytes_less(a, c),
    decreases a.len(),
{
    if a.len() > 0 && a[0] == b[0] && b[0] == c[0] {
        lemma_less_transitive(a.drop_first(), b.drop_first(), c.drop_first());
    }
}

pub proof fn lemma_less_total(a: Seq<u8>, b: Seq<u8>)
    ensures
        bytes_less(a, b) || bytes_less(b, a) || a == b,
    decreases a.len(),
{
    if a.len() > 0 && b.len() > 0 && a[0] == b[0] {
        lemma_less_total(a.drop_first(), b.drop_first());
        if a.drop_first() == b.drop_first() {
            assert(a =~= seq![a[0]] + a.drop_first());
            assert(b =~= seq![b[0]] + b.drop_first());
        }
    } else if a.len() == 0 && b.len() == 0 {
        assert(a =~= b);
    }
}

proof fn lemma_skip_step(a: Seq<u8>, i: int)
    requires
        0 <= i < a.len(),
    ensures
        a.skip(i).drop_first() == a.skip(i + 1),
        a.skip(i)[0] == a[i],
        a.skip(i).len() == a.len() - i,
{
    assert(a.skip(i).drop_first() =~= a.skip(i + 1));
}

/// Tells whether `a` comes strictly before `b` in the order of a dictionary.
pub fn less(a: &[u8], b: &[u8]) -> (r: bool)
    ensures
        r == bytes_less(a@, b@),
{
    let n: usize = a.len();
    let m: usize = b.len();
    let mut i: usize = 0;
    proof {
        assert(a@.skip(0) =~= a@);
        assert(b@.skip(0) =~= b@);
    }
    while i < n && i < m
        invariant
            n == a@.len(),
            m == b@.len(),
            i <= n,
            i <= m,
            bytes_less(a@, b@) == bytes_less(a@.skip(i as int), b@.skip(i as int)),
        decreases n - i,
    {
        proof {
            lemma_skip_step(a@, i as int);
            lemma_skip_step(b@, i as int);
        }
        if a[i] != b[i] {
            return a[i] < b[i];
        }
        i += 1;
    }
    proof {
        if i < n {
            lemma_skip_step(a@, i as int);
        }
        if i < m {
            lemma_skip_step(b@, i as int);
        }
    }
    i < m
}

/// The place of `path` in a sorted sequence: the paths before it come
/// strictly before `path`, and none from it on does.
fn lower_bound(sorted: &Vec<String>, path: &str) -> (at: usize)
    requires
        strictly_sorted(string_views(sorted@)),
    ensures
        at <= sorted@.len(),
        forall|k: int| 0 <= k < at ==> path_less(#[trigger] string_views(sorted@)[k], path@),
        forall|k: int|
            at <= k < sorted@.len() ==> !path_less(#[trigger] string_views(sorted@)[k], path@),
{
    let ghost views = string_views(sorted@);
    let mut lo: usize = 0;
    let mut hi: usize = sorted.len();
    while lo < hi
        invariant
            lo <= hi <= sorted@.len(),
            views == string_views(sorted@),
            strictly_sorted(views),
            forall|k: int| 0 <= k < lo ==> path_less(#[trigger] views[k], path@),
            forall|k: int| hi <= k < sorted@.len() ==> !path_less(#[trigger] views[k], path@),
        decreases hi - lo,
    {
        let mid: usize = lo + (hi - lo) / 2;
        let middle: &String = &sorted[mid];
        assert(views[mid as int] == middle@);
        if less(middle.as_str().as_bytes(), path.as_bytes()) {
            proof {
                assert forall|k: int| 0 <= k < mid + 1 implies path_less(
                    #[trigger] views[k],
                    path@,
                ) by {
                    if k < mid {
                        assert(path_less(views[k], views[mid as int]));
                        lemma_less_transitive(
                            encode_utf8(views[k]),
                            encode_utf8(views[mid as int]),
                            encode_utf8(path@),
                        );
                    }
                }
            }
            lo = mid + 1;
        } else {
            proof {
                assert forall|k: int| mid <= k < sorted@.len() implies !path_less(
                    #[trigger] views[k],
                    path@,
                ) by {
                    if mid < k && path_less(views[k], path@) {
                        assert(path_less(views[mid as int], views[k]));
                        lemma_less_transitive(
                            encode_utf8(views[mid as int]),
                            encode_utf8(views[k]),
                            encode_utf8(path@),
                        );
                    }
                }
            }
            hi = mid;
        }
    }
    lo
}

/// Puts the paths in order and keeps each once.
pub fn sort_dedup(paths: Vec<String>) -> (sorted: Vec<String>)
    ensures
        strictly_sorted(string_views(sorted@)),
        same_paths(string_views(sorted@), string_views(paths@)),
{
    let ghost all = string_views(paths@);
    let mut rest: Vec<String> = paths;
    let mut sorted: Vec<String> = Vec::new();
    proof {
        assert(string_views(sorted@) =~= Seq::<Seq<char>>::empty());
    }
    while rest.len() > 0
        invariant
            strictly_sorted(string_views(sorted@)),
            forall|p: Seq<char>|
                all.contains(p) <==> string_views(sorted@).contains(p) || string_views(
                    rest@,
                ).contains(p),
        decreases rest@.len(),
    {
        let ghost before = string_views(sorted@);
        let ghost pending = string_views(rest@);
        let path: String = rest.pop().unwrap();
        proof {
            assert(string_views(rest@) =~= pending.drop_last());
            assert(pending.last() == path@);
            assert forall|p: Seq<char>| pending.contains(p) <==> pending.drop_last().contains(p)
                || p == path@ by {
                if pending.contains(p) {
                    let k = choose|k: int| 0 <= k < pending.len() && pending[k] == p;
                    if k < pending.len() - 1 {
                        assert(pending.drop_last()[k] == p);
                    }
                }
                if pending.drop_last().contains(p) {
                    let k = choose|k: int|
                        0 <= k < pending.drop_last().len() && pending.drop_last()[k] == p;
                    assert(pending[k] == p);
                }
            }
        }
        let at: usize = lower_bound(&sorted, path.as_str());
        let present: bool = at < sorted.len() && !less(
            path.as_str().as_bytes(),
            sorted[at].as_str().as_bytes(),
        );
        proof {
            if at < sorted@.len() {
                assert(before[at as int] == sorted@[at as int]@);
                lemma_less_total(encode_utf8(before[at as int]), encode_utf8(path@));
                lemma_utf8_injective(before[at as int], path@);
            }
        }
        if !present {
            proof {
                let after = before.insert(at as int, path@);
                assert(string_views(sorted@.insert(at as int, path)) =~= after);
                assert forall|i: int, j: int| 0 <= i < j < after.len() implies path_less(
                    after[i],
                    after[j],
                ) by {
                    if j == at {
                        assert(after[i] == before[i]);
                    } else if i == at {
                        assert(after[j] == before[j - 1]);
                        if j - 1 > at {
                            assert(path_less(before[at as int], before[j - 1]));
                            lemma_less_transitive(
                                encode_utf8(path@),
                                encode_utf8(before[at as int]),
                                encode_utf8(before[j - 1]),
                            );
                        }
                    } else {
                        let bi = if i < at {
                            i
                        } else {
                            i - 1
                        };
                        let bj = if j < at {
                            j
                        } else {
                            j - 1
                        };
                        assert(after[i] == before[bi]);
                        assert(after[j] == before[bj]);
                    }
                }
                assert forall|p: Seq<char>| after.contains(p) <==> before.contains(p) || p
                    == path@ by {
                    if after.contains(p) {
                        let k = choose|k: int| 0 <= k < after.len() && after[k] == p;
                        if k < at {
                            assert(before[k] == p);
                        } else if k > at {
                            assert(before[k - 1] == p);
                        }
                    }
                    if before.contains(p) {
                        let k = choose|k: int| 0 <= k < before.len() && before[k] == p;
                        if k < at {
                            assert(after[k] == p);
                        } else {
                            assert(after[k + 1] == p);
                        }
                    }
                    if p == path@ {
                        assert(after[at as int] == p);
                    }
                }
            }
            sorted.insert(at, path);
        } else {
            proof {
                assert(before[at as int] == path@);
            }
        }
    }
    proof {
        assert(string_views(rest@) =~= Seq::<Seq<char>>::empty());
    }
    sorted
}

/// A sequence in strict order is settled by the paths it holds: two such
/// sequences with the same paths are the same sequence. So to order and
/// de-duplicate what is already in strict order changes nothing.
pub proof fn law_sorted_unique(a: Seq<Seq<char>>, b: Seq<Seq<char>>)
    requires
        strictly_sorted(a),
        strictly_sorted(b),
        same_paths(a, b),
    ensures
        a == b,
    decreases a.len(),
{
    if a.len() == 0 {
        if b.len() > 0 {
            assert(b.contains(b[0]));
            assert(a.contains(b[0]));
        }
        assert(a =~= b);
    } else if b.len() == 0 {
        assert(a.contains(a[0]));
        assert(b.contains(a[0]));
    } else {
        // The first path of each is the least of the common set.
        assert(a.contains(a[0]));
        assert(b.contains(b[0]));
        let i = choose|i: int| 0 <= i < b.len() && b[i] == a[0];
        let j = choose|j: int| 0 <= j < a.len() && a[j] == b[0];
        if i > 0 {
            assert(path_less(b[0], b[i]));
        }
        if j > 0 {
            assert(path_less(a[0], a[j]));
        }
        if i > 0 && j > 0 {
            lemma_less_transitive(encode_utf8(b[0]), encode_utf8(b[i]), encode_utf8(a[j]));
            lemma_less_irreflexive(encode_utf8(b[0]));
        }
        if i > 0 && j == 0 {
            lemma_less_irreflexive(encode_utf8(b[0]));
        }
        if i == 0 && j > 0 {
            lemma_less_irreflexive(encode_utf8(a[0]));
        }
        assert(a[0] == b[0]);
        let ta = a.drop_first();
        let tb = b.drop_first();
        assert forall|p: Seq<char>| ta.contains(p) <==> tb.contains(p) by {
            if ta.contains(p) {
                let k = choose|k: int| 0 <= k < ta.len() && ta[k] == p;
                assert(a[k + 1] == p);
                assert(a.contains(p));
                let m = choose|m: int| 0 <= m < b.len() && b[m] == p;
                if m == 0 {
                    lemma_less_irreflexive(encode_utf8(p));
                    assert(path_less(a[0], a[k + 1]));
                } else {
                    assert(tb[m - 1] == p);
                }
            }
            if tb.contains(p) {
                let k = choose|k: int| 0 <= k < tb.len() && tb[k] == p;
                assert(b[k + 1] == p);
                assert(b.contains(p));
                let m = choose|m: int| 0 <= m < a.len() && a[m] == p;
                if m == 0 {
                    lemma_less_irreflexive(encode_utf8(p));
                    assert(path_less(b[0], b[k + 1]));
                } else {
                    assert(ta[m - 1] == p);
                }
            }
        }
        assert forall|x: int, y: int| 0 <= x < y < ta.len() implies path_less(ta[x], ta[y]) by {
            assert(ta[x] == a[x + 1] && ta[y] == a[y + 1]);
        }
        assert forall|x: int, y: int| 0 <= x < y < tb.len() implies path_less(tb[x], tb[y]) by {
            assert(tb[x] == b[x + 1] && tb[y] == b[y + 1]);
        }
        law_sorted_unique(ta, tb);
        assert(a =~= seq![a[0]] + ta);
        assert(b =~= seq![b[0]] + tb);
    }
}

} // verus!
