//! Putting a list in order: a stable merge sort over positions.

use vstd::prelude::*;

verus! {

/// A list whose entries can be told apart by rank: `precedes(i, j)` puts entry
/// `i` strictly before entry `j`.
pub trait Ranked {
    spec fn size(&self) -> nat;

    spec fn precedes(&self, i: int, j: int) -> bool;

    /// Nothing precedes itself.
    proof fn irreflexive(&self, i: int)
        requires
            0 <= i < self.size(),
        ensures
            !self.precedes(i, i),
    ;

    /// What precedes an entry precedes, or is level with, what the entry
    /// precedes or is level with.
    proof fn transitive(&self, i: int, j: int, k: int)
        requires
            0 <= i < self.size(),
            0 <= j < self.size(),
            0 <= k < self.size(),
        ensures
            self.precedes(i, j) && self.precedes(j, k) ==> self.precedes(i, k),
            !self.precedes(j, i) && !self.precedes(k, j) ==> !self.precedes(k, i),
    ;

    fn comes_first(&self, i: usize, j: usize) -> (r: bool)
        requires
            i < self.size(),
            j < self.size(),
        ensures
            r == self.precedes(i as int, j as int),
    ;
}

/// Entry `i` goes before entry `j`: by rank, and among entries of one rank by
/// position.
pub open spec fn goes_before<R: Ranked>(list: R, i: int, j: int) -> bool {
    list.precedes(i, j) || (!list.precedes(j, i) && i < j)
}

/// `order` names each position below `n` once, and each before those that it
/// is to go before.
pub open spec fn arranged(
    n: nat,
    before: spec_fn(int, int) -> bool,
    order: Seq<usize>,
) -> bool {
    &&& order.len() == n
    &&& order.no_duplicates()
    &&& forall|p: int| 0 <= p < order.len() ==> (#[trigger] order[p]) < n
    &&& forall|p: int, q: int|
        0 <= p < q < order.len() ==> before(
            (#[trigger] order[p]) as int,
            (#[trigger] order[q]) as int,
        )
}

proof fn goes_before_laws<R: Ranked>(list: &R, i: int, j: int, k: int)
    requires
        0 <= i < list.size(),
        0 <= j < list.size(),
        0 <= k < list.size(),
    ensures
        goes_before(*list, i, j) && goes_before(*list, j, k) ==> goes_before(*list, i, k),
        !goes_before(*list, i, i),
        i != j ==> goes_before(*list, i, j) || goes_before(*list, j, i),
        !(goes_before(*list, i, j) && goes_before(*list, j, i)),
{
    list.irreflexive(i);
    list.transitive(i, j, k);
    list.transitive(k, i, j);
    list.transitive(j, k, i);
    list.transitive(i, j, i);
}

/// `part` holds the positions from `lo` up to `hi`, in order.
spec fn part_in_order<R: Ranked>(list: R, part: Seq<usize>, lo: int, hi: int) -> bool {
    &&& forall|p: int| 0 <= p < part.len() ==> lo <= (#[trigger] part[p]) < hi
    &&& forall|i: int| lo <= i < hi ==> #[trigger] part.contains(i as usize)
    &&& forall|p: int, q: int|
        0 <= p < q < part.len() ==> goes_before(list, part[p] as int, part[q] as int)
}

fn merge<R: Ranked>(
    list: &R,
    a: &Vec<usize>,
    b: &Vec<usize>,
    Ghost(lo): Ghost<int>,
    Ghost(mid): Ghost<int>,
    Ghost(hi): Ghost<int>,
) -> (r: Vec<usize>)
    requires
        0 <= lo <= mid <= hi <= list.size(),
        list.size() <= usize::MAX,
        part_in_order(*list, a@, lo, mid),
        part_in_order(*list, b@, mid, hi),
    ensures
        part_in_order(*list, r@, lo, hi),
{
    let mut out: Vec<usize> = Vec::new();
    let mut i: usize = 0;
    let mut j: usize = 0;
    while i < a.len() || j < b.len()
        invariant
            0 <= lo <= mid <= hi <= list.size(),
            list.size() <= usize::MAX,
            part_in_order(*list, a@, lo, mid),
            part_in_order(*list, b@, mid, hi),
            i <= a.len(),
            j <= b.len(),
            forall|p: int| 0 <= p < out.len() ==> lo <= (#[trigger] out[p]) < hi,
            forall|p: int| 0 <= p < i ==> out@.contains(#[trigger] a[p]),
            forall|p: int| 0 <= p < j ==> out@.contains(#[trigger] b[p]),
            forall|p: int, q: int|
                0 <= p < q < out.len() ==> goes_before(*list, out[p] as int, out[q] as int),
            forall|p: int, q: int|
                0 <= p < out.len() && i <= q < a.len() ==> goes_before(
                    *list,
                    out[p] as int,
                    a[q] as int,
                ),
            forall|p: int, q: int|
                0 <= p < out.len() && j <= q < b.len() ==> goes_before(
                    *list,
                    out[p] as int,
                    b[q] as int,
                ),
        decreases a.len() - i + b.len() - j,
    {
        let ghost before = out@;
        let take_a = if i == a.len() {
            false
        } else if j == b.len() {
            true
        } else {
            // `a` holds the earlier positions, so it wins where neither precedes
            !list.comes_first(b[j], a[i])
        };
        if take_a {
            let next: usize = a[i];
            proof {
                assert forall|q: int| j <= q < b.len() implies goes_before(
                    *list,
                    next as int,
                    b[q] as int,
                ) by {
                    goes_before_laws(list, next as int, b[j as int] as int, b[q] as int);
                }
            }
            out.push(next);
            i += 1;
            proof {
                assert(out@.last() == next);
                assert forall|p: int| 0 <= p < i implies out@.contains(#[trigger] a[p]) by {
                    if p < i - 1 {
                        assert(before.contains(a[p]));
                        let w = before.index_of(a[p]);
                        assert(out@[w] == a[p]);
                    }
                }
                assert forall|p: int| 0 <= p < j implies out@.contains(#[trigger] b[p]) by {
                    assert(before.contains(b[p]));
                    let w = before.index_of(b[p]);
                    assert(out@[w] == b[p]);
                }
            }
        } else {
            let next: usize = b[j];
            proof {
                assert forall|q: int| i <= q < a.len() implies goes_before(
                    *list,
                    next as int,
                    a[q] as int,
                ) by {
                    goes_before_laws(list, next as int, a[i as int] as int, a[q] as int);
                }
            }
            out.push(next);
            j += 1;
            proof {
                assert(out@.last() == next);
                assert forall|p: int| 0 <= p < i implies out@.contains(#[trigger] a[p]) by {
                    assert(before.contains(a[p]));
                    let w = before.index_of(a[p]);
                    assert(out@[w] == a[p]);
                }
                assert forall|p: int| 0 <= p < j implies out@.contains(#[trigger] b[p]) by {
                    if p < j - 1 {
                        assert(before.contains(b[p]));
                        let w = before.index_of(b[p]);
                        assert(out@[w] == b[p]);
                    }
                }
            }
        }
    }
    proof {
        assert forall|k: int| lo <= k < hi implies #[trigger] out@.contains(k as usize) by {
            if k < mid {
                assert(a@.contains(k as usize));
                let w = a@.index_of(k as usize);
                assert(out@.contains(a[w]));
            } else {
                assert(b@.contains(k as usize));
                let w = b@.index_of(k as usize);
                assert(out@.contains(b[w]));
            }
        }
    }
    out
}

fn sort_part<R: Ranked>(list: &R, lo: usize, hi: usize) -> (r: Vec<usize>)
    requires
        lo <= hi <= list.size(),
        list.size() <= usize::MAX,
    ensures
        part_in_order(*list, r@, lo as int, hi as int),
    decreases hi - lo,
{
    if hi - lo < 2 {
        let mut r: Vec<usize> = Vec::new();
        if lo < hi {
            r.push(lo);
            assert(r@[0] == lo);
        }
        r
    } else {
        let mid: usize = lo + (hi - lo) / 2;
        let a = sort_part(list, lo, mid);
        let b = sort_part(list, mid, hi);
        merge(list, &a, &b, Ghost(lo as int), Ghost(mid as int), Ghost(hi as int))
    }
}

/// The positions of a list of `n` entries in order: by rank, and among entries
/// of one rank as they stand.
pub fn sort_positions<R: Ranked>(list: &R, n: usize) -> (r: Vec<usize>)
    requires
        n == list.size(),
    ensures
        arranged(n as nat, |i: int, j: int| goes_before(*list, i, j), r@),
{
    let r = sort_part(list, 0, n);
    proof {
        let order = r@;
        assert forall|p: int, q: int|
            0 <= p < order.len() && 0 <= q < order.len() && p != q implies order[p] != order[q] by {
            if p < q {
                goes_before_laws(list, order[p] as int, order[q] as int, order[p] as int);
            } else {
                goes_before_laws(list, order[q] as int, order[p] as int, order[p] as int);
            }
        }
        let all = Seq::new(n as nat, |i: int| i as usize);
        assert(all.no_duplicates());
        assert(order.to_set() =~= all.to_set()) by {
            assert forall|x: usize| order.contains(x) implies all.contains(x) by {
                let p = order.index_of(x);
                assert(all[order[p] as int] == x);
            }
            assert forall|x: usize| all.contains(x) implies order.contains(x) by {
                let p = all.index_of(x);
                assert(order.contains(p as usize));
            }
        }
        order.unique_seq_to_set();
        all.unique_seq_to_set();
    }
    r
}

/// An arrangement leaves out no position.
pub proof fn arranged_holds_all(
    n: nat,
    before: spec_fn(int, int) -> bool,
    order: Seq<usize>,
    i: usize,
)
    requires
        arranged(n, before, order),
        i < n <= usize::MAX,
    ensures
        order.contains(i),
{
    if !order.contains(i) {
        // one position more than there are
        let longer = order.push(i);
        assert(longer.no_duplicates());
        let all = Seq::new(n, |k: int| k as usize);
        assert(longer.to_set().subset_of(all.to_set())) by {
            assert forall|x: usize| longer.contains(x) implies all.contains(x) by {
                assert(x < n);
                assert(all[x as int] == x);
            }
        }
        longer.unique_seq_to_set();
        assert(all.no_duplicates());
        all.unique_seq_to_set();
        vstd::set_lib::lemma_len_subset(longer.to_set(), all.to_set());
    }
}

/// Positions in a strict total order are arranged by it in one way only.
pub proof fn arranged_is_unique(
    n: nat,
    before: spec_fn(int, int) -> bool,
    a: Seq<usize>,
    b: Seq<usize>,
)
    requires
        n <= usize::MAX,
        strict_total_order(n, before),
        arranged(n, before, a),
        arranged(n, before, b),
    ensures
        a == b,
{
    if a != b {
        let p = first_difference(a, b);
        // what `a` has at `p` comes later in `b`, and the other way round
        let x = a[p];
        let y = b[p];
        arranged_holds_all(n, before, b, x);
        arranged_holds_all(n, before, a, y);
        let q = b.index_of(x);
        let r = a.index_of(y);
        assert(q > p) by {
            if q < p {
                assert(a[q] == b[q]);
            }
        }
        assert(r > p) by {
            if r < p {
                assert(a[r] == b[r]);
            }
        }
        assert(before(b[p] as int, b[q] as int));
        assert(before(a[p] as int, a[r] as int));
    }
}

/// The place among the first positions that position `n` takes: behind those
/// that go before it.
proof fn place_of_next(
    n: nat,
    before: spec_fn(int, int) -> bool,
    order: Seq<usize>,
    k: int,
) -> (p: int)
    requires
        strict_total_order(n + 1, before),
        arranged(n, before, order),
        0 <= k <= order.len(),
        forall|q: int| k <= q < order.len() ==> before(n as int, (#[trigger] order[q]) as int),
    ensures
        0 <= p <= k,
        forall|q: int| p <= q < order.len() ==> before(n as int, (#[trigger] order[q]) as int),
        forall|q: int| 0 <= q < p ==> before((#[trigger] order[q]) as int, n as int),
    decreases k,
{
    if k == 0 {
        0
    } else if before(n as int, order[k - 1] as int) {
        place_of_next(n, before, order, k - 1)
    } else {
        let x = order[k - 1] as int;
        assert(before(x, n as int));
        assert forall|q: int| 0 <= q < k implies before((#[trigger] order[q]) as int, n as int) by {
            if q < k - 1 {
                assert(before(order[q] as int, x));
            }
        }
        k
    }
}

/// `before` puts the positions below `n` in a strict total order.
pub open spec fn strict_total_order(n: nat, before: spec_fn(int, int) -> bool) -> bool {
    &&& forall|i: int, j: int|
        0 <= i < n && 0 <= j < n && i != j ==> #[trigger] before(i, j) || before(j, i)
    &&& forall|i: int, j: int|
        0 <= i < n && 0 <= j < n && #[trigger] before(i, j) ==> !before(j, i)
    &&& forall|i: int, j: int, k: int|
        0 <= i < n && 0 <= j < n && 0 <= k < n && #[trigger] before(i, j) && #[trigger] before(
            j,
            k,
        ) ==> before(i, k)
}

/// Positions in a strict total order can be arranged by it.
pub proof fn arranged_exists(n: nat, before: spec_fn(int, int) -> bool) -> (order: Seq<usize>)
    requires
        n <= usize::MAX,
        strict_total_order(n, before),
    ensures
        arranged(n, before, order),
    decreases n,
{
    if n == 0 {
        Seq::empty()
    } else {
        let m = (n - 1) as nat;
        assert(strict_total_order(m, before));
        let rest = arranged_exists(m, before);
        let p = place_of_next(m, before, rest, rest.len() as int);
        let order = rest.insert(p, m as usize);
        assert(order.no_duplicates());
        assert forall|a: int, b: int| 0 <= a < b < order.len() implies before(
            (#[trigger] order[a]) as int,
            (#[trigger] order[b]) as int,
        ) by {
            if a == p {
                assert(order[b] == rest[b - 1]);
            } else if b == p {
                assert(order[a] == rest[a]);
            } else {
                let x = if a < p { a } else { a - 1 };
                let y = if b < p { b } else { b - 1 };
                assert(order[a] == rest[x] && order[b] == rest[y]);
            }
        }
        order
    }
}

proof fn first_difference(a: Seq<usize>, b: Seq<usize>) -> (p: int)
    requires
        a.len() == b.len(),
        a != b,
    ensures
        0 <= p < a.len(),
        a[p] != b[p],
        forall|q: int| 0 <= q < p ==> a[q] == b[q],
    decreases a.len(),
{
    if a.len() == 0 {
        assert(a =~= b);
        0
    } else if a.drop_last() != b.drop_last() {
        let p = first_difference(a.drop_last(), b.drop_last());
        assert forall|q: int| 0 <= q < p implies a[q] == b[q] by {
            assert(a.drop_last()[q] == b.drop_last()[q]);
        }
        p
    } else {
        assert forall|q: int| 0 <= q < a.len() - 1 implies a[q] == b[q] by {
            assert(a.drop_last()[q] == b.drop_last()[q]);
        }
        if a.last() == b.last() {
            assert(a =~= b);
        }
        a.len() - 1
    }
}

/// A list of counts, the larger first.
struct LargestFirst<'a> {
    counts: &'a Vec<usize>,
}

impl<'a> Ranked for LargestFirst<'a> {
    closed spec fn size(&self) -> nat {
        self.counts@.len()
    }

    closed spec fn precedes(&self, i: int, j: int) -> bool {
        self.counts@[i] > self.counts@[j]
    }

    proof fn irreflexive(&self, i: int) {
    }

    proof fn transitive(&self, i: int, j: int, k: int) {
    }

    fn comes_first(&self, i: usize, j: usize) -> (r: bool) {
        self.counts[i] > self.counts[j]
    }
}

/// Position `i` of a list of counts goes before `j`: the larger count first,
/// equal counts as they stand.
pub open spec fn larger_first(counts: Seq<nat>) -> spec_fn(int, int) -> bool {
    |i: int, j: int| counts[i] > counts[j] || (counts[i] == counts[j] && i < j)
}

/// `order` names each position of `counts` once, the larger counts first and
/// equal counts as they stand.
pub open spec fn largest_first(counts: Seq<nat>, order: Seq<usize>) -> bool {
    arranged(counts.len(), larger_first(counts), order)
}

/// The positions of a list of counts, the larger counts first and equal counts
/// as they stand.
pub fn largest_first_positions(counts: &Vec<usize>) -> (r: Vec<usize>)
    ensures
        largest_first(counts@.map_values(|c: usize| c as nat), r@),
{
    let list = LargestFirst { counts };
    let r = sort_positions(&list, counts.len());
    proof {
        let f = |i: int, j: int| goes_before(list, i, j);
        let g = larger_first(counts@.map_values(|c: usize| c as nat));
        assert forall|p: int, q: int| 0 <= p < q < r@.len() implies g(
            (#[trigger] r@[p]) as int,
            (#[trigger] r@[q]) as int,
        ) by {
            assert(f(r@[p] as int, r@[q] as int));
        }
    }
    r
}

/// The positions of `counts`, the larger counts first and equal counts as they
/// stand.
pub open spec fn count_ranking(counts: Seq<nat>) -> Seq<usize> {
    choose|order: Seq<usize>| largest_first(counts, order)
}

/// There is one such order only.
pub proof fn count_ranking_is(counts: Seq<nat>, order: Seq<usize>)
    requires
        counts.len() <= usize::MAX,
        largest_first(counts, order),
    ensures
        count_ranking(counts) == order,
{
    assert(strict_total_order(counts.len(), larger_first(counts)));
    arranged_is_unique(counts.len(), larger_first(counts), count_ranking(counts), order);
}

/// There is such an order.
pub proof fn count_ranking_exists(counts: Seq<nat>)
    requires
        counts.len() <= usize::MAX,
    ensures
        largest_first(counts, count_ranking(counts)),
{
    assert(strict_total_order(counts.len(), larger_first(counts)));
    let order = arranged_exists(counts.len(), larger_first(counts));
    assert(largest_first(counts, order));
}

} // verus!
