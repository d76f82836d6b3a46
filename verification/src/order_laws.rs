//! What holds of orders and of counts by name.

use crate::order::{
    count_ranking, count_ranking_exists, goes_before, largest_first, largest_first_positions,
    sort_positions, Ranked,
};
use crate::paths::{
    bytes_before, parts_before, path_positions, path_views, same_path, LogPath,
};
use crate::tally::{
    count_of, count_sum, counted_adds, distinct_names, place_is_right, Tally,
};
use vstd::prelude::*;

verus! {

// ---------------------------------------------------------------------------
// Orders
// ---------------------------------------------------------------------------

/// `order` goes through the positions of `counts` once each, from the largest count
/// to the smallest, and through equal counts from the first to the last.
pub open spec fn descends(counts: Seq<nat>, order: Seq<usize>) -> bool {
    &&& order.len() == counts.len()
    &&& forall|p: int| 0 <= p < order.len() ==> (#[trigger] order[p]) < counts.len()
    &&& forall|p: int, q: int|
        0 <= p < q < order.len() ==> (#[trigger] order[p]) != (#[trigger] order[q])
    &&& forall|p: int, q: int|
        0 <= p < q < order.len() ==> counts[(#[trigger] order[p]) as int] >= counts[(
        #[trigger] order[q]) as int]
    &&& forall|p: int, q: int|
        0 <= p < q < order.len() && counts[(#[trigger] order[p]) as int] == counts[(
        #[trigger] order[q]) as int] ==> order[p] < order[q]
}

/// To be ordered by count is to descend, and to stay in place among equals.
pub proof fn larger_counts_come_first(counts: Seq<nat>, order: Seq<usize>)
    ensures
        largest_first(counts, order) <==> descends(counts, order),
{
    if descends(counts, order) {
        assert(order.no_duplicates()) by {
            assert forall|p: int, q: int| 0 <= p < order.len() && 0 <= q < order.len() && p
                != q implies order[p] != order[q] by {
                if p < q {
                    assert(order[p] != order[q]);
                } else {
                    assert(order[q] != order[p]);
                }
            }
        }
    }
}

/// Counts that are put in order descend.
pub proof fn ordered_counts_descend(counts: &Vec<usize>, r: Vec<usize>)
    requires
        call_ensures(largest_first_positions, (counts,), r),
    ensures
        descends(counts@.map_values(|c: usize| c as nat), r@),
{
    larger_counts_come_first(counts@.map_values(|c: usize| c as nat), r@);
}

/// Entries that are put in order: each position once, none behind one that it is to
/// precede, and entries of one rank as they stand.
pub proof fn ordered_entries_do_not_precede_earlier_ones<R: Ranked>(
    list: &R,
    n: usize,
    r: Vec<usize>,
    p: int,
    q: int,
)
    requires
        n == list.size(),
        call_ensures(sort_positions::<R>, (list, n), r),
    ensures
        r@.len() == n,
        0 <= p < q < r@.len() ==> {
            &&& r@[p] < n && r@[q] < n && r@[p] != r@[q]
            &&& !list.precedes(r@[q] as int, r@[p] as int)
            &&& !list.precedes(r@[p] as int, r@[q] as int) ==> r@[p] < r@[q]
        },
{
    if 0 <= p < q < r@.len() {
        let i = r@[p] as int;
        let j = r@[q] as int;
        let before = |i: int, j: int| goes_before(*list, i, j);
        assert(before(i, j));
        list.irreflexive(i);
        list.transitive(i, j, i);
    }
}

/// The ranking of counts descends.
pub proof fn rankings_descend(counts: Seq<nat>)
    requires
        counts.len() <= usize::MAX,
    ensures
        descends(counts, count_ranking(counts)),
{
    count_ranking_exists(counts);
    larger_counts_come_first(counts, count_ranking(counts));
}

/// The first `n` of both are the same.
pub open spec fn same_beginning<T>(a: Seq<T>, b: Seq<T>, n: int) -> bool {
    0 <= n <= a.len() && n <= b.len() && forall|i: int|
        0 <= i < n ==> #[trigger] a[i] == #[trigger] b[i]
}

/// Bytes compare by the first place at which they differ, and a beginning comes
/// before the whole.
pub proof fn bytes_compare_by_their_first_difference(a: Seq<u8>, b: Seq<u8>, n: int)
    requires
        same_beginning(a, b, n),
    ensures
        n < a.len() && n < b.len() && a[n] != b[n] ==> (bytes_before(a, b) <==> a[n] < b[n]),
        n == a.len() && n < b.len() ==> bytes_before(a, b),
        n == b.len() ==> !bytes_before(a, b),
    decreases n,
{
    if n > 0 {
        assert(a[0] == b[0]);
        let x = a.skip(1);
        let y = b.skip(1);
        assert(same_beginning(x, y, n - 1)) by {
            assert forall|i: int| 0 <= i < n - 1 implies #[trigger] x[i] == #[trigger] y[i] by {
                assert(a[i + 1] == b[i + 1]);
            }
        }
        bytes_compare_by_their_first_difference(x, y, n - 1);
    }
}

/// Paths compare by the first component in which they differ, by its rank and then
/// by its bytes, and a beginning comes before the whole.
pub proof fn paths_compare_by_their_first_difference(
    a: Seq<(u8, Seq<u8>)>,
    b: Seq<(u8, Seq<u8>)>,
    n: int,
)
    requires
        same_beginning(a, b, n),
    ensures
        n < a.len() && n < b.len() && a[n].0 != b[n].0 ==> (parts_before(a, b) <==> a[n].0
            < b[n].0),
        n < a.len() && n < b.len() && a[n].0 == b[n].0 && a[n].1 != b[n].1 ==> (parts_before(a, b)
            <==> bytes_before(a[n].1, b[n].1)),
        n == a.len() && n < b.len() ==> parts_before(a, b),
        n == b.len() ==> !parts_before(a, b),
    decreases n,
{
    if n > 0 {
        assert(a[0] == b[0]);
        let x = a.skip(1);
        let y = b.skip(1);
        assert(same_beginning(x, y, n - 1)) by {
            assert forall|i: int| 0 <= i < n - 1 implies #[trigger] x[i] == #[trigger] y[i] by {
                assert(a[i + 1] == b[i + 1]);
            }
        }
        paths_compare_by_their_first_difference(x, y, n - 1);
    }
}

/// Paths that are put in order: each position once, no later path before an earlier
/// one, and paths with the same components as they stand.
pub proof fn ordered_paths_ascend(paths: &Vec<LogPath>, r: Vec<usize>, p: int, q: int)
    requires
        call_ensures(path_positions, (paths,), r),
    ensures
        r@.len() == paths@.len(),
        0 <= p < q < r@.len() ==> {
            let a = r@[p];
            let b = r@[q];
            &&& a < paths@.len() && b < paths@.len() && a != b
            &&& parts_before(paths@[a as int]@.parts, paths@[b as int]@.parts) || (
            paths@[a as int]@.parts == paths@[b as int]@.parts && a < b)
        },
{
    let views = path_views(paths@);
    if 0 <= p < q < r@.len() {
        assert(views[r@[p] as int] == paths@[r@[p] as int]@);
        assert(views[r@[q] as int] == paths@[r@[q] as int]@);
    }
}

/// A copy of a path says the same: how it is shown, its last name, its components and
/// its handle.
pub proof fn copies_of_paths_say_the_same(path: &LogPath, r: LogPath)
    requires
        call_ensures(LogPath::copy, (path,), r),
    ensures
        r.name@ == path.name@,
        r.file_name@ == path.file_name@,
        r.handle == path.handle,
        r@.parts == path@.parts,
{
}

/// Two paths are the same exactly when their components are.
pub proof fn same_paths_have_the_same_components(a: &LogPath, b: &LogPath, r: bool)
    requires
        call_ensures(same_path, (a, b), r),
    ensures
        r <==> a.parts@.len() == b.parts@.len() && forall|i: int|
            0 <= i < a.parts@.len() ==> (#[trigger] a.parts@[i]).rank == b.parts@[i].rank
                && a.parts@[i].text@ == b.parts@[i].text@,
{
    let x = a@.parts;
    let y = b@.parts;
    assert(x.len() == a.parts@.len() && y.len() == b.parts@.len());
    if r {
        assert forall|i: int| 0 <= i < a.parts@.len() implies (#[trigger] a.parts@[i]).rank
            == b.parts@[i].rank && a.parts@[i].text@ == b.parts@[i].text@ by {
            assert(x[i] == a.parts@[i]@);
            assert(y[i] == b.parts@[i]@);
        }
    }
    if a.parts@.len() == b.parts@.len() && forall|i: int|
        0 <= i < a.parts@.len() ==> (#[trigger] a.parts@[i]).rank == b.parts@[i].rank
            && a.parts@[i].text@ == b.parts@[i].text@ {
        assert forall|i: int| 0 <= i < x.len() implies x[i] == y[i] by {
            assert(x[i] == a.parts@[i]@);
            assert(y[i] == b.parts@[i]@);
            assert(a.parts@[i].rank == b.parts@[i].rank);
        }
        assert(x =~= y);
    }
}

// ---------------------------------------------------------------------------
// Counts by name
// ---------------------------------------------------------------------------

/// The count of a name is the one that stands beside it, and zero where it does not
/// stand in the list.
pub proof fn counts_stand_beside_names(v: Seq<(Seq<char>, nat)>, name: Seq<char>, i: int)
    requires
        distinct_names(v),
    ensures
        0 <= i < v.len() && v[i].0 == name ==> count_of(v, name) == v[i].1,
        (forall|k: int| 0 <= k < v.len() ==> (#[trigger] v[k]).0 != name) ==> count_of(v, name)
            == 0,
{
    place_is_right(v, name);
}

/// All counts of two lists add up to those of the one and those of the other.
pub proof fn counts_add_up(a: Seq<(Seq<char>, nat)>, b: Seq<(Seq<char>, nat)>)
    ensures
        count_sum(a + b) == count_sum(a) + count_sum(b),
        b.len() == 0 ==> count_sum(b) == 0,
        b.len() == 1 ==> count_sum(b) == b[0].1,
    decreases b.len(),
{
    if b.len() == 0 {
        assert(a + b =~= a);
    } else {
        assert((a + b).drop_last() =~= a + b.drop_last());
        counts_add_up(a, b.drop_last());
        if b.len() == 1 {
            assert(b.drop_last().len() == 0);
            assert(count_sum(b.drop_last()) == 0);
        }
    }
}

/// A name that is counted keeps its place, or takes one at the end when it comes up
/// for the first time; every other name stays where it is, with its count.
pub proof fn names_keep_their_places(
    tally: &mut Tally,
    name: &str,
    n: usize,
    i: int,
)
    requires
        distinct_names(old(tally)@),
        call_ensures(Tally::add, (tally, name, n), ()),
    ensures
        0 <= i < old(tally)@.len() ==> final(tally)@[i].0 == old(tally)@[i].0,
        0 <= i < old(tally)@.len() && old(tally)@[i].0 != name@ ==> final(tally)@[i].1 == old(
            tally,
        )@[i].1,
        0 <= i < old(tally)@.len() && old(tally)@[i].0 == name@ ==> final(tally)@[i].1 == old(
            tally,
        )@[i].1 + n && final(tally)@.len() == old(tally)@.len(),
        (forall|k: int| 0 <= k < old(tally)@.len() ==> (#[trigger] old(tally)@[k]).0 != name@)
            ==> final(tally)@ == old(tally)@.push((name@, n as nat)),
        count_sum(final(tally)@) == count_sum(old(tally)@) + n,
{
    place_is_right(old(tally)@, name@);
    counted_adds(old(tally)@, name@, n as nat);
}

/// A tally begins empty, and says of each of its names what stands there.
pub proof fn tallies_say_what_they_hold(
    empty: Tally,
    tally: &Tally,
    i: usize,
    n: usize,
    name: &str,
    count: usize,
)
    requires
        call_ensures(Tally::new, (), empty),
        call_ensures(Tally::len, (tally,), n),
        i < tally@.len(),
        call_ensures(Tally::name, (tally, i), name),
        call_ensures(Tally::count, (tally, i), count),
    ensures
        empty@.len() == 0,
        n == tally@.len(),
        (name@, count as nat) == tally@[i as int],
{
}

/// What is read off a tally: a name and its count stand side by side, and a name that
/// was never counted has none.
pub proof fn tallies_are_read_by_name(tally: &Tally, name: &str, r: usize, i: int)
    requires
        distinct_names(tally@),
        call_ensures(Tally::get, (tally, name), r),
    ensures
        0 <= i < tally@.len() && tally@[i].0 == name@ ==> r == tally@[i].1,
        (forall|k: int| 0 <= k < tally@.len() ==> (#[trigger] tally@[k]).0 != name@) ==> r == 0,
{
    counts_stand_beside_names(tally@, name@, i);
}

/// The names by frequency: each once, the most frequent first, and equally frequent
/// ones as they first came up.
pub proof fn most_frequent_names_come_first(tally: &Tally, r: Vec<usize>)
    requires
        call_ensures(Tally::most_frequent, (tally,), r),
    ensures
        descends(tally@.map_values(|c: (Seq<char>, nat)| c.1), r@),
{
    larger_counts_come_first(tally@.map_values(|c: (Seq<char>, nat)| c.1), r@);
}

} // verus!
