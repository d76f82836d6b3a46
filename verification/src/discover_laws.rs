//! What holds of the files that any paths lead to.

use crate::discover::{
    discovered, excluded, kept, kept_members, path_ranking, probed_files, ranking_is, reordered,
    reordered_is_sorted, Probe,
};
use crate::paths::{by_path, by_path_exists, parts_before, path_first, path_order_laws, PathView};
use vstd::prelude::*;
use vstd::relations::{sorted_by, total_ordering};
use vstd::seq_lib::{lemma_multiset_commutative, lemma_sorted_unique, to_multiset_insert};

verus! {

/// Where `x` goes among paths in order: behind those that do not come after it.
pub open spec fn place_by_path(s: Seq<PathView>, x: PathView) -> int
    decreases s.len(),
{
    if s.len() == 0 {
        0
    } else if parts_before(x.parts, s.last().parts) {
        place_by_path(s.drop_last(), x)
    } else {
        s.len() as int
    }
}

/// The paths in order: each put in its place among those before it.
pub open spec fn sorted_paths(paths: Seq<PathView>) -> Seq<PathView>
    decreases paths.len(),
{
    if paths.len() == 0 {
        Seq::empty()
    } else {
        let s = sorted_paths(paths.drop_last());
        s.insert(place_by_path(s, paths.last()), paths.last())
    }
}

/// No later path comes before an earlier one.
pub open spec fn in_order(s: Seq<PathView>) -> bool {
    forall|i: int, j: int|
        0 <= i < j < s.len() ==> !parts_before((#[trigger] s[j]).parts, (#[trigger] s[i]).parts)
}

proof fn place_is_within(s: Seq<PathView>, x: PathView)
    ensures
        0 <= place_by_path(s, x) <= s.len(),
    decreases s.len(),
{
    if s.len() > 0 {
        place_is_within(s.drop_last(), x);
    }
}

proof fn place_divides(s: Seq<PathView>, x: PathView)
    requires
        in_order(s),
    ensures
        0 <= place_by_path(s, x) <= s.len(),
        forall|i: int|
            0 <= i < place_by_path(s, x) ==> !parts_before(x.parts, (#[trigger] s[i]).parts),
        forall|i: int|
            place_by_path(s, x) <= i < s.len() ==> parts_before(
                x.parts,
                (#[trigger] s[i]).parts,
            ),
    decreases s.len(),
{
    if s.len() > 0 {
        let init = s.drop_last();
        if parts_before(x.parts, s.last().parts) {
            assert(in_order(init)) by {
                assert forall|i: int, j: int| 0 <= i < j < init.len() implies !parts_before(
                    (#[trigger] init[j]).parts,
                    (#[trigger] init[i]).parts,
                ) by {
                    assert(!parts_before(s[j].parts, s[i].parts));
                }
            }
            place_divides(init, x);
            let p = place_by_path(s, x);
            assert forall|i: int| 0 <= i < p implies !parts_before(
                x.parts,
                (#[trigger] s[i]).parts,
            ) by {
                assert(init[i] == s[i]);
            }
            assert forall|i: int| p <= i < s.len() implies parts_before(
                x.parts,
                (#[trigger] s[i]).parts,
            ) by {
                if i < init.len() {
                    assert(init[i] == s[i]);
                }
            }
        } else {
            let n = s.len() - 1;
            assert forall|i: int| 0 <= i < s.len() implies !parts_before(
                x.parts,
                (#[trigger] s[i]).parts,
            ) by {
                if i < n && parts_before(x.parts, s[i].parts) {
                    assert(!parts_before(s[n].parts, s[i].parts));
                    path_order_laws(s[i].parts, s[n].parts, s[n].parts);
                    path_order_laws(x.parts, s[i].parts, s[n].parts);
                }
            }
        }
    }
}

/// Arranging paths by path puts each in its place among those before it.
pub proof fn arranging_is_inserting(paths: Seq<PathView>)
    requires
        paths.len() <= usize::MAX,
    ensures
        reordered(paths, path_ranking(paths)) == sorted_paths(paths),
        in_order(sorted_paths(paths)),
        sorted_paths(paths).len() == paths.len(),
    decreases paths.len(),
{
    let ranking = by_path_exists(paths);
    ranking_is(paths, ranking);
    reordered_is_sorted(paths, ranking);
    if paths.len() == 0 {
        assert(reordered(paths, ranking) =~= sorted_paths(paths));
    } else {
        let init = paths.drop_last();
        let x = paths.last();
        let n = init.len();
        arranging_is_inserting(init);
        let order = by_path_exists(init);
        ranking_is(init, order);
        let s = sorted_paths(init);
        let p = place_by_path(s, x);
        place_divides(s, x);
        let longer = order.insert(p, n as usize);
        let first = path_first(paths);
        assert forall|k: int| 0 <= k < n implies paths[(#[trigger] order[k]) as int] == s[k] by {
            assert(reordered(init, order)[k] == init[order[k] as int]);
        }
        assert forall|a: int, b: int| 0 <= a < b < longer.len() implies first(
            (#[trigger] longer[a]) as int,
            (#[trigger] longer[b]) as int,
        ) by {
            let i = if a < p { a } else { a - 1 };
            let j = if b < p { b } else { b - 1 };
            if a == p {
                assert(longer[b] == order[j]);
                assert(parts_before(x.parts, s[j].parts));
            } else if b == p {
                assert(longer[a] == order[i]);
                assert(!parts_before(x.parts, s[i].parts));
                path_order_laws(s[i].parts, x.parts, x.parts);
            } else {
                assert(longer[a] == order[i] && longer[b] == order[j]);
                assert(path_first(init)(order[i] as int, order[j] as int));
                assert(init[order[i] as int] == paths[order[i] as int]);
                assert(init[order[j] as int] == paths[order[j] as int]);
            }
        }
        assert forall|a: int| 0 <= a < longer.len() implies (#[trigger] longer[a])
            < paths.len() by {
            if a < p {
                assert(longer[a] == order[a]);
            } else if a > p {
                assert(longer[a] == order[a - 1]);
            }
        }
        assert(longer.no_duplicates()) by {
            assert forall|a: int, b: int| 0 <= a < longer.len() && 0 <= b < longer.len() && a
                != b implies longer[a] != longer[b] by {
                let lo = if a < b { a } else { b };
                let hi = if a < b { b } else { a };
                assert(first(longer[lo] as int, longer[hi] as int));
                let y = paths[longer[lo] as int].parts;
                path_order_laws(y, y, y);
            }
        }
        assert(by_path(paths, longer));
        ranking_is(paths, longer);
        assert(reordered(paths, longer) =~= s.insert(p, x)) by {
            assert forall|a: int| 0 <= a < longer.len() implies reordered(paths, longer)[a]
                == s.insert(p, x)[a] by {
                if a < p {
                    assert(longer[a] == order[a]);
                } else if a > p {
                    assert(longer[a] == order[a - 1]);
                }
            }
        }
    }
    assert(in_order(sorted_paths(paths)));
}

proof fn kept_joins(a: Seq<PathView>, b: Seq<PathView>, excludes: Seq<String>)
    ensures
        kept(a + b, excludes) == kept(a, excludes) + kept(b, excludes),
    decreases b.len(),
{
    if b.len() == 0 {
        assert(a + b =~= a);
        assert(kept(a, excludes) + kept(b, excludes) =~= kept(a, excludes));
    } else {
        assert((a + b).drop_last() =~= a + b.drop_last());
        kept_joins(a, b.drop_last(), excludes);
        assert(kept(a + b, excludes) =~= kept(a, excludes) + kept(b, excludes));
    }
}

proof fn kept_is_shorter(paths: Seq<PathView>, excludes: Seq<String>)
    ensures
        kept(paths, excludes).len() <= paths.len(),
    decreases paths.len(),
{
    if paths.len() > 0 {
        kept_is_shorter(paths.drop_last(), excludes);
    }
}

proof fn place_between(a: Seq<PathView>, b: Seq<PathView>, x: PathView)
    requires
        forall|i: int| 0 <= i < a.len() ==> !parts_before(x.parts, (#[trigger] a[i]).parts),
        forall|i: int| 0 <= i < b.len() ==> parts_before(x.parts, (#[trigger] b[i]).parts),
    ensures
        place_by_path(a + b, x) == a.len(),
    decreases b.len(),
{
    if b.len() == 0 {
        assert(a + b =~= a);
        if a.len() > 0 {
            assert(a.last() == a[a.len() - 1]);
        }
    } else {
        assert((a + b).drop_last() =~= a + b.drop_last());
        assert((a + b).last() == b[b.len() - 1]);
        place_between(a, b.drop_last(), x);
    }
}

proof fn kept_of_one(x: PathView, excludes: Seq<String>)
    ensures
        kept(seq![x], excludes) == if excluded(x.name, excludes) {
            Seq::empty()
        } else {
            seq![x]
        },
{
    let one = seq![x];
    assert(one.drop_last() =~= Seq::<PathView>::empty());
    assert(one.last() == x);
    assert(kept(one.drop_last(), excludes) =~= Seq::<PathView>::empty());
    assert(kept(one, excludes) =~= if excluded(x.name, excludes) {
        Seq::<PathView>::empty()
    } else {
        one
    });
}

proof fn excluding_after_sorting(paths: Seq<PathView>, excludes: Seq<String>)
    requires
        paths.len() <= usize::MAX,
    ensures
        sorted_paths(kept(paths, excludes)) == kept(sorted_paths(paths), excludes),
    decreases paths.len(),
{
    if paths.len() == 0 {
        assert(sorted_paths(kept(paths, excludes)) =~= kept(sorted_paths(paths), excludes));
    } else {
        let init = paths.drop_last();
        let x = paths.last();
        excluding_after_sorting(init, excludes);
        arranging_is_inserting(init);
        let s = sorted_paths(init);
        let p = place_by_path(s, x);
        place_divides(s, x);
        let a = s.take(p);
        let b = s.skip(p);
        let ka = kept(a, excludes);
        let kb = kept(b, excludes);
        assert(s =~= a + b);
        kept_joins(a, b, excludes);
        assert(s.insert(p, x) =~= (a + seq![x]) + b);
        kept_joins(a + seq![x], b, excludes);
        kept_joins(a, seq![x], excludes);
        kept_of_one(x, excludes);
        if excluded(x.name, excludes) {
            assert(kept(s.insert(p, x), excludes) =~= ka + kb);
            assert(kept(paths, excludes) =~= kept(init, excludes));
        } else {
            let k = kept(init, excludes);
            assert(kept(paths, excludes) =~= k.push(x));
            assert(k.push(x).drop_last() =~= k);
            assert forall|i: int| 0 <= i < ka.len() implies !parts_before(
                x.parts,
                (#[trigger] ka[i]).parts,
            ) by {
                kept_members(a, excludes, ka[i]);
                assert(ka.contains(ka[i]));
                let m = a.index_of(ka[i]);
                assert(s[m] == ka[i]);
            }
            assert forall|i: int| 0 <= i < kb.len() implies parts_before(
                x.parts,
                (#[trigger] kb[i]).parts,
            ) by {
                kept_members(b, excludes, kb[i]);
                assert(kb.contains(kb[i]));
                let m = b.index_of(kb[i]);
                assert(s[p + m] == kb[i]);
            }
            place_between(ka, kb, x);
            assert((ka + kb).insert(ka.len() as int, x) =~= (ka + seq![x]) + kb);
        }
    }
}

proof fn nothing_is_excluded(paths: Seq<PathView>)
    ensures
        kept(paths, Seq::empty()) == paths,
    decreases paths.len(),
{
    let none = Seq::<String>::empty();
    if paths.len() > 0 {
        nothing_is_excluded(paths.drop_last());
        assert(!excluded(paths.last().name, none));
        assert(kept(paths, none) =~= paths);
    } else {
        assert(kept(paths, none) =~= paths);
    }
}

/// Excluding files takes them out of the files to search and leaves the others in
/// their order.
pub proof fn exclusion_keeps_the_order(probes: Seq<Probe>, excludes: Seq<String>)
    requires
        probed_files(probes).len() <= usize::MAX,
    ensures
        discovered(probes, excludes) == kept(discovered(probes, Seq::empty()), excludes),
{
    let files = probed_files(probes);
    nothing_is_excluded(files);
    kept_is_shorter(files, excludes);
    arranging_is_inserting(files);
    arranging_is_inserting(kept(files, excludes));
    excluding_after_sorting(files, excludes);
}

/// The files that lists of probes bring together are those that each brings.
pub proof fn probes_are_joined(a: Seq<Probe>, b: Seq<Probe>)
    ensures
        probed_files(a + b) == probed_files(a) + probed_files(b),
    decreases b.len(),
{
    if b.len() == 0 {
        assert(a + b =~= a);
        assert(probed_files(a) + probed_files(b) =~= probed_files(a));
    } else {
        assert((a + b).drop_last() =~= a + b.drop_last());
        probes_are_joined(a, b.drop_last());
        assert(probed_files(a + b) =~= probed_files(a) + probed_files(b));
    }
}

/// The components of paths.
pub open spec fn components(s: Seq<PathView>) -> Seq<Seq<(u8, Seq<u8>)>> {
    s.map_values(|p: PathView| p.parts)
}

/// `a` does not come after `b`.
pub open spec fn not_after() -> spec_fn(Seq<(u8, Seq<u8>)>, Seq<(u8, Seq<u8>)>) -> bool {
    |a: Seq<(u8, Seq<u8>)>, b: Seq<(u8, Seq<u8>)>| !parts_before(b, a)
}

proof fn not_after_is_total()
    ensures
        total_ordering(not_after()),
{
    let leq = not_after();
    assert forall|a: Seq<(u8, Seq<u8>)>| #[trigger] leq(a, a) by {
        path_order_laws(a, a, a);
    }
    assert forall|a: Seq<(u8, Seq<u8>)>, b: Seq<(u8, Seq<u8>)>| #[trigger] leq(a, b)
        && #[trigger] leq(b, a) implies a == b by {
        path_order_laws(a, b, a);
    }
    assert forall|a: Seq<(u8, Seq<u8>)>, b: Seq<(u8, Seq<u8>)>, c: Seq<(u8, Seq<u8>)>| #[trigger]
        leq(a, b) && #[trigger] leq(b, c) implies leq(a, c) by {
        path_order_laws(a, b, a);
        path_order_laws(b, c, b);
        path_order_laws(c, a, b);
        path_order_laws(a, c, a);
        if parts_before(c, a) && a != b && b != c {
            path_order_laws(b, c, a);
            path_order_laws(c, a, b);
            path_order_laws(a, b, c);
            path_order_laws(c, b, c);
        }
    }
    assert forall|a: Seq<(u8, Seq<u8>)>, b: Seq<(u8, Seq<u8>)>| #[trigger] leq(a, b)
        || #[trigger] leq(b, a) by {
        path_order_laws(a, b, a);
        path_order_laws(a, a, a);
    }
}

proof fn sorting_keeps_components(paths: Seq<PathView>)
    requires
        paths.len() <= usize::MAX,
    ensures
        components(sorted_paths(paths)).to_multiset() == components(paths).to_multiset(),
    decreases paths.len(),
{
    if paths.len() == 0 {
        assert(components(sorted_paths(paths)) =~= components(paths));
    } else {
        let init = paths.drop_last();
        let x = paths.last();
        sorting_keeps_components(init);
        let s = sorted_paths(init);
        let p = place_by_path(s, x);
        place_is_within(s, x);
        assert(components(s.insert(p, x)) =~= components(s).insert(p, x.parts));
        to_multiset_insert(components(s), p, x.parts);
        assert(components(paths) =~= components(init).push(x.parts));
        components(init).to_multiset_ensures();
    }
}

/// The order in which paths are given does not matter, except among paths with the
/// same components: both ways the same files come in the same order.
pub proof fn order_of_probes_does_not_matter(a: Seq<Probe>, b: Seq<Probe>, excludes: Seq<String>)
    requires
        probed_files(a).len() + probed_files(b).len() <= usize::MAX,
    ensures
        components(discovered(a + b, excludes)) == components(discovered(b + a, excludes)),
        forall|p: PathView| #[trigger]
            discovered(a + b, excludes).contains(p) <==> discovered(b + a, excludes).contains(p),
{
    let fa = kept(probed_files(a), excludes);
    let fb = kept(probed_files(b), excludes);
    probes_are_joined(a, b);
    probes_are_joined(b, a);
    kept_joins(probed_files(a), probed_files(b), excludes);
    kept_joins(probed_files(b), probed_files(a), excludes);
    kept_is_shorter(probed_files(a), excludes);
    kept_is_shorter(probed_files(b), excludes);
    let x = fa + fb;
    let y = fb + fa;
    arranging_is_inserting(x);
    arranging_is_inserting(y);
    sorting_keeps_components(x);
    sorting_keeps_components(y);
    assert(components(x) =~= components(fa) + components(fb));
    assert(components(y) =~= components(fb) + components(fa));
    lemma_multiset_commutative(components(fa), components(fb));
    lemma_multiset_commutative(components(fb), components(fa));
    assert(components(x).to_multiset() =~= components(y).to_multiset());
    not_after_is_total();
    components_are_sorted(sorted_paths(x));
    components_are_sorted(sorted_paths(y));
    lemma_sorted_unique(components(sorted_paths(x)), components(sorted_paths(y)), not_after());
    let ox = by_path_exists(x);
    let oy = by_path_exists(y);
    ranking_is(x, ox);
    ranking_is(y, oy);
    reordered_is_sorted(x, ox);
    reordered_is_sorted(y, oy);
    assert forall|p: PathView| #[trigger] discovered(a + b, excludes).contains(p)
        <==> discovered(b + a, excludes).contains(p) by {
        assert(discovered(a + b, excludes).contains(p) <==> x.contains(p));
        assert(discovered(b + a, excludes).contains(p) <==> y.contains(p));
        joined_contains(fa, fb, p);
        joined_contains(fb, fa, p);
    }
}

proof fn joined_contains(a: Seq<PathView>, b: Seq<PathView>, p: PathView)
    ensures
        (a + b).contains(p) <==> a.contains(p) || b.contains(p),
{
    if a.contains(p) {
        let i = a.index_of(p);
        assert((a + b)[i] == p);
    }
    if b.contains(p) {
        let i = b.index_of(p);
        assert((a + b)[a.len() + i] == p);
    }
}

proof fn components_are_sorted(s: Seq<PathView>)
    requires
        in_order(s),
    ensures
        sorted_by(components(s), not_after()),
{
    let c = components(s);
    let leq = not_after();
    assert forall|i: int, j: int| 0 <= i < j < c.len() implies #[trigger] leq(c[i], c[j]) by {
        assert(!parts_before(s[j].parts, s[i].parts));
    }
}

} // verus!
