//! Paths: how they are shown, and in what order they come.

use crate::order::{
    arranged, arranged_exists, arranged_is_unique, goes_before, sort_positions, strict_total_order,
    Ranked,
};
use vstd::prelude::*;

verus! {

/// One component of a path. Components compare by rank first: a prefix comes
/// before the root, the root before `.`, then `..`, then names; names compare
/// by their bytes.
pub struct PathPart {
    pub rank: u8,
    pub text: Vec<u8>,
}

impl PathPart {
    pub open spec fn view(&self) -> (u8, Seq<u8>) {
        (self.rank, self.text@)
    }
}

/// A path as the library knows it: how it is shown, its last name, its
/// components, and the handle by which the caller finds it again.
pub struct LogPath {
    pub name: String,
    pub file_name: String,
    pub parts: Vec<PathPart>,
    pub handle: usize,
}

/// What a `LogPath` says.
#[verifier::ext_equal]
pub struct PathView {
    pub name: Seq<char>,
    pub file_name: Seq<char>,
    pub parts: Seq<(u8, Seq<u8>)>,
    pub handle: usize,
}

/// The components of a path.
pub open spec fn part_views(v: Seq<PathPart>) -> Seq<(u8, Seq<u8>)> {
    v.map_values(|p: PathPart| p@)
}

/// Paths as they stand in a list.
pub open spec fn path_views(v: Seq<LogPath>) -> Seq<PathView> {
    v.map_values(|p: LogPath| p@)
}

impl LogPath {
    pub open spec fn view(&self) -> PathView {
        PathView {
            name: self.name@,
            file_name: self.file_name@,
            parts: part_views(self.parts@),
            handle: self.handle,
        }
    }
}

fn copy_parts(v: &Vec<PathPart>) -> (r: Vec<PathPart>)
    ensures
        part_views(r@) == part_views(v@),
{
    let mut r: Vec<PathPart> = Vec::new();
    for i in 0..v.len()
        invariant
            r@.len() == i,
            forall|k: int| 0 <= k < i ==> (#[trigger] r@[k])@ == v@[k]@,
    {
        let text: Vec<u8> = v[i].text.clone();
        assert(text@ =~= v@[i as int].text@);
        r.push(PathPart { rank: v[i].rank, text });
    }
    assert(part_views(r@) =~= part_views(v@));
    r
}

impl LogPath {
    /// A path that says the same.
    pub fn copy(&self) -> (r: LogPath)
        ensures
            r@ == self@,
    {
        LogPath {
            name: self.name.clone(),
            file_name: self.file_name.clone(),
            parts: copy_parts(&self.parts),
            handle: self.handle,
        }
    }
}

// ---------------------------------------------------------------------------
// The order of paths
// ---------------------------------------------------------------------------

/// `a` comes before `b` byte by byte; a beginning comes before the whole.
pub open spec fn bytes_before(a: Seq<u8>, b: Seq<u8>) -> bool
    decreases a.len(),
{
    if b.len() == 0 {
        false
    } else if a.len() == 0 {
        true
    } else if a[0] != b[0] {
        a[0] < b[0]
    } else {
        bytes_before(a.skip(1), b.skip(1))
    }
}

/// `a` comes before `b`: by rank, then by bytes.
pub open spec fn part_before(a: (u8, Seq<u8>), b: (u8, Seq<u8>)) -> bool {
    a.0 < b.0 || (a.0 == b.0 && bytes_before(a.1, b.1))
}

/// `a` comes before `b` component by component; a beginning comes before the
/// whole.
pub open spec fn parts_before(a: Seq<(u8, Seq<u8>)>, b: Seq<(u8, Seq<u8>)>) -> bool
    decreases a.len(),
{
    if b.len() == 0 {
        false
    } else if a.len() == 0 {
        true
    } else if a[0] != b[0] {
        part_before(a[0], b[0])
    } else {
        parts_before(a.skip(1), b.skip(1))
    }
}

proof fn bytes_order(a: Seq<u8>, b: Seq<u8>, c: Seq<u8>)
    ensures
        !bytes_before(a, a),
        bytes_before(a, b) && bytes_before(b, c) ==> bytes_before(a, c),
        bytes_before(a, b) || bytes_before(b, a) || a == b,
    decreases a.len(),
{
    if a.len() == 0 && b.len() == 0 {
        assert(a =~= b);
    }
    if a.len() > 0 {
        bytes_order(a.skip(1), a.skip(1), Seq::empty());
        if b.len() > 0 {
            if a[0] == b[0] {
                bytes_order(a.skip(1), b.skip(1), Seq::empty());
                if a.skip(1) == b.skip(1) {
                    assert(a =~= seq![a[0]] + a.skip(1));
                    assert(b =~= seq![b[0]] + b.skip(1));
                }
            }
            if c.len() > 0 {
                bytes_order(a.skip(1), b.skip(1), c.skip(1));
            }
        }
    }
}

proof fn part_order(a: (u8, Seq<u8>), b: (u8, Seq<u8>), c: (u8, Seq<u8>))
    ensures
        !part_before(a, a),
        part_before(a, b) && part_before(b, c) ==> part_before(a, c),
        part_before(a, b) || part_before(b, a) || a == b,
        !(part_before(a, b) && part_before(b, a)),
{
    bytes_order(a.1, b.1, c.1);
    bytes_order(a.1, b.1, a.1);
}

/// Paths are in a strict total order by their components: no path comes before
/// itself, what comes before what comes before a path comes before it, and of
/// two paths with different components one comes first.
pub proof fn path_order_laws(
    a: Seq<(u8, Seq<u8>)>,
    b: Seq<(u8, Seq<u8>)>,
    c: Seq<(u8, Seq<u8>)>,
)
    ensures
        !parts_before(a, a),
        parts_before(a, b) && parts_before(b, c) ==> parts_before(a, c),
        parts_before(a, b) || parts_before(b, a) || a == b,
    decreases a.len(),
{
    if a.len() == 0 && b.len() == 0 {
        assert(a =~= b);
    }
    if a.len() > 0 {
        path_order_laws(a.skip(1), a.skip(1), Seq::empty());
        if b.len() > 0 {
            part_order(a[0], b[0], a[0]);
            if a[0] == b[0] {
                path_order_laws(a.skip(1), b.skip(1), Seq::empty());
                if a.skip(1) == b.skip(1) {
                    assert(a =~= seq![a[0]] + a.skip(1));
                    assert(b =~= seq![b[0]] + b.skip(1));
                }
            }
            if c.len() > 0 {
                part_order(a[0], b[0], c[0]);
                path_order_laws(a.skip(1), b.skip(1), c.skip(1));
            }
        }
    }
}

fn bytes_come_first(a: &Vec<u8>, b: &Vec<u8>) -> (r: bool)
    ensures
        r == bytes_before(a@, b@),
{
    let mut i: usize = 0;
    assert(a@.skip(0) =~= a@ && b@.skip(0) =~= b@);
    while i < a.len() && i < b.len()
        invariant
            i <= a@.len(),
            i <= b@.len(),
            bytes_before(a@, b@) == bytes_before(a@.skip(i as int), b@.skip(i as int)),
        decreases a@.len() - i,
    {
        assert(a@.skip(i as int).skip(1) =~= a@.skip(i + 1));
        assert(b@.skip(i as int).skip(1) =~= b@.skip(i + 1));
        if a[i] != b[i] {
            return a[i] < b[i];
        }
        i += 1;
    }
    i < b.len()
}

fn parts_come_first(a: &Vec<PathPart>, b: &Vec<PathPart>) -> (r: bool)
    ensures
        r == parts_before(part_views(a@), part_views(b@)),
{
    let ghost av = part_views(a@);
    let ghost bv = part_views(b@);
    let mut i: usize = 0;
    assert(av.skip(0) =~= av && bv.skip(0) =~= bv);
    while i < a.len() && i < b.len()
        invariant
            i <= a@.len(),
            i <= b@.len(),
            av == part_views(a@),
            bv == part_views(b@),
            parts_before(av, bv) == parts_before(av.skip(i as int), bv.skip(i as int)),
        decreases a@.len() - i,
    {
        proof {
            assert(av.skip(i as int).skip(1) =~= av.skip(i + 1));
            assert(bv.skip(i as int).skip(1) =~= bv.skip(i + 1));
            assert(av.skip(i as int)[0] == a@[i as int]@);
            assert(bv.skip(i as int)[0] == b@[i as int]@);
        }
        let x = &a[i];
        let y = &b[i];
        if x.rank != y.rank {
            return x.rank < y.rank;
        }
        if bytes_come_first(&x.text, &y.text) {
            proof {
                bytes_order(x.text@, x.text@, x.text@);
            }
            return true;
        }
        if bytes_come_first(&y.text, &x.text) {
            proof {
                bytes_order(x.text@, x.text@, x.text@);
            }
            return false;
        }
        proof {
            bytes_order(x.text@, y.text@, x.text@);
        }
        i += 1;
    }
    i < b.len()
}

/// Whether two paths have the same components.
pub fn same_path(a: &LogPath, b: &LogPath) -> (r: bool)
    ensures
        r == (a@.parts == b@.parts),
{
    proof {
        path_order_laws(a@.parts, b@.parts, a@.parts);
    }
    !parts_come_first(&a.parts, &b.parts) && !parts_come_first(&b.parts, &a.parts)
}

struct ByPath<'a> {
    paths: &'a Vec<LogPath>,
}

impl<'a> Ranked for ByPath<'a> {
    closed spec fn size(&self) -> nat {
        self.paths@.len()
    }

    closed spec fn precedes(&self, i: int, j: int) -> bool {
        parts_before(self.paths@[i]@.parts, self.paths@[j]@.parts)
    }

    proof fn irreflexive(&self, i: int) {
        let p = self.paths@[i]@.parts;
        path_order_laws(p, p, p);
    }

    proof fn transitive(&self, i: int, j: int, k: int) {
        let a = self.paths@[i]@.parts;
        let b = self.paths@[j]@.parts;
        let c = self.paths@[k]@.parts;
        path_order_laws(a, b, c);
        path_order_laws(b, c, a);
        path_order_laws(c, a, b);
    }

    fn comes_first(&self, i: usize, j: usize) -> (r: bool) {
        parts_come_first(&self.paths[i].parts, &self.paths[j].parts)
    }
}

/// Position `i` of a list of paths goes before `j`: by path, and paths with the
/// same components as they stand.
pub open spec fn path_first(paths: Seq<PathView>) -> spec_fn(int, int) -> bool {
    |i: int, j: int|
        parts_before(paths[i].parts, paths[j].parts) || (paths[i].parts == paths[j].parts && i < j)
}

/// `order` names each position of `paths` once, by path, and paths with the
/// same components as they stand.
pub open spec fn by_path(paths: Seq<PathView>, order: Seq<usize>) -> bool {
    arranged(paths.len(), path_first(paths), order)
}

proof fn path_first_is_total(paths: Seq<PathView>)
    ensures
        strict_total_order(paths.len(), path_first(paths)),
{
    let before = path_first(paths);
    assert forall|i: int, j: int| 0 <= i < paths.len() && 0 <= j < paths.len() implies (i != j
        ==> #[trigger] before(i, j) || before(j, i)) && (before(i, j) ==> !before(j, i)) by {
        path_order_laws(paths[i].parts, paths[j].parts, paths[i].parts);
        path_order_laws(paths[j].parts, paths[j].parts, paths[j].parts);
    }
    assert forall|i: int, j: int, k: int|
        0 <= i < paths.len() && 0 <= j < paths.len() && 0 <= k < paths.len() && #[trigger] before(
            i,
            j,
        ) && #[trigger] before(j, k) implies before(i, k) by {
        path_order_laws(paths[i].parts, paths[j].parts, paths[k].parts);
    }
}

/// There is one arrangement by path only.
pub proof fn by_path_is_unique(paths: Seq<PathView>, a: Seq<usize>, b: Seq<usize>)
    requires
        paths.len() <= usize::MAX,
        by_path(paths, a),
        by_path(paths, b),
    ensures
        a == b,
{
    path_first_is_total(paths);
    arranged_is_unique(paths.len(), path_first(paths), a, b);
}

/// The positions of `paths` by path, paths with the same components as they
/// stand.
pub fn path_positions(paths: &Vec<LogPath>) -> (r: Vec<usize>)
    ensures
        by_path(path_views(paths@), r@),
{
    let list = ByPath { paths };
    let r = sort_positions(&list, paths.len());
    proof {
        let views = path_views(paths@);
        let f = |i: int, j: int| goes_before(list, i, j);
        let g = path_first(views);
        assert forall|p: int, q: int| 0 <= p < q < r@.len() implies g(
            (#[trigger] r@[p]) as int,
            (#[trigger] r@[q]) as int,
        ) by {
            let x = r@[p] as int;
            let y = r@[q] as int;
            assert(f(x, y));
            path_order_laws(views[x].parts, views[y].parts, Seq::empty());
        }
    }
    r
}

/// Any list of paths can be arranged by path.
pub proof fn by_path_exists(paths: Seq<PathView>) -> (order: Seq<usize>)
    requires
        paths.len() <= usize::MAX,
    ensures
        by_path(paths, order),
{
    path_first_is_total(paths);
    arranged_exists(paths.len(), path_first(paths))
}

} // verus!
