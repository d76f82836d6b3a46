//! Which files a search goes through.

use crate::order::arranged_holds_all;
use crate::paths::{
    by_path, by_path_exists, by_path_is_unique, parts_before, path_first, path_order_laws,
    path_positions, path_views, LogPath, PathView,
};
use crate::text::{contains, ends_with, has_piece, has_tail, lower, to_lower};
use vstd::prelude::*;

verus! {

/// An entry of a directory, with all that lies under it.
pub enum Node {
    Directory { path: LogPath, entries: Vec<Node> },
    File { path: LogPath },
    Other { path: LogPath },
}

impl Node {
    pub open spec fn path(self) -> PathView {
        match self {
            Node::Directory { path, .. } => path@,
            Node::File { path } => path@,
            Node::Other { path } => path@,
        }
    }

    fn path_copy(&self) -> (r: LogPath)
        ensures
            r@ == self.path(),
    {
        match self {
            Node::Directory { path, .. } => path.copy(),
            Node::File { path } => path.copy(),
            Node::Other { path } => path.copy(),
        }
    }
}

/// The paths of the entries of a directory.
pub open spec fn node_paths(entries: Seq<Node>) -> Seq<PathView> {
    entries.map_values(|n: Node| n.path())
}

/// The positions of `paths` by path.
pub open spec fn path_ranking(paths: Seq<PathView>) -> Seq<usize> {
    choose|order: Seq<usize>| by_path(paths, order)
}

/// The files at and under an entry.
pub open spec fn node_files(n: Node) -> Seq<PathView>
    decreases n, 0nat,
{
    match n {
        Node::Directory { path, entries } => listed_files(
            entries@,
            path_ranking(node_paths(entries@)),
            entries@.len(),
        ),
        Node::File { path } => seq![path@],
        Node::Other { .. } => Seq::empty(),
    }
}

/// The files at and under the first `k` entries of an order.
pub open spec fn listed_files(entries: Seq<Node>, order: Seq<usize>, k: nat) -> Seq<PathView>
    decreases entries, k,
{
    if k == 0 || k > order.len() || order[k - 1] >= entries.len() {
        Seq::empty()
    } else {
        listed_files(entries, order, (k - 1) as nat) + node_files(entries[order[k - 1] as int])
    }
}

/// The files at and under the entries of a directory: the entries by path,
/// each directory with all that lies under it in its place.
pub open spec fn tree_files(entries: Seq<Node>) -> Seq<PathView> {
    listed_files(entries, path_ranking(node_paths(entries)), entries.len())
}

/// The arrangement by path is the one that there is.
pub proof fn ranking_is(paths: Seq<PathView>, order: Seq<usize>)
    requires
        paths.len() <= usize::MAX,
        by_path(paths, order),
    ensures
        path_ranking(paths) == order,
{
    by_path_is_unique(paths, path_ranking(paths), order);
}

/// Adds the files at and under the entries of a directory to a list.
pub fn collect_files_recursive(entries: &Vec<Node>, files: &mut Vec<LogPath>)
    ensures
        path_views(final(files)@) == path_views(old(files)@) + tree_files(entries@),
    decreases entries,
{
    let mut paths: Vec<LogPath> = Vec::new();
    for i in 0..entries.len()
        invariant
            paths@.len() == i,
            forall|k: int| 0 <= k < i ==> (#[trigger] paths@[k])@ == entries@[k].path(),
    {
        paths.push(entries[i].path_copy());
    }
    let order = path_positions(&paths);
    proof {
        assert(path_views(paths@) =~= node_paths(entries@));
        ranking_is(node_paths(entries@), order@);
    }
    let ghost before = path_views(files@);
    assert(before + listed_files(entries@, order@, 0) =~= before);
    for k in 0..order.len()
        invariant
            by_path(node_paths(entries@), order@),
            node_paths(entries@).len() == entries@.len(),
            path_views(files@) == before + listed_files(entries@, order@, k as nat),
        decreases entries, order@.len() - k,
    {
        let ghost so_far = path_views(files@);
        let i: usize = order[k];
        let node = &entries[i];
        match node {
            Node::Directory { path, entries: inner } => {
                collect_files_recursive(inner, files);
            },
            Node::File { path } => {
                files.push(path.copy());
            },
            Node::Other { .. } => {},
        }
        proof {
            assert(path_views(files@) =~= so_far + node_files(*node));
            assert(path_views(files@) =~= before + listed_files(entries@, order@, (k + 1) as nat));
        }
    }
}

// ---------------------------------------------------------------------------
// Names
// ---------------------------------------------------------------------------

/// The name of a log file, upper and lower case taken as one.
pub open spec fn log_name(name: Seq<char>) -> bool {
    let n = lower(name);
    ||| has_tail(n, ".log"@)
    ||| has_tail(n, ".json"@)
    ||| has_tail(n, ".ndjson"@)
    ||| has_tail(n, ".jsonl"@)
    ||| has_tail(n, ".log.gz"@)
    ||| has_tail(n, ".gz"@)
    ||| has_tail(n, ".txt"@)
    ||| has_tail(n, ".out"@)
    ||| has_tail(n, ".err"@)
}

/// Whether a name is that of a log file.
pub fn is_log_file(name: &str) -> (r: bool)
    ensures
        r == log_name(name@),
{
    let lowered = to_lower(name);
    let n = lowered.as_str();
    ends_with(n, ".log") || ends_with(n, ".json") || ends_with(n, ".ndjson") || ends_with(
        n,
        ".jsonl",
    ) || ends_with(n, ".log.gz") || ends_with(n, ".gz") || ends_with(n, ".txt") || ends_with(
        n,
        ".out",
    ) || ends_with(n, ".err")
}

/// The name of a file that is read through gzip.
pub open spec fn gzip_name(name: Seq<char>) -> bool {
    has_tail(name, ".gz"@)
}

/// Whether a file of this name is read through gzip.
pub fn is_gzip_file(name: &str) -> (r: bool)
    ensures
        r == gzip_name(name@),
{
    ends_with(name, ".gz")
}

/// One of `excludes` stands in `name`, upper and lower case taken as one.
pub open spec fn excluded(name: Seq<char>, excludes: Seq<String>) -> bool {
    exists|i: int| 0 <= i < excludes.len() && has_piece(lower(name), lower(#[trigger] excludes[i]@))
}

fn is_excluded(name: &str, excludes: &Vec<String>) -> (r: bool)
    ensures
        r == excluded(name@, excludes@),
{
    let lowered = to_lower(name);
    for i in 0..excludes.len()
        invariant
            lowered@ == lower(name@),
            forall|k: int|
                0 <= k < i ==> !has_piece(lower(name@), lower(#[trigger] excludes@[k]@)),
    {
        if contains(lowered.as_str(), to_lower(excludes[i].as_str()).as_str()) {
            return true;
        }
    }
    false
}

// ---------------------------------------------------------------------------
// Discovery
// ---------------------------------------------------------------------------

/// How a path from the command line is looked into.
#[derive(Clone, Copy, Debug, PartialEq, Eq, Structural)]
pub enum Survey {
    /// It is a file.
    TakeFile,
    /// It is a directory, to be read with all that lies under it.
    ReadTree,
    /// It is a directory, to be read by itself.
    ReadListing,
    /// It is neither, and may be a pattern.
    TryPattern,
}

/// How a path is to be looked into.
pub fn survey(is_file: bool, is_dir: bool, recursive: bool) -> (r: Survey)
    ensures
        is_file ==> r == Survey::TakeFile,
        !is_file && is_dir && recursive ==> r == Survey::ReadTree,
        !is_file && is_dir && !recursive ==> r == Survey::ReadListing,
        !is_file && !is_dir ==> r == Survey::TryPattern,
{
    if is_file {
        Survey::TakeFile
    } else if is_dir {
        if recursive {
            Survey::ReadTree
        } else {
            Survey::ReadListing
        }
    } else {
        Survey::TryPattern
    }
}

/// A path that came up, and whether it is a file.
pub struct Found {
    pub path: LogPath,
    pub is_file: bool,
}

/// What was found for a path from the command line.
pub enum Probe {
    File { path: LogPath },
    Tree { nodes: Vec<Node> },
    Listing { entries: Vec<Found> },
    Matches { entries: Vec<Found> },
    Nothing,
}

/// The files among `entries`; of a directory's own entries only log files.
pub open spec fn found_files(entries: Seq<Found>, logs_only: bool) -> Seq<PathView>
    decreases entries.len(),
{
    if entries.len() == 0 {
        Seq::empty()
    } else {
        let rest = found_files(entries.drop_last(), logs_only);
        let last = entries.last();
        if last.is_file && (logs_only ==> log_name(last.path@.name)) {
            rest.push(last.path@)
        } else {
            rest
        }
    }
}

/// The files that a probe brings.
pub open spec fn probe_files(p: Probe) -> Seq<PathView> {
    match p {
        Probe::File { path } => seq![path@],
        Probe::Tree { nodes } => tree_files(nodes@),
        Probe::Listing { entries } => found_files(entries@, true),
        Probe::Matches { entries } => found_files(entries@, false),
        Probe::Nothing => Seq::empty(),
    }
}

/// The files that all probes bring.
pub open spec fn probed_files(probes: Seq<Probe>) -> Seq<PathView>
    decreases probes.len(),
{
    if probes.len() == 0 {
        Seq::empty()
    } else {
        probed_files(probes.drop_last()) + probe_files(probes.last())
    }
}

/// The paths that no exclusion names.
pub open spec fn kept(paths: Seq<PathView>, excludes: Seq<String>) -> Seq<PathView>
    decreases paths.len(),
{
    if paths.len() == 0 {
        Seq::empty()
    } else {
        let rest = kept(paths.drop_last(), excludes);
        if excluded(paths.last().name, excludes) {
            rest
        } else {
            rest.push(paths.last())
        }
    }
}

/// A list in the given order.
pub open spec fn reordered(paths: Seq<PathView>, order: Seq<usize>) -> Seq<PathView> {
    order.map_values(|i: usize| paths[i as int])
}

/// The files to search: those that were found and not excluded, by path.
pub open spec fn discovered(probes: Seq<Probe>, excludes: Seq<String>) -> Seq<PathView> {
    let files = kept(probed_files(probes), excludes);
    reordered(files, path_ranking(files))
}

fn add_found(entries: &Vec<Found>, logs_only: bool, files: &mut Vec<LogPath>)
    ensures
        path_views(final(files)@) == path_views(old(files)@) + found_files(entries@, logs_only),
{
    let ghost before = path_views(files@);
    assert(before + found_files(entries@.take(0), logs_only) =~= before);
    for i in 0..entries.len()
        invariant
            path_views(files@) == before + found_files(entries@.take(i as int), logs_only),
    {
        let ghost so_far = path_views(files@);
        assert(entries@.take(i + 1).drop_last() =~= entries@.take(i as int));
        let e = &entries[i];
        if e.is_file && (!logs_only || is_log_file(e.path.name.as_str())) {
            files.push(e.path.copy());
            assert(path_views(files@) =~= so_far.push(e.path@));
        }
        assert(path_views(files@) =~= before + found_files(entries@.take(i + 1), logs_only));
    }
    assert(entries@.take(entries@.len() as int) =~= entries@);
}

fn add_probe(probe: &Probe, files: &mut Vec<LogPath>)
    ensures
        path_views(final(files)@) == path_views(old(files)@) + probe_files(*probe),
{
    let ghost before = path_views(files@);
    match probe {
        Probe::File { path } => {
            files.push(path.copy());
            assert(path_views(files@) =~= before + seq![path@]);
        },
        Probe::Tree { nodes } => collect_files_recursive(nodes, files),
        Probe::Listing { entries } => add_found(entries, true, files),
        Probe::Matches { entries } => add_found(entries, false, files),
        Probe::Nothing => {
            assert(path_views(files@) =~= before + Seq::<PathView>::empty());
        },
    }
}

fn keep(files: &Vec<LogPath>, excludes: &Vec<String>) -> (r: Vec<LogPath>)
    ensures
        path_views(r@) == kept(path_views(files@), excludes@),
{
    let mut r: Vec<LogPath> = Vec::new();
    let ghost all = path_views(files@);
    assert(path_views(r@) =~= kept(all.take(0), excludes@));
    for i in 0..files.len()
        invariant
            all == path_views(files@),
            path_views(r@) == kept(all.take(i as int), excludes@),
    {
        let ghost so_far = path_views(r@);
        assert(all.take(i + 1).drop_last() =~= all.take(i as int));
        assert(all.take(i + 1).last() == files@[i as int]@);
        if !is_excluded(files[i].name.as_str(), excludes) {
            r.push(files[i].copy());
            assert(path_views(r@) =~= so_far.push(files@[i as int]@));
        }
    }
    assert(all.take(all.len() as int) =~= all);
    r
}

/// The files to search, from what was found for the paths of the command line:
/// those that are not excluded, by path.
pub fn discover_files(probes: &Vec<Probe>, excludes: &Vec<String>) -> (r: Vec<LogPath>)
    ensures
        path_views(r@) == discovered(probes@, excludes@),
        probed_files(probes@).len() <= usize::MAX,
        kept(probed_files(probes@), excludes@).len() <= usize::MAX,
{
    let mut found: Vec<LogPath> = Vec::new();
    assert(path_views(found@) =~= probed_files(probes@.take(0)));
    for i in 0..probes.len()
        invariant
            path_views(found@) == probed_files(probes@.take(i as int)),
    {
        assert(probes@.take(i + 1).drop_last() =~= probes@.take(i as int));
        add_probe(&probes[i], &mut found);
    }
    assert(probes@.take(probes@.len() as int) =~= probes@);
    assert(path_views(found@).len() == found.len());
    let files = keep(&found, excludes);
    assert(path_views(files@).len() == files.len());
    let order = path_positions(&files);
    proof {
        ranking_is(path_views(files@), order@);
    }
    let mut r: Vec<LogPath> = Vec::new();
    for k in 0..order.len()
        invariant
            by_path(path_views(files@), order@),
            path_views(files@).len() == files@.len(),
            r@.len() == k,
            forall|p: int|
                0 <= p < k ==> (#[trigger] r@[p])@ == path_views(files@)[order@[p] as int],
    {
        r.push(files[order[k]].copy());
    }
    assert(path_views(r@) =~= reordered(path_views(files@), order@));
    r
}

// ---------------------------------------------------------------------------
// Laws
// ---------------------------------------------------------------------------

/// A path is kept exactly when it was there and no exclusion names it.
pub proof fn kept_members(paths: Seq<PathView>, excludes: Seq<String>, p: PathView)
    ensures
        kept(paths, excludes).contains(p) <==> paths.contains(p) && !excluded(p.name, excludes),
    decreases paths.len(),
{
    if paths.len() > 0 {
        let init = paths.drop_last();
        let rest = kept(init, excludes);
        let all = kept(paths, excludes);
        kept_members(init, excludes, p);
        if paths.contains(p) && !excluded(p.name, excludes) {
            let i = paths.index_of(p);
            if i < init.len() {
                assert(init[i] == p);
                let k = rest.index_of(p);
                assert(all[k] == p);
            } else {
                assert(all.last() == p);
            }
        }
        if all.contains(p) {
            let k = all.index_of(p);
            if k < rest.len() {
                assert(rest[k] == p);
                let i = init.index_of(p);
                assert(paths[i] == p);
            } else {
                assert(paths.last() == p);
            }
        }
    }
}

/// The files to search are those that were found and are not excluded, and
/// they are in order: no later path comes before an earlier one.
pub proof fn discovered_is_sorted(probes: Seq<Probe>, excludes: Seq<String>)
    requires
        kept(probed_files(probes), excludes).len() <= usize::MAX,
    ensures
        discovered(probes, excludes).len() == kept(probed_files(probes), excludes).len(),
        forall|p: PathView| #[trigger]
            discovered(probes, excludes).contains(p) <==> probed_files(probes).contains(p)
                && !excluded(p.name, excludes),
        forall|i: int, j: int|
            0 <= i < j < discovered(probes, excludes).len() ==> !parts_before(
                (#[trigger] discovered(probes, excludes)[j]).parts,
                (#[trigger] discovered(probes, excludes)[i]).parts,
            ),
{
    let files = kept(probed_files(probes), excludes);
    let order = by_path_exists(files);
    ranking_is(files, order);
    reordered_is_sorted(files, order);
    assert forall|p: PathView| #[trigger]
        discovered(probes, excludes).contains(p) <==> probed_files(probes).contains(p) && !excluded(
            p.name,
            excludes,
        ) by {
        kept_members(probed_files(probes), excludes, p);
    }
}

/// A list in an arrangement by path holds what the list holds, and no later
/// path comes before an earlier one.
pub proof fn reordered_is_sorted(paths: Seq<PathView>, order: Seq<usize>)
    requires
        paths.len() <= usize::MAX,
        by_path(paths, order),
    ensures
        reordered(paths, order).len() == paths.len(),
        forall|p: PathView| reordered(paths, order).contains(p) <==> paths.contains(p),
        forall|i: int, j: int|
            0 <= i < j < paths.len() ==> !parts_before(
                (#[trigger] reordered(paths, order)[j]).parts,
                (#[trigger] reordered(paths, order)[i]).parts,
            ),
{
    let r = reordered(paths, order);
    assert forall|p: PathView| r.contains(p) <==> paths.contains(p) by {
        if r.contains(p) {
            let k = r.index_of(p);
            assert(paths[order[k] as int] == p);
        }
        if paths.contains(p) {
            let i = paths.index_of(p);
            arranged_holds_all(paths.len(), path_first(paths), order, i as usize);
            let k = order.index_of(i as usize);
            assert(r[k] == p);
        }
    }
    assert forall|i: int, j: int| 0 <= i < j < paths.len() implies !parts_before(
        (#[trigger] r[j]).parts,
        (#[trigger] r[i]).parts,
    ) by {
        let x = order[i] as int;
        let y = order[j] as int;
        assert(path_first(paths)(x, y));
        path_order_laws(paths[x].parts, paths[y].parts, paths[x].parts);
        path_order_laws(paths[x].parts, paths[x].parts, paths[x].parts);
    }
}

/// An exclusion only ever takes files away: with one more exclusion no file is
/// kept that was not kept without it.
pub proof fn exclusion_only_removes(
    paths: Seq<PathView>,
    excludes: Seq<String>,
    more: String,
    p: PathView,
)
    requires
        kept(paths, excludes.push(more)).contains(p),
    ensures
        kept(paths, excludes).contains(p),
{
    kept_members(paths, excludes.push(more), p);
    kept_members(paths, excludes, p);
    if excluded(p.name, excludes) {
        let i = choose|i: int|
            0 <= i < excludes.len() && has_piece(lower(p.name), lower(#[trigger] excludes[i]@));
        assert(excludes.push(more)[i] == excludes[i]);
    }
}

/// The file at `p` is the entry itself, or lies under it, however deep.
pub open spec fn holds_file(n: Node, p: PathView) -> bool
    decreases n,
{
    match n {
        Node::Directory { path, entries } => exists|i: int|
            0 <= i < entries@.len() && holds_file(#[trigger] entries@[i], p),
        Node::File { path } => path@ == p,
        Node::Other { .. } => false,
    }
}

/// Reading a directory with all that lies under it finds every file there,
/// however deep it lies, and nothing else.
pub proof fn tree_files_are_those_under_it(entries: Seq<Node>, p: PathView)
    requires
        entries.len() <= usize::MAX,
    ensures
        tree_files(entries).contains(p) <==> exists|i: int|
            0 <= i < entries.len() && holds_file(#[trigger] entries[i], p),
    decreases entries,
{
    let order = by_path_exists(node_paths(entries));
    ranking_is(node_paths(entries), order);
    assert forall|i: int| 0 <= i < entries.len() implies (node_files(entries[i]).contains(p)
        <==> holds_file(#[trigger] entries[i], p)) by {
        files_of_node(entries[i], p);
    }
    if exists|i: int| 0 <= i < entries.len() && holds_file(#[trigger] entries[i], p) {
        let i = choose|i: int| 0 <= i < entries.len() && holds_file(#[trigger] entries[i], p);
        arranged_holds_all(
            entries.len(),
            path_first(node_paths(entries)),
            order,
            i as usize,
        );
        let k = order.index_of(i as usize);
        listed_holds(entries, order, entries.len(), k, p);
    }
    if tree_files(entries).contains(p) {
        let k = listed_comes_from(entries, order, entries.len(), p);
        assert(holds_file(entries[order[k] as int], p));
    }
}

proof fn files_of_node(n: Node, p: PathView)
    ensures
        node_files(n).contains(p) <==> holds_file(n, p),
    decreases n,
{
    match n {
        Node::Directory { path, entries } => {
            assert(entries@.len() == entries.len());
            tree_files_are_those_under_it(entries@, p);
        },
        Node::File { path } => {
            if path@ == p {
                assert(node_files(n)[0] == p);
            }
        },
        Node::Other { .. } => {},
    }
}

proof fn listed_comes_from(
    entries: Seq<Node>,
    order: Seq<usize>,
    n: nat,
    p: PathView,
) -> (k: int)
    requires
        n <= order.len(),
        forall|q: int| 0 <= q < order.len() ==> (#[trigger] order[q]) < entries.len(),
        listed_files(entries, order, n).contains(p),
    ensures
        0 <= k < n,
        node_files(entries[order[k] as int]).contains(p),
    decreases n,
{
    let all = listed_files(entries, order, n);
    let rest = listed_files(entries, order, (n - 1) as nat);
    let last = node_files(entries[order[n - 1] as int]);
    assert(all == rest + last);
    let w = all.index_of(p);
    if w < rest.len() {
        assert(rest[w] == p);
        listed_comes_from(entries, order, (n - 1) as nat, p)
    } else {
        assert(last[w - rest.len()] == p);
        n - 1
    }
}

proof fn listed_holds(entries: Seq<Node>, order: Seq<usize>, n: nat, k: int, p: PathView)
    requires
        n <= order.len(),
        forall|q: int| 0 <= q < order.len() ==> (#[trigger] order[q]) < entries.len(),
        0 <= k < n,
        node_files(entries[order[k] as int]).contains(p),
    ensures
        listed_files(entries, order, n).contains(p),
    decreases n,
{
    let rest = listed_files(entries, order, (n - 1) as nat);
    let last = node_files(entries[order[n - 1] as int]);
    let all = listed_files(entries, order, n);
    assert(all == rest + last);
    if k == n - 1 {
        let w = last.index_of(p);
        assert(all[rest.len() + w] == p);
    } else {
        listed_holds(entries, order, (n - 1) as nat, k, p);
        let w = rest.index_of(p);
        assert(all[w] == p);
    }
}

} // verus!
