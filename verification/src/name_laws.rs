//! What holds of the names of files, and of what is found under a path.

use crate::discover::{
    collect_files_recursive, discover_files, discovered, discovered_is_sorted, excluded, found_files,
    gzip_name, holds_file, is_gzip_file, is_log_file, kept, listed_files, log_name, node_files,
    node_paths, probe_files, probed_files, ranking_is, survey, tree_files,
    tree_files_are_those_under_it, Found, Node, Probe, Survey,
};
use crate::paths::{
    by_path, parts_before, path_first, path_order_laws, path_views, LogPath, PathView,
};
use crate::text::{has_piece, has_tail, lower};
use crate::text_laws::{around, pieces_are_within, tails_are_ends};
use vstd::prelude::*;

verus! {

// ---------------------------------------------------------------------------
// Names
// ---------------------------------------------------------------------------

/// The endings of the names of log files.
pub open spec fn log_endings() -> Set<Seq<char>> {
    set![".log"@, ".json"@, ".ndjson"@, ".jsonl"@, ".gz"@, ".txt"@, ".out"@, ".err"@]
}

/// In lower case, the name is one of the endings with something before it, or alone.
pub open spec fn named_as_a_log(name: Seq<char>) -> bool {
    exists|front: Seq<char>, ending: Seq<char>|
        log_endings().contains(ending) && lower(name) == #[trigger] (front + ending)
}

proof fn ends_like_a_log(name: Seq<char>, ending: Seq<char>)
    requires
        log_endings().contains(ending),
        has_tail(lower(name), ending),
    ensures
        named_as_a_log(name),
{
    let n = lower(name);
    tails_are_ends(n, ending);
    let front = choose|front: Seq<char>| n == #[trigger] (front + ending);
    assert(log_endings().contains(ending) && n == front + ending);
}

proof fn packed_logs_end_in_gz(n: Seq<char>)
    requires
        has_tail(n, ".log.gz"@),
    ensures
        has_tail(n, ".gz"@),
{
    reveal_strlit(".log.gz");
    reveal_strlit(".gz");
    let k = n.len() - 3;
    assert(n.subrange(k - 4, k + 3).subrange(4, 7) =~= n.subrange(k, k + 3));
    assert(".log.gz"@.subrange(4, 7) =~= ".gz"@);
}

/// A name is that of a log file exactly when, in lower case, it is one of the
/// endings with anything whatever in front.
pub proof fn log_names_end_like_logs(name: Seq<char>)
    ensures
        log_name(name) <==> named_as_a_log(name),
{
    let n = lower(name);
    if named_as_a_log(name) {
        let (front, ending) = choose|front: Seq<char>, ending: Seq<char>|
            log_endings().contains(ending) && n == #[trigger] (front + ending);
        assert(has_tail(n, ending)) by {
            tails_are_ends(n, ending);
        }
    }
    if has_tail(n, ".log"@) {
        ends_like_a_log(name, ".log"@);
    } else if has_tail(n, ".json"@) {
        ends_like_a_log(name, ".json"@);
    } else if has_tail(n, ".ndjson"@) {
        ends_like_a_log(name, ".ndjson"@);
    } else if has_tail(n, ".jsonl"@) {
        ends_like_a_log(name, ".jsonl"@);
    } else if has_tail(n, ".log.gz"@) {
        packed_logs_end_in_gz(n);
        ends_like_a_log(name, ".gz"@);
    } else if has_tail(n, ".gz"@) {
        ends_like_a_log(name, ".gz"@);
    } else if has_tail(n, ".txt"@) {
        ends_like_a_log(name, ".txt"@);
    } else if has_tail(n, ".out"@) {
        ends_like_a_log(name, ".out"@);
    } else if has_tail(n, ".err"@) {
        ends_like_a_log(name, ".err"@);
    }
}

/// What is said of a name: whatever stands in front of it, an ending of log files
/// makes a name one of a log file, and nothing else does.
pub proof fn log_files_are_told_by_their_ending(
    name: &str,
    r: bool,
    front: Seq<char>,
    ending: Seq<char>,
)
    requires
        call_ensures(is_log_file, (name,), r),
    ensures
        log_endings().contains(ending) && lower(name@) == front + ending ==> r,
        r ==> named_as_a_log(name@),
{
    log_names_end_like_logs(name@);
    if log_endings().contains(ending) && lower(name@) == front + ending {
        assert(named_as_a_log(name@));
    }
}

/// A file is read through gzip exactly when its name ends in `.gz`, in lower case.
pub proof fn gzip_files_are_told_by_their_ending(name: &str, r: bool)
    requires
        call_ensures(is_gzip_file, (name,), r),
    ensures
        r <==> exists|front: Seq<char>| name@ == #[trigger] (front + ".gz"@),
        gzip_name(name@) <==> r,
{
    tails_are_ends(name@, ".gz"@);
}

/// A name is excluded exactly when one of the exclusions stands in it, upper and
/// lower case taken as one; without exclusions none is.
pub proof fn exclusions_are_pieces_of_names(name: Seq<char>, excludes: Seq<String>, i: int)
    ensures
        excluded(name, excludes) ==> exists|k: int, front: Seq<char>, back: Seq<char>|
            0 <= k < excludes.len() && lower(name) == #[trigger] around(
                front,
                lower((#[trigger] excludes[k])@),
                back,
            ),
        0 <= i < excludes.len() && (exists|front: Seq<char>, back: Seq<char>|
            lower(name) == #[trigger] around(front, lower(excludes[i]@), back)) ==> excluded(
            name,
            excludes,
        ),
        excludes.len() == 0 ==> !excluded(name, excludes),
{
    if excluded(name, excludes) {
        let k = choose|k: int|
            0 <= k < excludes.len() && has_piece(lower(name), lower(#[trigger] excludes[k]@));
        pieces_are_within(lower(name), lower(excludes[k]@));
        let (front, back) = choose|front: Seq<char>, back: Seq<char>|
            lower(name) == #[trigger] around(front, lower(excludes[k]@), back);
        assert(lower(name) == around(front, lower(excludes[k]@), back));
    }
    if 0 <= i < excludes.len() {
        pieces_are_within(lower(name), lower(excludes[i]@));
    }
}

// ---------------------------------------------------------------------------
// What is found
// ---------------------------------------------------------------------------

/// Of a directory that is read by itself, its files with the names of log files are
/// taken, in their order, and nothing else; of what a pattern matches, its files.
pub proof fn listings_bring_their_logs(entries: Seq<Found>)
    ensures
        found_files(entries, true) == entries.filter(
            |f: Found| f.is_file && named_as_a_log(f.path@.name),
        ).map_values(|f: Found| f.path@),
        found_files(entries, false) == entries.filter(|f: Found| f.is_file).map_values(
            |f: Found| f.path@,
        ),
    decreases entries.len(),
{
    reveal(Seq::filter);
    let log = |f: Found| f.is_file && named_as_a_log(f.path@.name);
    let file = |f: Found| f.is_file;
    let path = |f: Found| f.path@;
    if entries.len() > 0 {
        listings_bring_their_logs(entries.drop_last());
        log_names_end_like_logs(entries.last().path@.name);
    }
    assert(found_files(entries, true) =~= entries.filter(log).map_values(path));
    assert(found_files(entries, false) =~= entries.filter(file).map_values(path));
}

/// A listing brings a file exactly when the file stands in it and has the name of a
/// log file, whatever stands in front of the ending.
pub proof fn listed_files_are_logs(entries: Seq<Found>, p: PathView)
    ensures
        found_files(entries, true).contains(p) <==> named_as_a_log(p.name) && exists|i: int|
            0 <= i < entries.len() && (#[trigger] entries[i]).is_file && entries[i].path@ == p,
        found_files(entries, false).contains(p) <==> exists|i: int|
            0 <= i < entries.len() && (#[trigger] entries[i]).is_file && entries[i].path@ == p,
    decreases entries.len(),
{
    if entries.len() > 0 {
        let init = entries.drop_last();
        let last = entries.last();
        listed_files_are_logs(init, p);
        log_names_end_like_logs(last.path@.name);
        pushed_contains(found_files(init, true), last.path@, p);
        pushed_contains(found_files(init, false), last.path@, p);
        if exists|i: int|
            0 <= i < init.len() && (#[trigger] init[i]).is_file && init[i].path@ == p {
            let i = choose|i: int|
                0 <= i < init.len() && (#[trigger] init[i]).is_file && init[i].path@ == p;
            assert(entries[i].is_file && entries[i].path@ == p);
        }
        if exists|i: int|
            0 <= i < entries.len() && (#[trigger] entries[i]).is_file && entries[i].path@ == p {
            let i = choose|i: int|
                0 <= i < entries.len() && (#[trigger] entries[i]).is_file && entries[i].path@ == p;
            if i < init.len() {
                assert(init[i] == entries[i]);
            }
        }
        if last.is_file && last.path@ == p {
            assert(entries[entries.len() - 1].is_file);
        }
    }
}

proof fn pushed_contains(s: Seq<PathView>, x: PathView, p: PathView)
    ensures
        s.push(x).contains(p) <==> s.contains(p) || x == p,
{
    if s.contains(p) {
        let i = s.index_of(p);
        assert(s.push(x)[i] == p);
    }
    assert(s.push(x)[s.len() as int] == x);
}

/// Excluding files filters them: the others stay, in their order.
pub proof fn excluding_is_filtering(paths: Seq<PathView>, excludes: Seq<String>)
    ensures
        kept(paths, excludes) == paths.filter(|p: PathView| !excluded(p.name, excludes)),
    decreases paths.len(),
{
    reveal(Seq::filter);
    if paths.len() > 0 {
        excluding_is_filtering(paths.drop_last(), excludes);
    }
    assert(kept(paths, excludes) =~= paths.filter(|p: PathView| !excluded(p.name, excludes)));
}

/// Each path is looked into in one way: a file is taken whatever else is said of it,
/// a directory is read, with all that lies under it only where that is asked for,
/// and what is neither is tried as a pattern.
pub proof fn paths_are_looked_into(is_file: bool, is_dir: bool, recursive: bool, r: Survey)
    requires
        call_ensures(survey, (is_file, is_dir, recursive), r),
    ensures
        r == Survey::TakeFile <==> is_file,
        r == Survey::ReadTree <==> !is_file && is_dir && recursive,
        r == Survey::ReadListing <==> !is_file && is_dir && !recursive,
        r == Survey::TryPattern <==> !is_file && !is_dir,
{
}

/// A file brings itself, whatever it is called; a path under which nothing is found
/// brings nothing; a directory brings its log files, a tree every file under it, and
/// a pattern every file that it matches.
pub proof fn probes_bring_files(probe: Probe, p: PathView)
    ensures
        probe matches Probe::File { path } ==> probe_files(probe) == seq![path@],
        probe is Nothing ==> probe_files(probe).len() == 0,
        probe matches Probe::Listing { entries } ==> (probe_files(probe).contains(p)
            <==> named_as_a_log(p.name) && exists|i: int|
            0 <= i < entries@.len() && (#[trigger] entries@[i]).is_file && entries@[i].path@ == p),
        probe matches Probe::Matches { entries } ==> (probe_files(probe).contains(p)
            <==> exists|i: int|
            0 <= i < entries@.len() && (#[trigger] entries@[i]).is_file && entries@[i].path@ == p),
        probe matches Probe::Tree { nodes } ==> (probe_files(probe).contains(p) <==> exists|i: int|
            0 <= i < nodes@.len() && holds_file(#[trigger] nodes@[i], p)),
{
    match probe {
        Probe::Listing { entries } => listed_files_are_logs(entries@, p),
        Probe::Matches { entries } => listed_files_are_logs(entries@, p),
        Probe::Tree { nodes } => {
            assert(nodes@.len() == nodes.len());
            tree_files_are_those_under_it(nodes@, p);
        },
        _ => {},
    }
}

/// The files under an entry: a file is itself, a directory all that lies under it, and
/// anything else nothing; a directory with one entry has what lies under that.
pub proof fn entries_hold_files(n: Node)
    ensures
        n matches Node::File { path } ==> node_files(n) == seq![path@],
        n matches Node::Directory { path, entries } ==> node_files(n) == tree_files(entries@),
        n is Other ==> node_files(n).len() == 0,
        tree_files(seq![n]) == node_files(n),
        tree_files(Seq::empty()).len() == 0,
{
    let one = seq![n];
    let order = seq![0usize];
    assert(by_path(node_paths(one), order));
    ranking_is(node_paths(one), order);
    assert(listed_files(one, order, 0) =~= Seq::<PathView>::empty());
    assert(listed_files(one, order, 1) =~= listed_files(one, order, 0) + node_files(one[0]));
    assert(tree_files(one) =~= node_files(n));
}

proof fn listing_in_turn(entries: Seq<Node>, order: Seq<usize>, sorted: Seq<Node>, k: nat)
    requires
        k <= order.len(),
        order.len() == entries.len(),
        entries.len() <= usize::MAX,
        forall|p: int| 0 <= p < order.len() ==> (#[trigger] order[p]) < entries.len(),
        sorted.len() == entries.len(),
        forall|p: int|
            0 <= p < order.len() ==> #[trigger] sorted[p] == entries[order[p] as int],
    ensures
        listed_files(sorted, Seq::new(entries.len(), |i: int| i as usize), k) == listed_files(
            entries,
            order,
            k,
        ),
    decreases k,
{
    if k > 0 {
        listing_in_turn(entries, order, sorted, (k - 1) as nat);
        assert(sorted[k - 1] == entries[order[k - 1] as int]);
    }
}

/// The order in which the entries of a directory are listed does not matter: they are
/// gone through by path.
pub proof fn entries_are_gone_through_by_path(
    entries: Seq<Node>,
    order: Seq<usize>,
    sorted: Seq<Node>,
)
    requires
        entries.len() <= usize::MAX,
        by_path(node_paths(entries), order),
        sorted == order.map_values(|i: usize| entries[i as int]),
    ensures
        tree_files(sorted) == tree_files(entries),
        forall|p: int, q: int|
            0 <= p < q < sorted.len() ==> !parts_before(
                (#[trigger] sorted[q]).path().parts,
                (#[trigger] sorted[p]).path().parts,
            ),
{
    let n = entries.len();
    let paths = node_paths(entries);
    let id = Seq::new(n, |i: int| i as usize);
    ranking_is(paths, order);
    listing_in_turn(entries, order, sorted, n);
    let first = path_first(node_paths(sorted));
    assert forall|p: int, q: int| 0 <= p < q < n implies first(
        (#[trigger] id[p]) as int,
        (#[trigger] id[q]) as int,
    ) && !parts_before(sorted[q].path().parts, sorted[p].path().parts) by {
        let a = order[p] as int;
        let b = order[q] as int;
        assert(path_first(paths)(a, b));
        assert(node_paths(sorted)[p] == paths[a]);
        assert(node_paths(sorted)[q] == paths[b]);
        path_order_laws(paths[a].parts, paths[b].parts, paths[a].parts);
        path_order_laws(paths[a].parts, paths[a].parts, paths[a].parts);
    }
    assert(by_path(node_paths(sorted), id));
    ranking_is(node_paths(sorted), id);
    assert forall|p: int, q: int| 0 <= p < q < sorted.len() implies !parts_before(
        (#[trigger] sorted[q]).path().parts,
        (#[trigger] sorted[p]).path().parts,
    ) by {
        assert(id[p] == p && id[q] == q);
        assert(first(id[p] as int, id[q] as int));
    }
}

/// Entries in order by path are gone through in turn: one more at the end adds the
/// files under it behind all others.
pub proof fn later_entries_come_behind(entries: Seq<Node>, last: Node)
    requires
        entries.len() < usize::MAX,
        forall|p: int, q: int|
            0 <= p < q < entries.push(last).len() ==> !parts_before(
                (#[trigger] entries.push(last)[q]).path().parts,
                (#[trigger] entries.push(last)[p]).path().parts,
            ),
    ensures
        tree_files(entries.push(last)) == tree_files(entries) + node_files(last),
{
    let all = entries.push(last);
    let n = entries.len();
    let id = Seq::new(n, |i: int| i as usize);
    let more = Seq::new(n + 1, |i: int| i as usize);
    assert forall|p: int, q: int| 0 <= p < q < all.len() implies parts_before(
        (#[trigger] all[p]).path().parts,
        (#[trigger] all[q]).path().parts,
    ) || all[p].path().parts == all[q].path().parts by {
        path_order_laws(all[p].path().parts, all[q].path().parts, all[p].path().parts);
    }
    let first = path_first(node_paths(all));
    assert forall|p: int, q: int| 0 <= p < q < more.len() implies first(
        (#[trigger] more[p]) as int,
        (#[trigger] more[q]) as int,
    ) by {
        assert(node_paths(all)[p] == all[p].path());
        assert(node_paths(all)[q] == all[q].path());
    }
    assert(by_path(node_paths(all), more));
    ranking_is(node_paths(all), more);
    let before = path_first(node_paths(entries));
    assert forall|p: int, q: int| 0 <= p < q < id.len() implies before(
        (#[trigger] id[p]) as int,
        (#[trigger] id[q]) as int,
    ) by {
        assert(node_paths(entries)[p] == all[p].path());
        assert(node_paths(entries)[q] == all[q].path());
        assert(first(more[p] as int, more[q] as int));
    }
    assert(by_path(node_paths(entries), id));
    ranking_is(node_paths(entries), id);
    listing_beginning(entries, last, id, more, n);
    assert(more[n as int] == n);
    assert(all[n as int] == last);
}

proof fn listing_beginning(
    entries: Seq<Node>,
    last: Node,
    id: Seq<usize>,
    more: Seq<usize>,
    k: nat,
)
    requires
        k <= entries.len() < usize::MAX,
        id == Seq::new(entries.len(), |i: int| i as usize),
        more == Seq::new(entries.len() + 1, |i: int| i as usize),
    ensures
        listed_files(entries.push(last), more, k) == listed_files(entries, id, k),
    decreases k,
{
    if k > 0 {
        listing_beginning(entries, last, id, more, (k - 1) as nat);
        assert(entries.push(last)[k - 1] == entries[k - 1]);
    }
}

/// Reading a directory with all that lies under it adds the files there to those that
/// were found before.
pub proof fn files_of_trees_are_added(
    entries: &Vec<Node>,
    files: &mut Vec<LogPath>,
)
    requires
        call_ensures(collect_files_recursive, (entries, files), ()),
    ensures
        path_views(final(files)@) == path_views(old(files)@) + tree_files(entries@),
{
}

/// What one probe brings is brought by all of them together, and nothing else is.
pub proof fn all_probes_bring_what_each_brings(probes: Seq<Probe>, p: PathView)
    ensures
        probed_files(probes).contains(p) <==> exists|i: int|
            0 <= i < probes.len() && probe_files(#[trigger] probes[i]).contains(p),
    decreases probes.len(),
{
    if probes.len() > 0 {
        let init = probes.drop_last();
        let a = probed_files(init);
        let b = probe_files(probes.last());
        all_probes_bring_what_each_brings(init, p);
        if a.contains(p) {
            let k = a.index_of(p);
            assert((a + b)[k] == p);
            let i = choose|i: int|
                0 <= i < init.len() && probe_files(#[trigger] init[i]).contains(p);
            assert(probe_files(probes[i]).contains(p));
        }
        if b.contains(p) {
            let k = b.index_of(p);
            assert((a + b)[a.len() + k] == p);
            assert(probe_files(probes[probes.len() - 1]).contains(p));
        }
        if exists|i: int| 0 <= i < probes.len() && probe_files(#[trigger] probes[i]).contains(p) {
            let i = choose|i: int|
                0 <= i < probes.len() && probe_files(#[trigger] probes[i]).contains(p);
            if i < init.len() {
                assert(probe_files(init[i]).contains(p));
            }
        }
    }
}

/// The files that are searched are exactly those that some probe brings and no
/// exclusion names, and no later one comes before an earlier one by path.
pub proof fn files_to_search_are_found_and_not_excluded(
    probes: &Vec<Probe>,
    excludes: &Vec<String>,
    r: Vec<LogPath>,
    p: PathView,
    i: int,
    j: int,
)
    requires
        call_ensures(discover_files, (probes, excludes), r),
    ensures
        path_views(r@).contains(p) <==> !excluded(p.name, excludes@) && exists|k: int|
            0 <= k < probes@.len() && probe_files(#[trigger] probes@[k]).contains(p),
        0 <= i < j < r@.len() ==> !parts_before(r@[j]@.parts, r@[i]@.parts),
        r@.len() == kept(probed_files(probes@), excludes@).len(),
{
    discovered_is_sorted(probes@, excludes@);
    all_probes_bring_what_each_brings(probes@, p);
    let d = discovered(probes@, excludes@);
    assert(path_views(r@) == d);
    assert(path_views(r@).len() == r@.len());
    if 0 <= i < j < r@.len() {
        assert(d[i] == r@[i]@);
        assert(d[j] == r@[j]@);
    }
}

} // verus!
