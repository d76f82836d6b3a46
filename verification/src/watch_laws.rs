//! What holds of files that are followed.

use crate::json::parsed_line;
use crate::paint::{bare_text, line_views, plain, styled, Span, Style};
use crate::paint_laws::{text_of_five, text_of_four, texts_of_lines_join};
use crate::paths::{LogPath, PathView};
use crate::query::{answerable, answered, entry_moment, evaluated, settled, Query};
use crate::search_laws::smaller;
use crate::text::{lower, trimmed_end};
use crate::text_laws::{around, pieces_are_within};
use crate::watch::{
    everything_is_read_once, highlight_term, highlighted, highlighted_from,
    highlighting_keeps_the_text, query_view, read_after, term_at, times_read, watch_context,
    watch_judgement, watch_match, watch_output, watch_start, watched_lines_are_settled, WatchList,
};
use vstd::prelude::*;

verus! {

// ---------------------------------------------------------------------------
// How far files are read
// ---------------------------------------------------------------------------

/// A file that is first followed counts as read up to exactly its length, where that
/// is known, and as not read at all otherwise; none of its lines are kept yet. It
/// takes the place of the same path, or a new one at the end, and no other file is
/// touched.
pub proof fn files_are_followed_from_their_end(
    list: &mut WatchList,
    path: &LogPath,
    len: Option<u64>,
    r: usize,
)
    requires
        old(list).well_formed(),
        call_ensures(WatchList::add, (list, path, len), r),
    ensures
        r < final(list)@.len(),
        final(list)@[r as int].path == path@,
        final(list)@[r as int].recent.len() == 0,
        len matches Some(n) ==> final(list)@[r as int].position == n,
        len is None ==> final(list)@[r as int].position == 0,
        forall|i: int|
            0 <= i < old(list)@.len() && i != r ==> #[trigger] final(list)@[i] == old(list)@[i],
        final(list)@.len() == if r < old(list)@.len() {
            old(list)@.len()
        } else {
            old(list)@.len() + 1
        },
        r < old(list)@.len() <==> exists|i: int|
            0 <= i < old(list)@.len() && (#[trigger] old(list)@[i]).path.parts == path@.parts,
        r < old(list)@.len() ==> old(list)@[r as int].path.parts == path@.parts,
        final(list).shown_before() == old(list).shown_before(),
{
}

/// A list of followed files begins empty.
pub proof fn lists_begin_empty(before: usize, r: WatchList)
    requires
        call_ensures(WatchList::new, (before,), r),
    ensures
        r@.len() == 0,
        r.shown_before() == before,
{
}

/// A file that is looked at is read exactly when it has become longer than it was
/// read, and from there on; it then counts as read up to its end. One that has not
/// grown is left alone, and so is every other file.
pub proof fn only_what_is_new_is_read(list: &mut WatchList, slot: usize, len: u64, r: Option<u64>)
    requires
        slot < old(list)@.len(),
        call_ensures(WatchList::poll, (list, slot, len), r),
    ensures
        ({
            let was = old(list)@[slot as int];
            let is = final(list)@[slot as int];
            &&& len > was.position ==> r == Some(was.position) && is.position == len
            &&& len <= was.position ==> r is None && is.position == was.position
            &&& is.path == was.path
            &&& is.recent == was.recent
        }),
        final(list)@.len() == old(list)@.len(),
        forall|i: int|
            0 <= i < old(list)@.len() && i != slot ==> #[trigger] final(list)@[i] == old(list)@[i],
        final(list).shown_before() == old(list).shown_before(),
{
}

/// A file of known length that is followed and then looked at is read from that
/// length on where it is longer by then, and not at all otherwise.
pub proof fn followed_files_are_read_from_their_first_length(
    list: &mut WatchList,
    path: &LogPath,
    n: u64,
    slot: usize,
    later: &mut WatchList,
    m: u64,
    r: Option<u64>,
)
    requires
        old(list).well_formed(),
        call_ensures(WatchList::add, (list, path, Some(n)), slot),
        *old(later) == *final(list),
        call_ensures(WatchList::poll, (later, slot, m), r),
    ensures
        m > n ==> r == Some(n),
        m <= n ==> r is None,
{
}

/// A file whose length is known when it is first followed is never read before that
/// length, whatever lengths are seen later; from there on every byte up to the
/// greatest length seen is read once.
pub proof fn nothing_before_the_first_length_is_read(
    path: PathView,
    n: u64,
    looks: Seq<u64>,
    at: int,
    i: int,
)
    ensures
        watch_start(path, Some(n)).position == n,
        watch_start(path, None).position == 0,
        watch_start(path, Some(n)).path == path,
        at < n ==> times_read(watch_start(path, Some(n)).position, looks, at) == 0,
        n <= at && 0 <= i < looks.len() && at < looks[i] ==> times_read(
            watch_start(path, Some(n)).position,
            looks,
            at,
        ) == 1,
        (forall|k: int| 0 <= k < looks.len() ==> #[trigger] looks[k] <= at) && n <= at
            ==> times_read(watch_start(path, Some(n)).position, looks, at) == 0,
{
    everything_is_read_once(n, looks, at);
    let end = read_after(n, looks);
    if end != n {
        let k = looks.index_of(end);
        assert(looks[k] == end);
    }
}

// ---------------------------------------------------------------------------
// What is shown
// ---------------------------------------------------------------------------

/// A line before a match is shown as `[name] │ line`, and a match as
/// `[name] ▶ line`.
pub proof fn watched_lines_read_so(name: Seq<char>, line: Seq<char>, term: Seq<char>)
    ensures
        bare_text(watch_context(name, line)) == around("["@, name, "] \u{2502} "@) + line,
        bare_text(watch_match(name, line, term)) == around("["@, name, "] \u{25b6} "@) + line,
{
    reveal_strlit("[");
    reveal_strlit("]");
    reveal_strlit(" ");
    reveal_strlit("\u{2502}");
    reveal_strlit("] \u{2502} ");
    reveal_strlit("\u{25b6}");
    reveal_strlit("] \u{25b6} ");
    let c = watch_context(name, line);
    text_of_five(c[0], c[1], c[2], c[3], c[4]);
    assert(c =~= seq![c[0], c[1], c[2], c[3], c[4]]);
    assert(bare_text(c) =~= around("["@, name, "] \u{2502} "@) + line);
    let m = watch_match(name, line, term);
    let head = m.take(4);
    text_of_four(m[0], m[1], m[2], m[3]);
    assert(head =~= seq![m[0], m[1], m[2], m[3]]);
    assert(m =~= head + highlighted(line, term));
    texts_of_lines_join(head, highlighted(line, term));
    highlighting_keeps_the_text(line, term);
    assert(bare_text(m) =~= around("["@, name, "] \u{25b6} "@) + line);
}

/// How lines are coloured: the name of the file cyan, a line before a match dimmed
/// with it, a match behind a green mark.
pub proof fn watched_lines_are_coloured_so(name: Seq<char>, line: Seq<char>, term: Seq<char>)
    ensures
        watch_context(name, line).len() == 5,
        watch_context(name, line)[0].style == Style::CyanDimmed,
        watch_context(name, line)[2].style == Style::Dimmed,
        watch_context(name, line)[4].style == Style::Dimmed,
        watch_match(name, line, term)[0].style == Style::Cyan,
        watch_match(name, line, term)[2].style == Style::Green,
        watch_match(name, line, term).skip(4) == highlighted(line, term),
{
    assert(watch_match(name, line, term).skip(4) =~= highlighted(line, term));
}

proof fn highlighting_goes_on(line: Seq<char>, term: Seq<char>, k: int, start: int, i: int)
    requires
        0 <= k <= line.len(),
        0 <= start <= i <= line.len() - k,
    ensures
        highlighted_from(line, term, start + k, i + k) == highlighted_from(
            line.skip(k),
            term,
            start,
            i,
        ),
    decreases line.len() - k - i,
{
    let rest = line.skip(k);
    assert(line.subrange(start + k, line.len() as int) =~= rest.subrange(start, rest.len() as int));
    if i < rest.len() && term.len() > 0 {
        if i + term.len() <= rest.len() {
            let end = i + term.len();
            assert(line.subrange(i + k, end + k) =~= rest.subrange(i, end));
            assert(line.subrange(start + k, i + k) =~= rest.subrange(start, i));
            highlighting_goes_on(line, term, k, end, end);
        }
        highlighting_goes_on(line, term, k, start, i + 1);
    }
}

proof fn no_hit_before(line: Seq<char>, term: Seq<char>, i: int, hit: int)
    requires
        0 <= i <= hit <= line.len(),
        term.len() > 0,
        forall|k: int| i <= k < hit ==> !term_at(line, term, k),
    ensures
        highlighted_from(line, term, 0, i) == highlighted_from(line, term, 0, hit),
    decreases hit - i,
{
    if i < hit {
        no_hit_before(line, term, i + 1, hit);
    }
}

/// Nothing is highlighted where the term does not stand, and nothing where there is
/// no term: the line is one plain piece.
pub proof fn lines_without_the_term_stay_plain(line: Seq<char>, term: Seq<char>)
    requires
        term.len() == 0 || forall|k: int|
            0 <= k && k + term.len() <= line.len() ==> lower(
                #[trigger] line.subrange(k, k + term.len()),
            ) != lower(term),
    ensures
        highlighted(line, term) == seq![plain(line)],
{
    if term.len() > 0 {
        assert forall|k: int| 0 <= k < line.len() implies !term_at(line, term, k) by {
            if k + term.len() <= line.len() {
                let piece = line.subrange(k, k + term.len());
                assert(lower(piece) != lower(term));
            }
        }
        no_hit_before(line, term, 0, line.len() as int);
    }
    assert(line.subrange(0, line.len() as int) =~= line);
}

/// The first place where the term stands, upper and lower case taken as one, is
/// highlighted as it is written there; what is before it stays plain, and the rest
/// of the line is highlighted by itself.
pub proof fn the_first_hit_is_highlighted(line: Seq<char>, term: Seq<char>, i: int)
    requires
        term.len() > 0,
        0 <= i,
        i + term.len() <= line.len(),
        lower(line.subrange(i, i + term.len())) == lower(term),
        forall|k: int|
            0 <= k < i ==> lower(#[trigger] line.subrange(k, k + term.len())) != lower(term),
    ensures
        highlighted(line, term) == seq![
            plain(line.take(i)),
            styled(Style::Yellow, line.subrange(i, i + term.len())),
        ] + highlighted(line.skip(i + term.len()), term),
{
    assert forall|k: int| 0 <= k < i implies !term_at(line, term, k) by {
        let piece = line.subrange(k, k + term.len());
        assert(lower(piece) != lower(term));
    }
    no_hit_before(line, term, 0, i);
    let end = i + term.len();
    assert(line.subrange(0, i) =~= line.take(i));
    highlighting_goes_on(line, term, end, 0, 0);
}

/// The last lines of a file, one more line taken in: at least a hundred are kept,
/// and as many as are shown before a match.
pub open spec fn kept_with(recent: Seq<Seq<char>>, line: Seq<char>, before: nat) -> Seq<Seq<char>> {
    let all = recent.push(line);
    let most: nat = if before > 100 { before } else { 100 };
    all.skip(all.len() - smaller(all.len(), most))
}

/// A new line that is empty or blank is passed over. Any other is kept, and shown
/// where it is accepted: behind the lines kept before it, as many as are wanted, the
/// nearest ones. Its end is shown without the white space there. No other file is
/// touched.
pub proof fn new_lines_are_shown_with_those_before(
    list: &mut WatchList,
    slot: usize,
    name: &str,
    line: &str,
    accepted: bool,
    term: &str,
    r: Vec<Vec<Span>>,
    i: int,
)
    requires
        slot < old(list)@.len(),
        call_ensures(WatchList::take_line, (list, slot, name, line, accepted, term), r),
    ensures
        ({
            let was = old(list)@[slot as int];
            let is = final(list)@[slot as int];
            let shown = trimmed_end(line@);
            let n = smaller(was.recent.len(), old(list).shown_before());
            let out = line_views(r@);
            &&& is.path == was.path
            &&& is.position == was.position
            &&& shown.len() == 0 ==> out.len() == 0 && is.recent == was.recent
            &&& shown.len() > 0 ==> is.recent == kept_with(
                was.recent,
                shown,
                old(list).shown_before(),
            )
            &&& !accepted ==> out.len() == 0
            &&& shown.len() > 0 && accepted ==> {
                &&& out.len() == n + 1
                &&& 0 <= i < n ==> bare_text(out[i]) == around("["@, name@, "] \u{2502} "@)
                    + was.recent[was.recent.len() - n + i]
                &&& bare_text(out.last()) == around("["@, name@, "] \u{25b6} "@) + shown
                &&& out.last().skip(4) == highlighted(shown, term@)
            }
        }),
        final(list)@.len() == old(list)@.len(),
        forall|k: int|
            0 <= k < old(list)@.len() && k != slot ==> #[trigger] final(list)@[k] == old(list)@[k],
{
    let was = old(list)@[slot as int];
    let is = final(list)@[slot as int];
    let shown = trimmed_end(line@);
    let before = old(list).shown_before();
    let n = smaller(was.recent.len(), before);
    let out = line_views(r@);
    if shown.len() > 0 {
        assert(is.recent =~= kept_with(was.recent, shown, before));
        if accepted {
            watched_lines_read_so(name@, shown, term@);
            watched_lines_are_coloured_so(name@, shown, term@);
            if 0 <= i < n {
                watched_lines_read_so(name@, was.recent[was.recent.len() - n + i], term@);
                assert(out[i] == watch_context(name@, was.recent[was.recent.len() - n + i]));
            }
        }
    }
}

/// Without a query every line that is not blank is shown. With one, plain text is
/// shown exactly when the query stands in it, upper and lower case taken as one; and
/// a line that is shown is highlighted only where that is wanted, and by the query.
pub proof fn watched_text_is_searched(
    list: &mut WatchList,
    slot: usize,
    name: &str,
    line: &str,
    query: &Option<Query>,
    highlight: bool,
    r: Option<Vec<Vec<Span>>>,
)
    requires
        slot < old(list)@.len(),
        call_ensures(WatchList::observe, (list, slot, name, line, query, highlight), r),
    ensures
        ({
            let shown = trimmed_end(line@);
            let out = line_views(r->0@);
            &&& shown.len() == 0 ==> r is Some && out.len() == 0
            &&& r is None <==> shown.len() > 0 && query_view(*query) is Some && parsed_line(
                shown,
            ) is Some && entry_moment(parsed_line(shown)->0) is Some && !answerable(
                query_view(*query)->0,
            )
            &&& query_view(*query) is None ==> r is Some && (out.len() > 0 <==> shown.len() > 0)
            &&& query_view(*query) matches Some(q) ==> parsed_line(shown) is None ==> {
                &&& r is Some
                &&& out.len() > 0 <==> shown.len() > 0 && exists|front: Seq<char>, back: Seq<char>|
                    lower(shown) == #[trigger] around(front, lower(q), back)
            }
            &&& r is Some && out.len() > 0 && !highlight ==> out.last().skip(4) == seq![
                plain(shown),
            ]
            &&& r is Some && out.len() > 0 && highlight && query_view(*query) is Some
                ==> out.last().skip(4) == highlighted(shown, query_view(*query)->0)
        }),
{
    let shown = trimmed_end(line@);
    if r is Some {
        let out = line_views(r->0@);
        let term = highlight_term(query_view(*query), highlight);
        if shown.len() > 0 && out.len() > 0 {
            watched_lines_are_coloured_so(name@, shown, term);
            assert(out.last() == watch_match(name@, shown, term));
            if !highlight {
                lines_without_the_term_stay_plain(shown, term);
            }
        }
    }
    if let Some(q) = query_view(*query) {
        pieces_are_within(lower(shown), lower(q));
    }
}

/// With a query that does not ask the clock, an entry is shown exactly when its answer
/// to the query is yes.
pub proof fn watched_entries_are_put_to_the_query(
    list: &mut WatchList,
    slot: usize,
    name: &str,
    line: &str,
    query: &Option<Query>,
    highlight: bool,
    r: Vec<Vec<Span>>,
)
    requires
        slot < old(list)@.len(),
        call_ensures(WatchList::observe, (list, slot, name, line, query, highlight), Some(r)),
        query_view(*query) is Some,
        settled(query_view(*query)->0),
        parsed_line(trimmed_end(line@)) is Some,
        trimmed_end(line@).len() > 0,
    ensures
        line_views(r@).len() > 0 <==> evaluated(
            parsed_line(trimmed_end(line@))->0,
            trimmed_end(line@),
            query_view(*query)->0,
        ) == answered(true),
{
    let shown = trimmed_end(line@);
    let q = query_view(*query)->0;
    let recent = old(list)@[slot as int].recent;
    let before = old(list).shown_before();
    let term = highlight_term(query_view(*query), highlight);
    let accepted = choose|accepted: bool|
        {
            &&& watch_judgement(shown, Some(q), accepted)
            &&& line_views(r@) == #[trigger] watch_output(
                recent,
                name@,
                line@,
                accepted,
                before,
                term,
            )
        };
    watched_lines_are_settled(shown, q, accepted);
}

} // verus!
