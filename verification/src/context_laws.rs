//! What a search shows of the lines around its matches, line by line.

use crate::json::{held_opt, parsed_line, Json};
use crate::paths::{LogPath, PathView};
use crate::query::{
    accepted_at, answerable, answered, entry_moment, evaluated_at, failure_at, possible_reading,
    readable, since_holds, since_view, time_at, Judgement, Query, Reading, Since,
};
use crate::search::{
    as_context, as_contexts, as_match, count_matches, counted_level, is_search, last_n, level_of,
    line_event, line_events, line_view, match_count, possible_line_reading, result_views, scan,
    scan_step, search_at, search_file, window_of, FileSearch, FileStats, LineEvent, ResultView, Scan, SearchOutcome, SearchResult, SeenView,
    Window,
};
use crate::search_laws::{
    all_rejected, is_result_of, limit_holds, lines_are_counted, match_comes_with_context,
    matches_are_counted, moved, only_matches, read_lines, results_are_lines, smaller,
    unlimited_runs_through,
};
use crate::tally::place_is_right;
use crate::text::{lower, texts};
use crate::text_laws::{around, pieces_are_within};
use vstd::prelude::*;

verus! {

// ---------------------------------------------------------------------------
// Lines as results
// ---------------------------------------------------------------------------

/// The first `n` of a list, or all of it where there are fewer.
pub open spec fn first_n<T>(s: Seq<T>, n: nat) -> Seq<T> {
    s.take(smaller(s.len(), n) as int)
}

/// `r` shows `line` of `file`, as a match or as context.
pub open spec fn shows(r: ResultView, file: PathView, line: SeenView, as_a_match: bool) -> bool {
    &&& r.file == file
    &&& r.line_num == line.line_num
    &&& r.raw_line == line.raw_line
    &&& r.parsed == line.parsed
    &&& r.is_match == as_a_match
    &&& r.is_context == !as_a_match
}

/// A line is shown with its file, its number, its text and its entry, and is either
/// context or a match; a list of lines is shown line by line.
pub proof fn lines_are_shown_whole(file: PathView, line: SeenView, lines: Seq<SeenView>, i: int)
    ensures
        shows(as_context(file, line), file, line, false),
        shows(as_match(file, line), file, line, true),
        as_contexts(file, lines).len() == lines.len(),
        0 <= i < lines.len() ==> shows(as_contexts(file, lines)[i], file, lines[i], false),
{
}

/// The last `n` of a list are its end, and as many as that unless the list is
/// shorter.
pub proof fn last_ones_are_the_end<T>(s: Seq<T>, n: nat)
    ensures
        last_n(s, n).len() == smaller(s.len(), n),
        s == s.take(s.len() - last_n(s, n).len()) + last_n(s, n),
{
    assert(s =~= s.take(s.len() - last_n(s, n).len()) + last_n(s, n));
}

/// The matches among results are counted one by one: as many as a list without the
/// context lines holds.
pub proof fn matches_are_counted_one_by_one(results: Seq<ResultView>)
    ensures
        match_count(results) == only_matches(results).len(),
        match_count(results) <= results.len(),
        (forall|i: int| 0 <= i < results.len() ==> (#[trigger] results[i]).is_match)
            ==> match_count(results) == results.len(),
        (forall|i: int| 0 <= i < results.len() ==> !(#[trigger] results[i]).is_match)
            ==> match_count(results) == 0,
    decreases results.len(),
{
    if results.len() > 0 {
        let init = results.drop_last();
        matches_are_counted_one_by_one(init);
        assert(forall|i: int| 0 <= i < init.len() ==> results[i] == #[trigger] init[i]);
        assert(results.last() == results[results.len() - 1]);
    }
}

/// The matches of two lists are those of the one and those of the other.
pub proof fn matches_add_up(a: Seq<ResultView>, b: Seq<ResultView>)
    ensures
        match_count(a + b) == match_count(a) + match_count(b),
    decreases b.len(),
{
    if b.len() == 0 {
        assert(a + b =~= a);
    } else {
        assert((a + b).drop_last() =~= a + b.drop_last());
        matches_add_up(a, b.drop_last());
    }
}

/// What is counted of results is how many of them are matches.
pub proof fn counting_finds_the_matches(results: &Vec<SearchResult>, r: usize)
    requires
        call_ensures(count_matches, (results,), r),
    ensures
        r == only_matches(result_views(results@)).len(),
{
    matches_are_counted_one_by_one(result_views(results@));
}

/// A context for both sides is shown on both sides, whatever else is asked for;
/// without one each side is shown as asked for. The limit is kept.
pub proof fn both_sides_take_the_context(
    context: usize,
    before: usize,
    after: usize,
    max: Option<usize>,
    w: Window,
)
    requires
        call_ensures(window_of, (context, before, after, max), w),
    ensures
        context > 0 ==> w.before == context && w.after == context,
        context == 0 ==> w.before == before && w.after == after,
        w.max_results == max,
{
}

// ---------------------------------------------------------------------------
// Runs of lines
// ---------------------------------------------------------------------------

/// Whatever comes before it, a run of lines that are not accepted is shown as
/// context as far as the context after the last match goes, and no further: its
/// first readable lines, as many as are still to be shown, and nothing else of it,
/// however long it is.
pub proof fn context_ends(
    file: PathView,
    w: Window,
    events: Seq<LineEvent>,
    later: Seq<LineEvent>,
)
    requires
        !scan(file, w, events).stopped,
        all_rejected(later),
    ensures
        ({
            let s = scan(file, w, events);
            let t = scan(file, w, events + later);
            let shown = first_n(read_lines(later), s.after_left);
            &&& !t.stopped
            &&& t.matched == s.matched
            &&& t.results == s.results + as_contexts(file, moved(shown, events.len()))
            &&& t.results.len() == s.results.len() + shown.len()
            &&& t.after_left == s.after_left - shown.len()
        }),
    decreases later.len(),
{
    let s = scan(file, w, events);
    if later.len() == 0 {
        assert(events + later =~= events);
        assert(s.results + as_contexts(
            file,
            moved(first_n(read_lines(later), s.after_left), events.len()),
        ) =~= s.results);
    } else {
        let init = later.drop_last();
        assert((events + later).drop_last() =~= events + init);
        assert((events + later).last() == later.last());
        assert(all_rejected(init)) by {
            assert forall|i: int| 0 <= i < init.len() implies (#[trigger] init[i] matches
                LineEvent::Read { accepted, .. } ==> !accepted) by {
                assert(init[i] == later[i]);
            }
        }
        assert(later.last() == later[later.len() - 1]);
        context_ends(file, w, events, init);
        lines_are_counted(file, w, events + init);
        let m = scan(file, w, events + init);
        let t = scan(file, w, events + later);
        let was = first_n(read_lines(init), s.after_left);
        let shown = first_n(read_lines(later), s.after_left);
        if let LineEvent::Read { raw, parsed, .. } = later.last() {
            if m.after_left > 0 {
                let line = SeenView { line_num: m.total + 1, raw_line: raw, parsed };
                assert(t.results == m.results.push(as_context(file, line)));
                assert(t.results =~= s.results + as_contexts(file, moved(shown, events.len())));
            } else {
                assert(shown =~= was);
            }
        } else {
            assert(shown =~= was);
        }
    }
}

/// Where no line is accepted, nothing is shown, whatever the window.
pub proof fn nothing_is_shown_without_a_match(
    file: PathView,
    w: Window,
    events: Seq<LineEvent>,
)
    requires
        all_rejected(events),
    ensures
        scan(file, w, events).results.len() == 0,
        scan(file, w, events).matched == 0,
{
    let none = Seq::<LineEvent>::empty();
    let s = scan(file, w, none);
    assert(s.after_left == 0 && s.results.len() == 0);
    if s.stopped {
        stopped_search_is_over(file, w, none, events);
    } else {
        context_ends(file, w, none, events);
    }
    assert(none + events =~= events);
}

/// After a match exactly the next lines that can be read are shown as context, as
/// many as the window has after a match, and no further ones: a run of lines that
/// are not accepted adds these and nothing else, however long it is.
pub proof fn only_the_next_lines_are_context(
    file: PathView,
    w: Window,
    events: Seq<LineEvent>,
    e: LineEvent,
    later: Seq<LineEvent>,
)
    requires
        e matches LineEvent::Read { accepted, .. } && accepted,
        !scan(file, w, events).stopped,
        !scan(file, w, events.push(e)).stopped,
        all_rejected(later),
    ensures
        ({
            let s = scan(file, w, events.push(e));
            let t = scan(file, w, events.push(e) + later);
            let shown = first_n(read_lines(later), w.after as nat);
            &&& t.results == s.results + as_contexts(file, moved(shown, events.len() + 1))
            &&& t.results.len() == s.results.len() + smaller(read_lines(later).len(), w.after as nat)
            &&& t.matched == s.matched
        }),
{
    if let LineEvent::Read { raw, parsed, accepted, failure } = e {
        match_comes_with_context(file, w, events, raw, parsed, failure);
        context_ends(file, w, events.push(e), later);
    }
}

/// A search that is over takes in nothing more: no later line changes anything.
pub proof fn stopped_search_is_over(
    file: PathView,
    w: Window,
    events: Seq<LineEvent>,
    later: Seq<LineEvent>,
)
    requires
        scan(file, w, events).stopped,
    ensures
        scan(file, w, events + later) == scan(file, w, events),
    decreases later.len(),
{
    if later.len() == 0 {
        assert(events + later =~= events);
    } else {
        assert((events + later).drop_last() =~= events + later.drop_last());
        stopped_search_is_over(file, w, events, later.drop_last());
    }
}

/// A search that was stopped by its limit went no further than the match that
/// reached it: that match is the last line gone through, and the last one shown.
pub proof fn stops_at_the_last_match(file: PathView, w: Window, events: Seq<LineEvent>)
    requires
        scan(file, w, events).stopped,
        scan(file, w, events).total > 0,
    ensures
        scan(file, w, events).results.len() > 0,
        scan(file, w, events).results.last().is_match,
        scan(file, w, events).results.last().line_num == scan(file, w, events).total,
    decreases events.len(),
{
    if events.len() > 0 {
        let s = scan(file, w, events.drop_last());
        if s.stopped {
            stops_at_the_last_match(file, w, events.drop_last());
        }
    }
}

/// The messages of the lines that could not be answered, in the order of the lines.
pub open spec fn messages(events: Seq<LineEvent>) -> Seq<Seq<char>>
    decreases events.len(),
{
    if events.len() == 0 {
        Seq::empty()
    } else {
        let rest = messages(events.drop_last());
        match events.last() {
            LineEvent::Read { failure: Some(m), .. } => rest.push(m),
            _ => rest,
        }
    }
}

/// A search keeps the message of every line gone through that could not be
/// answered, in order, and no others.
pub proof fn messages_are_kept(file: PathView, w: Window, events: Seq<LineEvent>)
    ensures
        scan(file, w, events).failures == messages(
            events.take(scan(file, w, events).total as int),
        ),
    decreases events.len(),
{
    let t = scan(file, w, events);
    lines_are_counted(file, w, events);
    if events.len() == 0 {
        assert(events.take(0) =~= events);
    } else {
        let init = events.drop_last();
        let s = scan(file, w, init);
        lines_are_counted(file, w, init);
        messages_are_kept(file, w, init);
        if s.stopped {
            assert(events.take(t.total as int) =~= init.take(s.total as int));
        } else {
            assert(init.take(s.total as int) =~= init);
            assert(events.take(t.total as int) =~= events);
        }
    }
}

/// The level of an entry is the text under its key `level`, or else the text under
/// `severity`; there is none where neither is a text, and plain text has none.
pub proof fn levels_are_read_off_two_keys(j: Json, t: Seq<char>)
    ensures
        counted_level(None) is None,
        !(j is Object) ==> counted_level(Some(j)) is None,
        j matches Json::Object(m) ==> {
            let level_is_text = m.dom().contains("level"@) && m["level"@] is Text;
            &&& level_is_text ==> counted_level(Some(j)) == Some(m["level"@]->Text_0)
            &&& !level_is_text && m.dom().contains("severity"@) && m["severity"@] is Text
                ==> counted_level(Some(j)) == Some(m["severity"@]->Text_0)
            &&& !level_is_text && !(m.dom().contains("severity"@) && m["severity"@] is Text)
                ==> counted_level(Some(j)) is None
        },
{
}

/// The level that is read off an entry is the text under `level` or, where that is
/// no text, the one under `severity`.
pub proof fn level_is_read_off_the_entry(
    parsed: &Option<serde_json::Value>,
    r: Option<String>,
)
    requires
        call_ensures(level_of, (parsed,), r),
    ensures
        *parsed is None ==> r is None,
        held_opt(*parsed) matches Some(Json::Object(m)) ==> {
            let level_is_text = m.dom().contains("level"@) && m["level"@] is Text;
            &&& level_is_text ==> r is Some && r->0@ == m["level"@]->Text_0
            &&& !level_is_text && m.dom().contains("severity"@) && m["severity"@] is Text
                ==> r is Some && r->0@ == m["severity"@]->Text_0
            &&& !level_is_text && !(m.dom().contains("severity"@) && m["severity"@] is Text)
                ==> r is None
        },
{
}

/// A level that is listed came up at least once.
pub proof fn listed_levels_came_up(file: PathView, w: Window, events: Seq<LineEvent>, i: int)
    requires
        0 <= i < scan(file, w, events).levels.len(),
    ensures
        scan(file, w, events).levels[i].1 > 0,
    decreases events.len(),
{
    if events.len() > 0 {
        let s = scan(file, w, events.drop_last());
        let t = scan(file, w, events);
        if let LineEvent::Read { parsed, .. } = events.last() {
            if let Some(l) = counted_level(parsed) {
                place_is_right(s.levels, l);
            }
        }
        if i < s.levels.len() {
            listed_levels_came_up(file, w, events.drop_last(), i);
        }
    }
}

// ---------------------------------------------------------------------------
// What is done with one line
// ---------------------------------------------------------------------------

/// A line that is taken in: it is counted; an accepted one is shown as a match
/// behind the lines kept, and the context after it begins anew; any other is shown
/// as context where some is still to be shown, and not at all otherwise.
pub proof fn observed_lines_are_shown(
    search: &mut FileSearch,
    raw_line: String,
    parsed: Option<serde_json::Value>,
    judgement: Judgement,
)
    requires
        call_ensures(FileSearch::observe, (search, raw_line, parsed, judgement), ()),
        !old(search)@.stopped,
    ensures
        ({
            let s = old(search)@;
            let t = final(search)@;
            let w = old(search).shown();
            let file = old(search).path();
            let line = SeenView {
                line_num: s.total + 1,
                raw_line: raw_line@,
                parsed: held_opt(parsed),
            };
            let n = s.results.len();
            &&& t.total == s.total + 1
            &&& s.results == t.results.take(n as int)
            &&& judgement.accepted ==> {
                &&& t.matched == s.matched + 1
                &&& t.after_left == w.after
                &&& t.results.len() == n + s.recent.len() + 1
                &&& forall|i: int|
                    0 <= i < s.recent.len() ==> shows(
                        #[trigger] t.results[n + i],
                        file,
                        s.recent[i],
                        false,
                    )
                &&& shows(t.results.last(), file, line, true)
                &&& t.stopped <==> w.max_results is Some && t.matched >= w.max_results->0
            }
            &&& !judgement.accepted ==> {
                &&& t.matched == s.matched
                &&& !t.stopped
                &&& s.after_left == 0 ==> t.results.len() == n && t.after_left == 0
                &&& s.after_left > 0 ==> t.results.len() == n + 1 && t.after_left == s.after_left
                    - 1 && shows(t.results.last(), file, line, false)
            }
            &&& judgement.failure is Some <==> t.failures.len() == s.failures.len() + 1
            &&& judgement.failure is None <==> t.failures == s.failures
            &&& t.recent.len() == smaller(s.recent.len() + 1, w.before as nat)
            &&& t.recent.len() > 0 ==> t.recent.last() == line
            &&& final(search).path() == file
            &&& final(search).shown() == w
        }),
{
    let s = old(search)@;
    let t = final(search)@;
    assert(s.results =~= t.results.take(s.results.len() as int));
    if judgement.failure is Some {
        assert(t.failures.len() == s.failures.len() + 1);
    }
}

/// A search that is over is left as it is by whatever comes.
pub proof fn nothing_is_taken_in_after_the_end(
    search: &mut FileSearch,
    raw_line: String,
    parsed: Option<serde_json::Value>,
    judgement: Judgement,
)
    requires
        call_ensures(FileSearch::observe, (search, raw_line, parsed, judgement), ()),
        old(search)@.stopped,
    ensures
        final(search)@ == old(search)@,
{
}

/// A line that cannot be read is counted and nothing more.
pub proof fn unreadable_lines_are_counted(search: &mut FileSearch)
    requires
        call_ensures(FileSearch::pass_unreadable, (search,), ()),
    ensures
        old(search)@.stopped ==> final(search)@ == old(search)@,
        !old(search)@.stopped ==> final(search)@ == (Scan {
            total: old(search)@.total + 1,
            ..old(search)@
        }),
{
}

/// A search begins with nothing counted and nothing shown; it is over at once
/// exactly where no match is wanted.
pub proof fn searches_begin_empty(file: LogPath, w: Window, r: FileSearch)
    requires
        call_ensures(FileSearch::new, (file, w), r),
    ensures
        r@.total == 0,
        r@.matched == 0,
        r@.after_left == 0,
        r@.levels.len() == 0,
        r@.recent.len() == 0,
        r@.results.len() == 0,
        r@.failures.len() == 0,
        r@.stopped <==> w.max_results == Some(0usize),
        r.path() == file@,
        r.shown() == w,
{
}

/// An entry may not be judged: it has a time, and the query may hold that against a
/// duration that reaches back too far, or the time filter is such a duration.
pub open spec fn out_of_reach(j: Json, q: Seq<char>, since: Option<Seq<char>>) -> bool {
    entry_moment(j) is Some && !answerable(q) || (since matches Some(s) && !readable(s))
}

/// An entry that is fed to a search is found exactly when, at some reading of the clock,
/// its answer to the query is yes and it is not from before the start of the time
/// filter; and what is wrong with the query is kept exactly when there is no answer.
pub proof fn fed_entries_are_put_to_the_query(
    search: &mut FileSearch,
    line: String,
    query: &Query,
    since: &Option<Since>,
    r: bool,
)
    requires
        call_ensures(FileSearch::feed, (search, Some(line), query, since), r),
        !old(search)@.stopped,
        parsed_line(line@) is Some,
        r,
    ensures
        ({
            let s = old(search)@;
            let t = final(search)@;
            let j = parsed_line(line@)->0;
            exists|reading: Reading|
                {
                    let answer = evaluated_at(j, line@, query@, reading.clock);
                    let recent = match since_view(*since) {
                        Some(text) => since_holds(time_at(text, reading.now), entry_moment(j)),
                        None => true,
                    };
                    &&& #[trigger] possible_reading(
                        line@,
                        Some(j),
                        query@,
                        since_view(*since),
                        reading,
                    )
                    &&& t.matched == s.matched + 1 <==> answer == answered(true) && recent
                    &&& t.matched == s.matched <==> !(answer == answered(true) && recent)
                    &&& t.failures.len() == s.failures.len() + 1 <==> answer is Err
                    &&& t.total == s.total + 1
                }
        }),
{
    let since = since_view(*since);
    let reading = choose|reading: Reading|
        {
            &&& #[trigger] possible_line_reading(Some(line@), query@, since, reading)
            &&& final(search)@ == scan_step(
                old(search).path(),
                old(search).shown(),
                old(search)@,
                line_event(Some(line@), query@, since, reading),
            )
        };
    let j = parsed_line(line@)->0;
    assert(possible_reading(line@, Some(j), query@, since, reading));
}

/// A line of plain text that is fed to a search is always taken in, and found
/// exactly when the query stands in it, upper and lower case taken as one; one that
/// cannot be read is counted and nothing more; and a search that is over is left as
/// it is.
pub proof fn fed_text_is_searched(
    search: &mut FileSearch,
    line: Option<String>,
    query: &Query,
    since: &Option<Since>,
    r: bool,
)
    requires
        call_ensures(FileSearch::feed, (search, line, query, since), r),
    ensures
        ({
            let s = old(search)@;
            let t = final(search)@;
            &&& s.stopped ==> r && t == s
            &&& !r ==> t == s
            &&& !r <==> !s.stopped && line is Some && parsed_line(line->0@) is Some
                && out_of_reach(parsed_line(line->0@)->0, query@, since_view(*since))
            &&& !s.stopped && line is None ==> r && t.total == s.total + 1 && t.results == s.results
                && t.matched == s.matched
            &&& !s.stopped && line is Some && parsed_line(line->0@) is None ==> {
                let found = exists|front: Seq<char>, back: Seq<char>|
                    lower(line->0@) == #[trigger] around(front, lower(query@), back);
                &&& r
                &&& t.total == s.total + 1
                &&& found ==> t.matched == s.matched + 1 && t.results.last().is_match
                    && t.results.last().raw_line == line->0@ && t.results.last().line_num
                    == s.total + 1
                &&& !found ==> t.matched == s.matched
                &&& !found && s.after_left == 0 ==> t.results == s.results
                &&& t.failures == s.failures
            }
        }),
{
    if let Some(l) = line {
        pieces_are_within(lower(l@), lower(query@));
    }
}

/// Whatever a search of a file shows is a line of the file that was read, under its
/// own number and with what it parses to, and is either a match or context; a line of
/// plain text that is a match holds the query. A search without a limit goes through
/// every line, and one of plain text alone always comes to an end.
pub proof fn searches_show_lines_of_the_file(
    file: LogPath,
    lines: &Vec<Option<String>>,
    query: &Query,
    window: Window,
    since: &Option<Since>,
    r: Option<SearchOutcome>,
    k: int,
)
    requires
        call_ensures(search_file, (file, lines, query, window, since), r),
    ensures
        (forall|i: int|
            0 <= i < lines@.len() ==> (#[trigger] lines@[i] matches Some(l) ==> (parsed_line(
                l@,
            ) matches Some(j) ==> !out_of_reach(j, query@, since_view(*since))))) ==> r is Some,
        r matches Some(o) ==> {
            &&& o.stats.total_lines <= lines@.len()
            &&& window.max_results is None ==> o.stats.total_lines == lines@.len()
            &&& o.stats.matched_lines == only_matches(result_views(o.results@)).len()
            &&& window.max_results matches Some(max) ==> o.stats.matched_lines <= max
            &&& 0 <= k < o.results@.len() ==> {
                let shown = o.results@[k]@;
                &&& shown.file == file@
                &&& 1 <= shown.line_num <= lines@.len()
                &&& lines@[shown.line_num - 1] is Some
                &&& shown.raw_line == lines@[shown.line_num - 1]->0@
                &&& shown.parsed == parsed_line(shown.raw_line)
                &&& shown.is_context == !shown.is_match
                &&& shown.is_match && shown.parsed is None ==> exists|
                    front: Seq<char>,
                    back: Seq<char>,
                |
                    lower(shown.raw_line) == #[trigger] around(front, lower(query@), back)
            }
        },
{
    let since = since_view(*since);
    if let Some(o) = r {
        let readings = choose|readings: Seq<Reading>|
            {
                &&& #[trigger] is_search(file@, window, lines@, query@, since, readings)
                &&& o.is_of(search_at(file@, window, lines@, query@, since, readings))
            };
        let events = line_events(lines@, query@, since, readings);
        let s = scan(file@, window, events);
        lines_are_counted(file@, window, events);
        matches_are_counted(file@, window, events);
        matches_are_counted_one_by_one(s.results);
        results_are_lines(file@, window, events);
        match window.max_results {
            Some(max) => limit_holds(file@, window, events, max),
            None => unlimited_runs_through(file@, window, events),
        }
        if 0 <= k < o.results@.len() {
            let shown = s.results[k];
            assert(shown == o.results@[k]@);
            assert(is_result_of(file@, events, shown));
            let i = shown.line_num - 1;
            assert(events[i] == line_event(line_view(lines@[i]), query@, since, readings[i]));
            pieces_are_within(lower(shown.raw_line), lower(query@));
        }
    }
}

/// What comes of a line: as it was read and parsed, and judged at some reading of the
/// clock; of plain text, whether the query stands in it.
pub open spec fn comes_of(
    e: LineEvent,
    line: Option<String>,
    q: Seq<char>,
    since: Option<Seq<char>>,
) -> bool {
    match line {
        None => e is Unreadable,
        Some(l) => e matches LineEvent::Read { raw, parsed, accepted, failure } && {
            &&& raw == l@
            &&& parsed == parsed_line(l@)
            &&& exists|reading: Reading|
                {
                    &&& #[trigger] possible_reading(l@, parsed, q, since, reading)
                    &&& accepted == accepted_at(l@, parsed, q, since, reading)
                    &&& failure == failure_at(l@, parsed, q, reading)
                }
            &&& parsed is None ==> failure is None && (accepted <==> exists|
                front: Seq<char>,
                back: Seq<char>,
            |
                lower(l@) == #[trigger] around(front, lower(q), back))
        },
    }
}

/// A search goes through a file line by line, from the first one on, up to the last
/// one or to where it is stopped, and what it comes to is what comes of these lines.
pub proof fn searches_go_line_by_line(
    file: LogPath,
    lines: &Vec<Option<String>>,
    query: &Query,
    window: Window,
    since: &Option<Since>,
    o: SearchOutcome,
) -> (events: Seq<LineEvent>)
    requires
        call_ensures(search_file, (file, lines, query, window, since), Some(o)),
    ensures
        events.len() <= lines@.len(),
        events.len() < lines@.len() ==> scan(file@, window, events).stopped,
        forall|i: int|
            0 <= i < events.len() ==> comes_of(
                #[trigger] events[i],
                lines@[i],
                query@,
                since_view(*since),
            ),
        result_views(o.results@) == scan(file@, window, events).results,
        o.stats.total_lines == scan(file@, window, events).total,
        o.stats.matched_lines == scan(file@, window, events).matched,
        o.stats.level_counts@ == scan(file@, window, events).levels,
        texts(o.failures@) == scan(file@, window, events).failures,
{
    let since = since_view(*since);
    let readings = choose|readings: Seq<Reading>|
        {
            &&& #[trigger] is_search(file@, window, lines@, query@, since, readings)
            &&& o.is_of(search_at(file@, window, lines@, query@, since, readings))
        };
    let events = line_events(lines@, query@, since, readings);
    assert forall|i: int| 0 <= i < events.len() implies comes_of(
        #[trigger] events[i],
        lines@[i],
        query@,
        since,
    ) by {
        assert(possible_line_reading(line_view(lines@[i]), query@, since, readings[i]));
        if let Some(l) = lines@[i] {
            assert(possible_reading(l@, parsed_line(l@), query@, since, readings[i]));
            pieces_are_within(lower(l@), lower(query@));
        }
    }
    events
}

/// What is handed out at the end of a search, and what can be asked of it on the way,
/// is what it holds.
pub proof fn searches_hand_out_what_they_hold(
    search: FileSearch,
    stopped: bool,
    failures: &Vec<String>,
    r: (Vec<SearchResult>, FileStats),
)
    requires
        call_ensures(FileSearch::is_stopped, (&search,), stopped),
        call_ensures(FileSearch::failures, (&search,), failures),
        call_ensures(FileSearch::finish, (search,), r),
    ensures
        stopped == search@.stopped,
        texts(failures@) == search@.failures,
        result_views(r.0@) == search@.results,
        r.1.total_lines == search@.total,
        r.1.matched_lines == search@.matched,
        r.1.level_counts@ == search@.levels,
{
}

/// A line is taken as it was read, with what it parses to, and is judged by the query
/// and the time filter as they were given.
pub proof fn lines_are_taken_as_read(
    line: Option<Seq<char>>,
    q: Seq<char>,
    since: Option<Seq<char>>,
    reading: Reading,
)
    ensures
        line is None <==> line_event(line, q, since, reading) is Unreadable,
        line matches Some(l) ==> (line_event(line, q, since, reading) matches LineEvent::Read {
            raw,
            parsed,
            accepted,
            failure,
        } && raw == l && parsed == parsed_line(l) && accepted == accepted_at(
            l,
            parsed_line(l),
            q,
            since,
            reading,
        ) && failure == failure_at(l, parsed_line(l), q, reading)),
{
}

} // verus!
