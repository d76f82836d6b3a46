//! What holds of every search.

use crate::json::{parsed_line, Json};
use crate::paths::PathView;
use crate::query::{
    entry_moment, nothing_read, settled, settled_reads_nothing, settled_since, since_holds, time_at,
    Moment, Reading,
};
use crate::search::{
    as_context, as_contexts, as_match, counted_level, is_search, last_n, line_events, line_view,
    match_count, possible_line_reading, possible_readings, scan, search_at, LineEvent,
    ResultView, SeenView, Window,
};
use crate::tally::{count_of, counted_adds, distinct_names};
use vstd::prelude::*;

verus! {

/// The lines that were read, numbered from the first line of the file.
pub open spec fn read_lines(events: Seq<LineEvent>) -> Seq<SeenView>
    decreases events.len(),
{
    if events.len() == 0 {
        Seq::empty()
    } else {
        let rest = read_lines(events.drop_last());
        match events.last() {
            LineEvent::Unreadable => rest,
            LineEvent::Read { raw, parsed, .. } => rest.push(
                SeenView { line_num: events.len(), raw_line: raw, parsed },
            ),
        }
    }
}

/// The lines that are accepted, as matches.
pub open spec fn accepted_lines(file: PathView, events: Seq<LineEvent>) -> Seq<ResultView>
    decreases events.len(),
{
    if events.len() == 0 {
        Seq::empty()
    } else {
        let rest = accepted_lines(file, events.drop_last());
        match events.last() {
            LineEvent::Read { raw, parsed, accepted, .. } if accepted => rest.push(
                as_match(file, SeenView { line_num: events.len(), raw_line: raw, parsed }),
            ),
            _ => rest,
        }
    }
}

/// The lines that are counted under `level`.
pub open spec fn lines_at_level(events: Seq<LineEvent>, level: Seq<char>) -> nat
    decreases events.len(),
{
    if events.len() == 0 {
        0
    } else {
        lines_at_level(events.drop_last(), level) + match events.last() {
            LineEvent::Read { parsed, .. } => if counted_level(parsed) == Some(level) {
                1nat
            } else {
                0
            },
            LineEvent::Unreadable => 0,
        }
    }
}

proof fn match_count_push(results: Seq<ResultView>, r: ResultView)
    ensures
        match_count(results.push(r)) == match_count(results) + if r.is_match { 1nat } else { 0 },
{
    assert(results.push(r).drop_last() =~= results);
}

proof fn match_count_contexts(results: Seq<ResultView>, file: PathView, lines: Seq<SeenView>)
    ensures
        match_count(results + as_contexts(file, lines)) == match_count(results),
    decreases lines.len(),
{
    if lines.len() == 0 {
        assert(results + as_contexts(file, lines) =~= results);
    } else {
        let init = results + as_contexts(file, lines.drop_last());
        assert(results + as_contexts(file, lines) =~= init.push(as_context(file, lines.last())));
        match_count_contexts(results, file, lines.drop_last());
        match_count_push(init, as_context(file, lines.last()));
    }
}

/// The matches that a search shows are as many as its statistics say.
pub proof fn matches_are_counted(file: PathView, w: Window, events: Seq<LineEvent>)
    ensures
        match_count(scan(file, w, events).results) == scan(file, w, events).matched,
    decreases events.len(),
{
    if events.len() > 0 {
        let s = scan(file, w, events.drop_last());
        matches_are_counted(file, w, events.drop_last());
        if let LineEvent::Read { raw, parsed, .. } = events.last() {
            let line = SeenView { line_num: s.total + 1, raw_line: raw, parsed };
            match_count_push(s.results, as_context(file, line));
            match_count_contexts(s.results, file, s.recent);
            match_count_push(s.results + as_contexts(file, s.recent), as_match(file, line));
        }
    }
}

/// A search goes through every line unless it is stopped, and never through
/// more.
pub proof fn lines_are_counted(file: PathView, w: Window, events: Seq<LineEvent>)
    ensures
        scan(file, w, events).total <= events.len(),
        !scan(file, w, events).stopped ==> scan(file, w, events).total == events.len(),
    decreases events.len(),
{
    if events.len() > 0 {
        lines_are_counted(file, w, events.drop_last());
    }
}

/// `line` is the line of its number among `events`, as it was read.
pub open spec fn is_line_of(events: Seq<LineEvent>, line: SeenView) -> bool {
    &&& 1 <= line.line_num <= events.len()
    &&& match events[line.line_num - 1] {
        LineEvent::Read { raw, parsed, .. } => raw == line.raw_line && parsed == line.parsed,
        LineEvent::Unreadable => false,
    }
}

/// A result is the line of its number, in the file that was searched, and is
/// either a match or context; a match is a line that was accepted.
pub open spec fn is_result_of(file: PathView, events: Seq<LineEvent>, r: ResultView) -> bool {
    &&& r.file == file
    &&& r.is_context == !r.is_match
    &&& is_line_of(
        events,
        SeenView { line_num: r.line_num, raw_line: r.raw_line, parsed: r.parsed },
    )
    &&& r.is_match ==> (events[r.line_num - 1] matches LineEvent::Read { accepted, .. }
        && accepted)
}

/// Whatever a search shows is a line of the file that was read, under its own
/// number, and every match was accepted.
pub proof fn results_are_lines(file: PathView, w: Window, events: Seq<LineEvent>)
    ensures
        forall|k: int|
            0 <= k < scan(file, w, events).results.len() ==> is_result_of(
                file,
                events,
                #[trigger] scan(file, w, events).results[k],
            ),
        forall|k: int|
            0 <= k < scan(file, w, events).recent.len() ==> is_line_of(
                events,
                #[trigger] scan(file, w, events).recent[k],
            ),
    decreases events.len(),
{
    if events.len() > 0 {
        let init = events.drop_last();
        let s = scan(file, w, init);
        let t = scan(file, w, events);
        results_are_lines(file, w, init);
        lines_are_counted(file, w, init);
        assert forall|line: SeenView| is_line_of(init, line) implies is_line_of(events, line) by {
            assert(init[line.line_num - 1] == events[line.line_num - 1]);
        }
        assert forall|r: ResultView| is_result_of(file, init, r) implies is_result_of(
            file,
            events,
            r,
        ) by {
            let line = SeenView { line_num: r.line_num, raw_line: r.raw_line, parsed: r.parsed };
            assert(is_line_of(init, line));
            assert(init[r.line_num - 1] == events[r.line_num - 1]);
        }
        if !s.stopped {
            if let LineEvent::Read { raw, parsed, accepted, .. } = events.last() {
                let line = SeenView { line_num: s.total + 1, raw_line: raw, parsed };
                assert(is_line_of(events, line));
                let pushed = s.recent.push(line);
                assert forall|k: int| 0 <= k < t.recent.len() implies is_line_of(
                    events,
                    #[trigger] t.recent[k],
                ) by {
                    let off = pushed.len() - t.recent.len();
                    assert(t.recent[k] == pushed[k + off]);
                    if k + off < s.recent.len() {
                        assert(is_line_of(init, s.recent[k + off]));
                    }
                }
                assert forall|k: int| 0 <= k < t.results.len() implies is_result_of(
                    file,
                    events,
                    #[trigger] t.results[k],
                ) by {
                    if k < s.results.len() {
                        assert(t.results[k] == s.results[k]);
                    } else if !accepted {
                        assert(t.results[k] == as_context(file, line));
                    } else if k < s.results.len() + s.recent.len() {
                        let i = k - s.results.len();
                        assert(t.results[k] == as_context(file, s.recent[i]));
                        assert(is_line_of(init, s.recent[i]));
                    } else {
                        assert(t.results[k] == as_match(file, line));
                    }
                }
            }
        }
    }
}

/// A search with a limit shows at most that many matches, and stops once it has
/// them.
pub proof fn limit_holds(file: PathView, w: Window, events: Seq<LineEvent>, max: usize)
    requires
        w.max_results == Some(max),
    ensures
        scan(file, w, events).matched <= max,
        match_count(scan(file, w, events).results) <= max,
        scan(file, w, events).stopped <==> scan(file, w, events).matched == max,
    decreases events.len(),
{
    matches_are_counted(file, w, events);
    if events.len() > 0 {
        limit_holds(file, w, events.drop_last(), max);
    }
}

/// A search without a limit is never stopped.
pub proof fn unlimited_runs_through(file: PathView, w: Window, events: Seq<LineEvent>)
    requires
        w.max_results is None,
    ensures
        !scan(file, w, events).stopped,
    decreases events.len(),
{
    if events.len() > 0 {
        unlimited_runs_through(file, w, events.drop_last());
    }
}

/// The same window without a limit.
pub open spec fn unlimited(w: Window) -> Window {
    Window { before: w.before, after: w.after, max_results: None }
}

/// The smaller of two numbers.
pub open spec fn smaller(a: nat, b: nat) -> nat {
    if a <= b {
        a
    } else {
        b
    }
}

/// A search with a limit shows the beginning of what it shows without one, goes
/// through no more lines, and finds as many matches as there are up to the limit;
/// unless it was stopped it comes to the same.
pub proof fn limit_shows_a_beginning(file: PathView, w: Window, events: Seq<LineEvent>)
    ensures
        scan(file, w, events).results.is_prefix_of(scan(file, unlimited(w), events).results),
        scan(file, w, events).total <= scan(file, unlimited(w), events).total,
        scan(file, w, events).matched <= scan(file, unlimited(w), events).matched,
        w.max_results matches Some(max) ==> scan(file, w, events).matched == smaller(
            max as nat,
            scan(file, unlimited(w), events).matched,
        ),
        !scan(file, w, events).stopped ==> scan(file, w, events) == scan(
            file,
            unlimited(w),
            events,
        ),
    decreases events.len(),
{
    unlimited_runs_through(file, unlimited(w), events);
    match w.max_results {
        Some(max) => limit_holds(file, w, events, max),
        None => unlimited_runs_through(file, w, events),
    }
    if events.len() > 0 {
        let init = events.drop_last();
        let a = scan(file, w, init);
        let b = scan(file, unlimited(w), init);
        limit_shows_a_beginning(file, w, init);
        unlimited_runs_through(file, unlimited(w), init);
        let a2 = scan(file, w, events);
        let b2 = scan(file, unlimited(w), events);
        assert(b.results.is_prefix_of(b2.results)) by {
            assert(b2.results.subrange(0, b.results.len() as int) =~= b.results);
        }
        if a.stopped {
            assert(a2 == a);
            assert(a.results =~= b2.results.subrange(0, a.results.len() as int));
        } else {
            assert(a2.results =~= b2.results);
        }
    }
}

/// The matches among results, in their order.
pub open spec fn only_matches(results: Seq<ResultView>) -> Seq<ResultView>
    decreases results.len(),
{
    if results.len() == 0 {
        Seq::empty()
    } else {
        let rest = only_matches(results.drop_last());
        if results.last().is_match {
            rest.push(results.last())
        } else {
            rest
        }
    }
}

proof fn only_matches_push(results: Seq<ResultView>, r: ResultView)
    ensures
        only_matches(results.push(r)) == if r.is_match {
            only_matches(results).push(r)
        } else {
            only_matches(results)
        },
{
    assert(results.push(r).drop_last() =~= results);
}

proof fn only_matches_contexts(results: Seq<ResultView>, file: PathView, lines: Seq<SeenView>)
    ensures
        only_matches(results + as_contexts(file, lines)) == only_matches(results),
    decreases lines.len(),
{
    if lines.len() == 0 {
        assert(results + as_contexts(file, lines) =~= results);
    } else {
        let init = results + as_contexts(file, lines.drop_last());
        assert(results + as_contexts(file, lines) =~= init.push(as_context(file, lines.last())));
        only_matches_contexts(results, file, lines.drop_last());
        only_matches_push(init, as_context(file, lines.last()));
    }
}

/// The matches of a search are the accepted lines among those that it went
/// through, each once and in order, however much is shown around them.
pub proof fn matches_are_the_accepted_lines(file: PathView, w: Window, events: Seq<LineEvent>)
    ensures
        only_matches(scan(file, w, events).results) == accepted_lines(
            file,
            events.take(scan(file, w, events).total as int),
        ),
    decreases events.len(),
{
    let t = scan(file, w, events);
    lines_are_counted(file, w, events);
    if events.len() == 0 {
        assert(events.take(0) =~= events);
    } else {
        let init = events.drop_last();
        let s = scan(file, w, init);
        lines_are_counted(file, w, init);
        matches_are_the_accepted_lines(file, w, init);
        if s.stopped {
            assert(events.take(t.total as int) =~= init.take(s.total as int));
        } else {
            assert(init.take(s.total as int) =~= init);
            assert(events.take(t.total as int) =~= events);
            if let LineEvent::Read { raw, parsed, .. } = events.last() {
                let line = SeenView { line_num: s.total + 1, raw_line: raw, parsed };
                only_matches_push(s.results, as_context(file, line));
                only_matches_contexts(s.results, file, s.recent);
                only_matches_push(s.results + as_contexts(file, s.recent), as_match(file, line));
            }
        }
    }
}

/// How many lines are shown before a match changes neither which lines match nor
/// anything that is counted.
pub proof fn lines_before_change_no_match(
    file: PathView,
    w: Window,
    v: Window,
    events: Seq<LineEvent>,
)
    requires
        w.after == v.after,
        w.max_results == v.max_results,
    ensures
        only_matches(scan(file, w, events).results) == only_matches(
            scan(file, v, events).results,
        ),
        scan(file, w, events).total == scan(file, v, events).total,
        scan(file, w, events).matched == scan(file, v, events).matched,
        scan(file, w, events).levels == scan(file, v, events).levels,
        scan(file, w, events).after_left == scan(file, v, events).after_left,
        scan(file, w, events).failures == scan(file, v, events).failures,
        scan(file, w, events).stopped == scan(file, v, events).stopped,
    decreases events.len(),
{
    if events.len() > 0 {
        lines_before_change_no_match(file, w, v, events.drop_last());
    }
    matches_are_the_accepted_lines(file, w, events);
    matches_are_the_accepted_lines(file, v, events);
}

/// Without context and without a limit a search shows the accepted lines of
/// the file, each once and in order, and nothing else.
pub proof fn bare_search_is_a_filter(file: PathView, w: Window, events: Seq<LineEvent>)
    requires
        w.before == 0,
        w.after == 0,
        w.max_results is None,
    ensures
        scan(file, w, events).results == accepted_lines(file, events),
        scan(file, w, events).matched == accepted_lines(file, events).len(),
        scan(file, w, events).after_left == 0,
        scan(file, w, events).recent.len() == 0,
    decreases events.len(),
{
    if events.len() > 0 {
        let init = events.drop_last();
        bare_search_is_a_filter(file, w, init);
        unlimited_runs_through(file, w, init);
        lines_are_counted(file, w, init);
        let s = scan(file, w, init);
        assert(s.results + as_contexts(file, s.recent) =~= s.results);
    }
}

proof fn last_n_push<T>(s: Seq<T>, x: T, n: nat)
    ensures
        last_n(last_n(s, n).push(x), n) == last_n(s.push(x), n),
{
    assert(last_n(last_n(s, n).push(x), n) =~= last_n(s.push(x), n));
}

/// The lines that a search keeps are the last ones read.
pub proof fn recent_is_last_read(file: PathView, w: Window, events: Seq<LineEvent>)
    requires
        !scan(file, w, events).stopped,
    ensures
        scan(file, w, events).recent == last_n(read_lines(events), w.before as nat),
    decreases events.len(),
{
    if events.len() > 0 {
        let init = events.drop_last();
        let s = scan(file, w, init);
        recent_is_last_read(file, w, init);
        lines_are_counted(file, w, init);
        if let LineEvent::Read { raw, parsed, .. } = events.last() {
            let line = SeenView { line_num: events.len(), raw_line: raw, parsed };
            last_n_push(read_lines(init), line, w.before as nat);
        }
    }
}

/// A match is shown right after as many of the lines read before it as are
/// wanted, the nearest ones, whatever was shown of them already.
pub proof fn match_comes_with_context(
    file: PathView,
    w: Window,
    events: Seq<LineEvent>,
    raw: Seq<char>,
    parsed: Option<Json>,
    failure: Option<Seq<char>>,
)
    requires
        !scan(file, w, events).stopped,
    ensures
        ({
            let e = LineEvent::Read { raw, parsed, accepted: true, failure };
            let line = SeenView { line_num: events.len() + 1, raw_line: raw, parsed };
            scan(file, w, events.push(e)).results == (scan(file, w, events).results + as_contexts(
                file,
                last_n(read_lines(events), w.before as nat),
            )).push(as_match(file, line)) && scan(file, w, events.push(e)).after_left == w.after
        }),
{
    let e = LineEvent::Read { raw, parsed, accepted: true, failure };
    assert(events.push(e).drop_last() =~= events);
    recent_is_last_read(file, w, events);
    lines_are_counted(file, w, events);
}

/// None of the lines is accepted.
pub open spec fn all_rejected(events: Seq<LineEvent>) -> bool {
    forall|i: int|
        0 <= i < events.len() ==> (#[trigger] events[i] matches LineEvent::Read { accepted, .. }
            ==> !accepted)
}

/// The lines read after a match, as many as are wanted, are shown as context
/// where they are not matches themselves.
pub proof fn lines_after_a_match_are_context(
    file: PathView,
    w: Window,
    events: Seq<LineEvent>,
    later: Seq<LineEvent>,
)
    requires
        !scan(file, w, events).stopped,
        all_rejected(later),
        read_lines(later).len() <= scan(file, w, events).after_left,
    ensures
        ({
            let s = scan(file, w, events);
            let t = scan(file, w, events + later);
            &&& !t.stopped
            &&& t.matched == s.matched
            &&& t.after_left == s.after_left - read_lines(later).len()
            &&& t.results == s.results + as_contexts(file, moved(read_lines(later), events.len()))
        }),
    decreases later.len(),
{
    let s = scan(file, w, events);
    if later.len() == 0 {
        assert(events + later =~= events);
        assert(s.results + as_contexts(file, moved(read_lines(later), events.len())) =~= s.results);
    } else {
        let init = later.drop_last();
        assert((events + later).drop_last() =~= events + init);
        assert((events + later).last() == later.last());
        assert(all_rejected(init)) by {
            assert forall|i: int| 0 <= i < init.len() implies (#[trigger] init[i] matches
                LineEvent::Read { accepted, .. } ==> !accepted) by {
                assert(init[i] == later[i]);
            }
        }
        assert(later.last() == later[later.len() - 1]);
        lines_after_a_match_are_context(file, w, events, init);
        lines_are_counted(file, w, events + init);
        let m = scan(file, w, events + init);
        let t = scan(file, w, events + later);
        let shown = as_contexts(file, moved(read_lines(later), events.len()));
        if let LineEvent::Read { raw, parsed, .. } = later.last() {
            let line = SeenView { line_num: m.total + 1, raw_line: raw, parsed };
            assert(t.results == m.results.push(as_context(file, line)));
            assert(t.results =~= s.results + shown);
        } else {
            assert(t.results == m.results);
        }
    }
}

/// Lines with `n` added to their numbers.
pub open spec fn moved(lines: Seq<SeenView>, n: nat) -> Seq<SeenView> {
    lines.map_values(
        |l: SeenView| SeenView { line_num: l.line_num + n, raw_line: l.raw_line, parsed: l.parsed },
    )
}

/// Each level is counted once for every line gone through that has it, shown
/// or not.
pub proof fn levels_are_counted(
    file: PathView,
    w: Window,
    events: Seq<LineEvent>,
    level: Seq<char>,
)
    ensures
        distinct_names(scan(file, w, events).levels),
        count_of(scan(file, w, events).levels, level) == lines_at_level(
            events.take(scan(file, w, events).total as int),
            level,
        ),
    decreases events.len(),
{
    let t = scan(file, w, events);
    lines_are_counted(file, w, events);
    if events.len() == 0 {
        assert(events.take(0) =~= events);
    } else {
        let init = events.drop_last();
        let s = scan(file, w, init);
        lines_are_counted(file, w, init);
        levels_are_counted(file, w, init, level);
        if s.stopped {
            assert(events.take(t.total as int) =~= init.take(s.total as int));
        } else {
            assert(init.take(s.total as int) =~= init);
            assert(events.take(t.total as int) =~= events);
            if let LineEvent::Read { parsed, .. } = events.last() {
                if let Some(l) = counted_level(parsed) {
                    counted_adds(s.levels, l, 1);
                }
            }
        }
    }
}

/// The matches of a search come in the order of the file, no line twice.
pub proof fn matches_are_in_order(file: PathView, w: Window, events: Seq<LineEvent>)
    ensures
        forall|i: int, j: int|
            0 <= i < j < scan(file, w, events).results.len() && (#[trigger] scan(
                file,
                w,
                events,
            ).results[i]).is_match && (#[trigger] scan(file, w, events).results[j]).is_match
                ==> scan(file, w, events).results[i].line_num < scan(
                file,
                w,
                events,
            ).results[j].line_num,
        forall|i: int|
            0 <= i < scan(file, w, events).results.len() ==> (#[trigger] scan(
                file,
                w,
                events,
            ).results[i]).line_num <= scan(file, w, events).total,
        forall|i: int|
            0 <= i < scan(file, w, events).recent.len() ==> (#[trigger] scan(
                file,
                w,
                events,
            ).recent[i]).line_num <= scan(file, w, events).total,
    decreases events.len(),
{
    if events.len() > 0 {
        let init = events.drop_last();
        let s = scan(file, w, init);
        let t = scan(file, w, events);
        matches_are_in_order(file, w, init);
        if !s.stopped {
            if let LineEvent::Read { raw, parsed, accepted, .. } = events.last() {
                let line = SeenView { line_num: s.total + 1, raw_line: raw, parsed };
                let pushed = s.recent.push(line);
                assert forall|k: int| 0 <= k < t.recent.len() implies (
                #[trigger] t.recent[k]).line_num <= t.total by {
                    let off = pushed.len() - t.recent.len();
                    assert(t.recent[k] == pushed[k + off]);
                    if k + off < s.recent.len() {
                        assert(s.recent[k + off].line_num <= s.total);
                    }
                }
                assert forall|k: int| 0 <= k < t.results.len() implies (
                #[trigger] t.results[k]).line_num <= t.total && (k >= s.results.len()
                    && t.results[k].is_match ==> k == t.results.len() - 1
                    && t.results[k].line_num == s.total + 1) by {
                    if k < s.results.len() {
                        assert(t.results[k] == s.results[k]);
                    } else if !accepted {
                        assert(t.results[k] == as_context(file, line));
                    } else if k < s.results.len() + s.recent.len() {
                        let i = k - s.results.len();
                        assert(t.results[k] == as_context(file, s.recent[i]));
                    } else {
                        assert(t.results[k] == as_match(file, line));
                    }
                }
                assert forall|i: int, j: int|
                    0 <= i < j < t.results.len() && (#[trigger] t.results[i]).is_match && (
                    #[trigger] t.results[j]).is_match implies t.results[i].line_num
                    < t.results[j].line_num by {
                    assert(i < s.results.len());
                    assert(t.results[i] == s.results[i]);
                    if j < s.results.len() {
                        assert(t.results[j] == s.results[j]);
                    }
                }
            }
        }
    }
}

// ---------------------------------------------------------------------------
// Searches of a whole file
// ---------------------------------------------------------------------------

/// For every line that both searches went through, the same was read off the clock:
/// they were made at one time.
pub open spec fn same_clock(a: Seq<Reading>, b: Seq<Reading>) -> bool {
    forall|i: int| 0 <= i < a.len() && i < b.len() ==> #[trigger] a[i] == #[trigger] b[i]
}

proof fn stopped_stays(file: PathView, w: Window, events: Seq<LineEvent>, i: int, j: int)
    requires
        0 <= i <= j <= events.len(),
        scan(file, w, events.take(i)).stopped,
    ensures
        scan(file, w, events.take(j)) == scan(file, w, events.take(i)),
    decreases j - i,
{
    if i < j {
        stopped_stays(file, w, events, i, j - 1);
        assert(events.take(j).drop_last() =~= events.take(j - 1));
    }
}

proof fn stopped_search_stays(
    file: PathView,
    w: Window,
    lines: Seq<Option<String>>,
    q: Seq<char>,
    since: Option<Seq<char>>,
    a: Seq<Reading>,
    b: Seq<Reading>,
)
    requires
        a.len() <= b.len(),
        same_clock(a, b),
        a.len() == b.len() || search_at(file, w, lines, q, since, a).stopped,
    ensures
        search_at(file, w, lines, q, since, a) == search_at(file, w, lines, q, since, b),
{
    let x = line_events(lines, q, since, a);
    let y = line_events(lines, q, since, b);
    assert forall|i: int| 0 <= i < a.len() implies x[i] == y[i] by {
        assert(a[i] == b[i]);
    }
    assert(x =~= y.take(a.len() as int));
    assert(y =~= y.take(b.len() as int));
    if a.len() < b.len() {
        stopped_stays(file, w, y, a.len() as int, b.len() as int);
    }
}

/// Of two searches of a file at one time, one with a limit, the limited one shows a
/// beginning of what the other shows, finds as many matches as there are up to the
/// limit, and goes through no more lines.
pub proof fn limited_search(
    file: PathView,
    w: Window,
    max: usize,
    lines: Seq<Option<String>>,
    q: Seq<char>,
    since: Option<Seq<char>>,
    a: Seq<Reading>,
    b: Seq<Reading>,
)
    requires
        w.max_results == Some(max),
        is_search(file, w, lines, q, since, a),
        is_search(file, unlimited(w), lines, q, since, b),
        same_clock(a, b),
    ensures
        search_at(file, w, lines, q, since, a).results.is_prefix_of(
            search_at(file, unlimited(w), lines, q, since, b).results,
        ),
        search_at(file, w, lines, q, since, a).matched == smaller(
            max as nat,
            search_at(file, unlimited(w), lines, q, since, b).matched,
        ),
        search_at(file, w, lines, q, since, a).total <= search_at(
            file,
            unlimited(w),
            lines,
            q,
            since,
            b,
        ).total,
{
    let all = line_events(lines, q, since, b);
    unlimited_runs_through(file, unlimited(w), all);
    stopped_search_stays(file, w, lines, q, since, a, b);
    limit_shows_a_beginning(file, w, all);
}

/// Two searches of a file at one time that differ in the lines shown before a match
/// alone have the same matches and the same statistics.
pub proof fn searches_with_other_lines_before(
    file: PathView,
    w: Window,
    v: Window,
    lines: Seq<Option<String>>,
    q: Seq<char>,
    since: Option<Seq<char>>,
    a: Seq<Reading>,
    b: Seq<Reading>,
)
    requires
        w.after == v.after,
        w.max_results == v.max_results,
        is_search(file, w, lines, q, since, a),
        is_search(file, v, lines, q, since, b),
        same_clock(a, b),
    ensures
        only_matches(search_at(file, w, lines, q, since, a).results) == only_matches(
            search_at(file, v, lines, q, since, b).results,
        ),
        search_at(file, w, lines, q, since, a).total == search_at(
            file,
            v,
            lines,
            q,
            since,
            b,
        ).total,
        search_at(file, w, lines, q, since, a).matched == search_at(
            file,
            v,
            lines,
            q,
            since,
            b,
        ).matched,
        search_at(file, w, lines, q, since, a).levels == search_at(
            file,
            v,
            lines,
            q,
            since,
            b,
        ).levels,
{
    let x = line_events(lines, q, since, a);
    let y = line_events(lines, q, since, b);
    lines_before_change_no_match(file, w, v, x);
    lines_before_change_no_match(file, w, v, y);
    if a.len() <= b.len() {
        stopped_search_stays(file, v, lines, q, since, a, b);
    } else {
        assert(same_clock(b, a));
        stopped_search_stays(file, w, lines, q, since, b, a);
    }
}

/// A result is an entry that was logged before `start`.
pub open spec fn logged_before(r: ResultView, start: Option<Moment>) -> bool {
    r.parsed matches Some(j) && !since_holds(start, entry_moment(j))
}

/// The results without the entries that were logged before `start`.
pub open spec fn not_before(results: Seq<ResultView>, start: Option<Moment>) -> Seq<ResultView>
    decreases results.len(),
{
    if results.len() == 0 {
        Seq::empty()
    } else {
        let rest = not_before(results.drop_last(), start);
        if logged_before(results.last(), start) {
            rest
        } else {
            rest.push(results.last())
        }
    }
}

/// The search shows matches only, and all of them.
pub open spec fn bare(w: Window) -> bool {
    w.before == 0 && w.after == 0 && w.max_results is None
}

/// Two searches of a file, the first with a time filter, were made at one time: for
/// every line the query read the same off the clock, and for every entry the filter
/// read `now`.
pub open spec fn same_clock_filtered(
    lines: Seq<Option<String>>,
    a: Seq<Reading>,
    b: Seq<Reading>,
    now: Option<Moment>,
) -> bool {
    &&& forall|i: int|
        0 <= i < a.len() && i < b.len() ==> (#[trigger] a[i]).clock == (#[trigger] b[i]).clock
    &&& forall|i: int|
        0 <= i < a.len() && is_entry(line_view(lines[i])) ==> (#[trigger] a[i]).now == now
}

/// The line parses to an entry.
pub open spec fn is_entry(line: Option<Seq<char>>) -> bool {
    line matches Some(l) && parsed_line(l) is Some
}

proof fn accepted_since(
    file: PathView,
    lines: Seq<Option<String>>,
    q: Seq<char>,
    since: Seq<char>,
    a: Seq<Reading>,
    b: Seq<Reading>,
    now: Option<Moment>,
    n: int,
)
    requires
        a.len() == b.len(),
        0 <= n <= a.len(),
        same_clock_filtered(lines, a, b, now),
    ensures
        accepted_lines(file, line_events(lines, q, Some(since), a).take(n)) == not_before(
            accepted_lines(file, line_events(lines, q, None, b).take(n)),
            time_at(since, now),
        ),
    decreases n,
{
    let x = line_events(lines, q, Some(since), a);
    let y = line_events(lines, q, None, b);
    if n > 0 {
        accepted_since(file, lines, q, since, a, b, now, n - 1);
        assert(x.take(n).drop_last() =~= x.take(n - 1));
        assert(y.take(n).drop_last() =~= y.take(n - 1));
        let rest = accepted_lines(file, y.take(n - 1));
        assert(a[n - 1].clock == b[n - 1].clock);
        assert(is_entry(line_view(lines[n - 1])) ==> a[n - 1].now == now);
        if let LineEvent::Read { raw, parsed, .. } = y[n - 1] {
            let r = as_match(file, SeenView { line_num: n as nat, raw_line: raw, parsed });
            assert(rest.push(r).drop_last() =~= rest);
        }
    } else {
        assert(x.take(0).len() == 0);
        assert(y.take(0).len() == 0);
    }
}

/// Of two searches of a file for matches at one time, one with a time filter, that
/// one shows what the other shows, except for exactly the entries that were logged
/// before the start of the filter. Plain text, entries without a moment and entries
/// logged at the start stay, and a filter that names no time removes nothing.
pub proof fn filtered_search(
    file: PathView,
    w: Window,
    lines: Seq<Option<String>>,
    q: Seq<char>,
    since: Seq<char>,
    a: Seq<Reading>,
    b: Seq<Reading>,
    now: Option<Moment>,
)
    requires
        bare(w),
        is_search(file, w, lines, q, Some(since), a),
        is_search(file, w, lines, q, None, b),
        same_clock_filtered(lines, a, b, now),
    ensures
        search_at(file, w, lines, q, Some(since), a).results == not_before(
            search_at(file, w, lines, q, None, b).results,
            time_at(since, now),
        ),
{
    let x = line_events(lines, q, Some(since), a);
    let y = line_events(lines, q, None, b);
    unlimited_runs_through(file, w, x);
    unlimited_runs_through(file, w, y);
    bare_search_is_a_filter(file, w, x);
    bare_search_is_a_filter(file, w, y);
    accepted_since(file, lines, q, since, a, b, now, a.len() as int);
    assert(x.take(a.len() as int) =~= x);
    assert(y.take(a.len() as int) =~= y);
}

/// Where neither the query nor the time filter asks the clock, a search reads
/// nothing off it: any two such searches of a file are made at one time.
pub proof fn settled_searches_read_nothing(
    lines: Seq<Option<String>>,
    q: Seq<char>,
    since: Option<Seq<char>>,
    readings: Seq<Reading>,
)
    requires
        settled(q),
        settled_since(since),
        possible_readings(lines, q, since, readings),
    ensures
        forall|i: int| 0 <= i < readings.len() ==> #[trigger] readings[i] == nothing_read(),
{
    assert forall|i: int| 0 <= i < readings.len() implies #[trigger] readings[i]
        == nothing_read() by {
        assert(possible_line_reading(line_view(lines[i]), q, since, readings[i]));
        if let Some(l) = line_view(lines[i]) {
            settled_reads_nothing(l, parsed_line(l), q, since, readings[i]);
        }
    }
}

/// What comes of the lines of a file where the clock is not asked.
pub open spec fn settled_events(
    lines: Seq<Option<String>>,
    q: Seq<char>,
    since: Option<Seq<char>>,
) -> Seq<LineEvent> {
    line_events(lines, q, since, Seq::new(lines.len(), |i: int| nothing_read()))
}

/// Where neither the query nor the time filter asks the clock, a search is
/// settled: it comes to what the judgements of all lines give.
pub proof fn search_is_settled(
    file: PathView,
    w: Window,
    lines: Seq<Option<String>>,
    q: Seq<char>,
    since: Option<Seq<char>>,
    readings: Seq<Reading>,
)
    requires
        settled(q),
        settled_since(since),
        is_search(file, w, lines, q, since, readings),
    ensures
        search_at(file, w, lines, q, since, readings) == scan(
            file,
            w,
            settled_events(lines, q, since),
        ),
{
    let all = Seq::new(lines.len(), |i: int| nothing_read());
    settled_searches_read_nothing(lines, q, since, readings);
    stopped_search_stays(file, w, lines, q, since, readings, all);
}

/// The lines of a file that are hits, numbered, as matches: an entry whose answer
/// to the query is yes, and plain text in which the query stands.
pub open spec fn hits(file: PathView, lines: Seq<Option<String>>, q: Seq<char>) -> Seq<ResultView> {
    accepted_lines(file, settled_events(lines, q, None))
}

/// A search for matches by a query that does not ask the clock shows exactly the
/// hits of the file.
pub proof fn search_shows_the_hits(
    file: PathView,
    w: Window,
    lines: Seq<Option<String>>,
    q: Seq<char>,
    readings: Seq<Reading>,
)
    requires
        bare(w),
        settled(q),
        is_search(file, w, lines, q, None, readings),
    ensures
        search_at(file, w, lines, q, None, readings).results == hits(file, lines, q),
        search_at(file, w, lines, q, None, readings).matched == hits(file, lines, q).len(),
{
    search_is_settled(file, w, lines, q, None, readings);
    bare_search_is_a_filter(file, w, settled_events(lines, q, None));
}

} // verus!
