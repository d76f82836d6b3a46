//! Searching the lines of a file: matches, the context around them, and the
//! statistics of the file.

use crate::json::{as_text, copy_opt, held, held_opt, member, parse_log_line, parsed_line, Json};
use crate::paths::{LogPath, PathView};
use crate::query::{
    accepted_at, failure_at, failure_view, judge_line, judgeable, nothing_read, possible_reading,
    since_view, Judgement, Query, Reading, Since,
};
use crate::tally::{count_sum, count_within_sum, counted, counted_adds, distinct_names, Tally};
use crate::text::texts;
use vstd::prelude::*;
use vstd::string::StringExecFns;

verus! {

/// One line of the output of a search: a match, or a line shown around one.
pub struct SearchResult {
    pub file: LogPath,
    pub line_num: usize,
    pub raw_line: String,
    pub parsed: Option<serde_json::Value>,
    pub is_match: bool,
    pub is_context: bool,
}

/// What a `SearchResult` says.
#[verifier::ext_equal]
pub struct ResultView {
    pub file: PathView,
    pub line_num: nat,
    pub raw_line: Seq<char>,
    pub parsed: Option<Json>,
    pub is_match: bool,
    pub is_context: bool,
}

impl SearchResult {
    pub open spec fn view(&self) -> ResultView {
        ResultView {
            file: self.file@,
            line_num: self.line_num as nat,
            raw_line: self.raw_line@,
            parsed: held_opt(self.parsed),
            is_match: self.is_match,
            is_context: self.is_context,
        }
    }
}

/// Results as they stand in a list.
pub open spec fn result_views(v: Seq<SearchResult>) -> Seq<ResultView> {
    v.map_values(|r: SearchResult| r@)
}

/// The matches among results.
pub open spec fn match_count(results: Seq<ResultView>) -> nat
    decreases results.len(),
{
    if results.len() == 0 {
        0
    } else {
        match_count(results.drop_last()) + if results.last().is_match { 1nat } else { 0 }
    }
}

/// Counts the matches among results.
pub fn count_matches(results: &Vec<SearchResult>) -> (r: usize)
    ensures
        r == match_count(result_views(results@)),
{
    let mut r: usize = 0;
    let ghost all = result_views(results@);
    for i in 0..results.len()
        invariant
            all == result_views(results@),
            r <= i,
            r == match_count(all.take(i as int)),
    {
        assert(all.take(i + 1).drop_last() =~= all.take(i as int));
        if results[i].is_match {
            r = r + 1;
        }
    }
    assert(all.take(all.len() as int) =~= all);
    r
}

/// What was counted in a file.
pub struct FileStats {
    pub total_lines: usize,
    pub matched_lines: usize,
    pub level_counts: Tally,
}

impl FileStats {
    /// No more is counted than there are lines.
    pub open spec fn well_formed(&self) -> bool {
        self.matched_lines <= self.total_lines && count_sum(self.level_counts@) <= self.total_lines
    }
}

/// How much is shown: lines before and after each match, and the number of
/// matches after which the search stops.
#[derive(Clone, Copy, Debug)]
pub struct Window {
    pub before: usize,
    pub after: usize,
    pub max_results: Option<usize>,
}

/// How much is shown by the options of the command line: one for the context on
/// both sides takes the place of the other two.
pub fn window_of(
    context: usize,
    before: usize,
    after: usize,
    max_results: Option<usize>,
) -> (r: Window)
    ensures
        r.before == (if context > 0 { context } else { before }),
        r.after == (if context > 0 { context } else { after }),
        r.max_results == max_results,
{
    Window {
        before: if context > 0 { context } else { before },
        after: if context > 0 { context } else { after },
        max_results,
    }
}

/// A line that was read, by number.
struct SeenLine {
    line_num: usize,
    raw_line: String,
    parsed: Option<serde_json::Value>,
}

/// What is known of a line that was read.
#[verifier::ext_equal]
pub struct SeenView {
    pub line_num: nat,
    pub raw_line: Seq<char>,
    pub parsed: Option<Json>,
}

impl SeenLine {
    spec fn view(&self) -> SeenView {
        SeenView {
            line_num: self.line_num as nat,
            raw_line: self.raw_line@,
            parsed: held_opt(self.parsed),
        }
    }
}

spec fn seen_views(v: Seq<SeenLine>) -> Seq<SeenView> {
    v.map_values(|l: SeenLine| l@)
}

/// The next line of a file, and how it is judged if it comes to that.
pub enum LineEvent {
    Unreadable,
    Read {
        raw: Seq<char>,
        parsed: Option<Json>,
        accepted: bool,
        failure: Option<Seq<char>>,
    },
}

/// Where a search stands.
#[verifier::ext_equal]
pub struct Scan {
    /// The lines gone through, read or not.
    pub total: nat,
    pub matched: nat,
    /// How often each level came up.
    pub levels: Seq<(Seq<char>, nat)>,
    /// How many of the next lines are shown as context.
    pub after_left: nat,
    /// The last lines read, at most as many as are shown before a match.
    pub recent: Seq<SeenView>,
    pub results: Seq<ResultView>,
    /// The messages of the queries that could not be answered.
    pub failures: Seq<Seq<char>>,
    /// The most matches have been found.
    pub stopped: bool,
}

/// The search before the first line: over already where no match is wanted.
pub open spec fn scan_start(w: Window) -> Scan {
    Scan {
        total: 0,
        matched: 0,
        levels: Seq::empty(),
        after_left: 0,
        recent: Seq::empty(),
        results: Seq::empty(),
        failures: Seq::empty(),
        stopped: limit_reached(w, 0),
    }
}

/// The last `n` of a list.
pub open spec fn last_n<T>(s: Seq<T>, n: nat) -> Seq<T> {
    if s.len() <= n {
        s
    } else {
        s.skip(s.len() - n)
    }
}

/// A line shown as context.
pub open spec fn as_context(file: PathView, line: SeenView) -> ResultView {
    ResultView {
        file,
        line_num: line.line_num,
        raw_line: line.raw_line,
        parsed: line.parsed,
        is_match: false,
        is_context: true,
    }
}

/// A line shown as a match.
pub open spec fn as_match(file: PathView, line: SeenView) -> ResultView {
    ResultView {
        file,
        line_num: line.line_num,
        raw_line: line.raw_line,
        parsed: line.parsed,
        is_match: true,
        is_context: false,
    }
}

/// Lines shown as context.
pub open spec fn as_contexts(file: PathView, lines: Seq<SeenView>) -> Seq<ResultView> {
    lines.map_values(|l: SeenView| as_context(file, l))
}

/// The text of the member under `key`, if it is a text.
pub open spec fn text_member(j: Json, key: Seq<char>) -> Option<Seq<char>> {
    match j.member(key) {
        Some(m) => m.as_text(),
        None => None,
    }
}

/// The level that an entry is counted under: its `level`, or its `severity`
/// where the level is no text.
pub open spec fn counted_level(parsed: Option<Json>) -> Option<Seq<char>> {
    match parsed {
        Some(j) => if text_member(j, "level"@) is Some {
            text_member(j, "level"@)
        } else {
            text_member(j, "severity"@)
        },
        None => None,
    }
}

/// The levels with one more line.
pub open spec fn with_level(
    levels: Seq<(Seq<char>, nat)>,
    parsed: Option<Json>,
) -> Seq<(Seq<char>, nat)> {
    match counted_level(parsed) {
        Some(l) => counted(levels, l, 1),
        None => levels,
    }
}

/// The search has found the most matches that are wanted.
pub open spec fn limit_reached(w: Window, matched: nat) -> bool {
    w.max_results matches Some(m) && matched >= m
}

/// The search after one more line.
///
/// A match is shown with the lines read just before it, and the search stops
/// there if that was the last match wanted. Any other line is shown where it is
/// within the context after a match.
pub open spec fn scan_step(file: PathView, w: Window, s: Scan, e: LineEvent) -> Scan {
    if s.stopped {
        s
    } else {
        match e {
            LineEvent::Unreadable => Scan { total: s.total + 1, ..s },
            LineEvent::Read { raw, parsed, accepted, failure } => {
                let line = SeenView { line_num: s.total + 1, raw_line: raw, parsed };
                let read = Scan {
                    total: s.total + 1,
                    levels: with_level(s.levels, parsed),
                    recent: last_n(s.recent.push(line), w.before as nat),
                    ..s
                };
                let judged = Scan {
                    failures: match failure {
                        Some(m) => s.failures.push(m),
                        None => s.failures,
                    },
                    ..read
                };
                if accepted {
                    Scan {
                        matched: s.matched + 1,
                        after_left: w.after as nat,
                        results: (s.results + as_contexts(file, s.recent)).push(
                            as_match(file, line),
                        ),
                        stopped: limit_reached(w, s.matched + 1),
                        ..judged
                    }
                } else if s.after_left > 0 {
                    Scan {
                        after_left: (s.after_left - 1) as nat,
                        results: s.results.push(as_context(file, line)),
                        ..judged
                    }
                } else {
                    judged
                }
            },
        }
    }
}

/// The search after all of `events`.
pub open spec fn scan(file: PathView, w: Window, events: Seq<LineEvent>) -> Scan
    decreases events.len(),
{
    if events.len() == 0 {
        scan_start(w)
    } else {
        scan_step(file, w, scan(file, w, events.drop_last()), events.last())
    }
}

/// What comes of a line at a reading of the clock: the line as it was read and
/// parsed, and how it is judged.
pub open spec fn line_event(
    line: Option<Seq<char>>,
    q: Seq<char>,
    since: Option<Seq<char>>,
    reading: Reading,
) -> LineEvent {
    match line {
        None => LineEvent::Unreadable,
        Some(l) => LineEvent::Read {
            raw: l,
            parsed: parsed_line(l),
            accepted: accepted_at(l, parsed_line(l), q, since, reading),
            failure: failure_at(l, parsed_line(l), q, reading),
        },
    }
}

/// `reading` can be what is read off the clock for a line.
pub open spec fn possible_line_reading(
    line: Option<Seq<char>>,
    q: Seq<char>,
    since: Option<Seq<char>>,
    reading: Reading,
) -> bool {
    match line {
        None => reading == nothing_read(),
        Some(l) => possible_reading(l, parsed_line(l), q, since, reading),
    }
}

/// A line can be judged, or need not be: one that cannot be read is passed over.
pub open spec fn line_judgeable(
    line: Option<Seq<char>>,
    q: Seq<char>,
    since: Option<Seq<char>>,
) -> bool {
    line matches Some(l) ==> judgeable(parsed_line(l), q, since)
}

/// The text of the member under `key`, if it is a text.
fn member_text<'a>(v: &'a serde_json::Value, key: &str) -> (r: Option<&'a str>)
    ensures
        r is Some <==> text_member(held(*v), key@) is Some,
        r matches Some(t) ==> text_member(held(*v), key@) == Some(t@),
{
    match member(v, key) {
        Some(m) => as_text(m),
        None => None,
    }
}

/// The level that an entry is counted under.
pub fn level_of(parsed: &Option<serde_json::Value>) -> (r: Option<String>)
    ensures
        r is Some <==> counted_level(held_opt(*parsed)) is Some,
        r matches Some(l) ==> counted_level(held_opt(*parsed)) == Some(l@),
{
    match parsed {
        Some(v) => {
            match member_text(v, "level") {
                Some(l) => Some(String::from_str(l)),
                None => match member_text(v, "severity") {
                    Some(l) => Some(String::from_str(l)),
                    None => None,
                },
            }
        },
        None => None,
    }
}

/// A search through the lines of one file.
pub struct FileSearch {
    file: LogPath,
    window: Window,
    after_left: usize,
    recent: Vec<SeenLine>,
    results: Vec<SearchResult>,
    stats: FileStats,
    failures: Vec<String>,
    stopped: bool,
}

impl FileSearch {
    pub closed spec fn view(&self) -> Scan {
        Scan {
            total: self.stats.total_lines as nat,
            matched: self.stats.matched_lines as nat,
            levels: self.stats.level_counts@,
            after_left: self.after_left as nat,
            recent: seen_views(self.recent@),
            results: result_views(self.results@),
            failures: texts(self.failures@),
            stopped: self.stopped,
        }
    }

    /// The file that is searched.
    pub closed spec fn path(&self) -> PathView {
        self.file@
    }

    /// How much is shown.
    pub closed spec fn shown(&self) -> Window {
        self.window
    }

    /// No more is counted than lines were gone through, and no more lines are
    /// kept than are shown before a match.
    pub open spec fn well_formed(&self) -> bool {
        &&& self@.matched <= self@.total
        &&& count_sum(self@.levels) <= self@.total
        &&& distinct_names(self@.levels)
        &&& self@.recent.len() <= self.shown().before
    }

    /// A search before the first line.
    pub fn new(file: LogPath, window: Window) -> (r: FileSearch)
        ensures
            r.well_formed(),
            r@ == scan_start(window),
            r.path() == file@,
            r.shown() == window,
    {
        let r = FileSearch {
            file,
            window,
            after_left: 0,
            recent: Vec::new(),
            results: Vec::new(),
            stats: FileStats { total_lines: 0, matched_lines: 0, level_counts: Tally::new() },
            failures: Vec::new(),
            stopped: match window.max_results {
                Some(max) => max == 0,
                None => false,
            },
        };
        assert(r@ =~= scan_start(window));
        r
    }

    /// Whether the search is over before the end of the file.
    pub fn is_stopped(&self) -> (r: bool)
        ensures
            r == self@.stopped,
    {
        self.stopped
    }

    /// The messages so far of queries that could not be answered.
    pub fn failures(&self) -> (r: &Vec<String>)
        ensures
            texts(r@) == self@.failures,
    {
        &self.failures
    }

    /// Goes past a line that cannot be read.
    pub fn pass_unreadable(&mut self)
        requires
            old(self).well_formed(),
            old(self)@.total < usize::MAX,
        ensures
            final(self).well_formed(),
            final(self).path() == old(self).path(),
            final(self).shown() == old(self).shown(),
            final(self)@ == scan_step(
                old(self).path(),
                old(self).shown(),
                old(self)@,
                LineEvent::Unreadable,
            ),
    {
        if !self.stopped {
            self.stats.total_lines = self.stats.total_lines + 1;
        }
    }

    fn remember(&mut self, line: SeenLine)
        requires
            old(self)@.recent.len() <= old(self).shown().before,
        ensures
            final(self).path() == old(self).path(),
            final(self).shown() == old(self).shown(),
            final(self)@ == (Scan {
                recent: last_n(old(self)@.recent.push(line@), old(self).shown().before as nat),
                ..old(self)@
            }),
            final(self)@.recent.len() <= final(self).shown().before,
    {
        let ghost before = self@;
        let ghost line_view = line@;
        self.recent.push(line);
        assert(seen_views(self.recent@) =~= before.recent.push(line_view));
        if self.recent.len() > self.window.before {
            let _dropped = self.recent.remove(0);
            assert(seen_views(self.recent@) =~= last_n(
                before.recent.push(line_view),
                self.window.before as nat,
            ));
        }
        assert(self@ =~= (Scan {
            recent: last_n(before.recent.push(line_view), self.window.before as nat),
            ..before
        }));
    }

    /// Shows the lines read just before a match.
    fn show_recent(&mut self)
        ensures
            final(self).path() == old(self).path(),
            final(self).shown() == old(self).shown(),
            final(self)@ == (Scan {
                results: old(self)@.results + as_contexts(old(self).path(), old(self)@.recent),
                ..old(self)@
            }),
    {
        let ghost before = self@;
        let ghost shown = as_contexts(self.file@, before.recent);
        let n: usize = self.recent.len();
        assert(before.results + shown.take(0) =~= before.results);
        for i in 0..n
            invariant
                n == self.recent@.len(),
                before.recent == seen_views(self.recent@),
                shown == as_contexts(self.file@, before.recent),
                self.path() == old(self).path(),
                self.shown() == old(self).shown(),
                self@ == (Scan { results: before.results + shown.take(i as int), ..before }),
        {
            let ghost so_far = self@.results;
            let line = &self.recent[i];
            let r = SearchResult {
                file: self.file.copy(),
                line_num: line.line_num,
                raw_line: line.raw_line.clone(),
                parsed: copy_opt(&line.parsed),
                is_match: false,
                is_context: true,
            };
            let ghost r_view = r@;
            assert(r_view =~= shown[i as int]);
            self.results.push(r);
            assert(result_views(self.results@) =~= so_far.push(r_view));
            assert(so_far.push(r_view) =~= before.results + shown.take(i + 1));
            assert(self@ =~= (Scan { results: before.results + shown.take(i + 1), ..before }));
        }
        assert(shown.take(n as int) =~= shown);
    }

    fn show(&mut self, line: &SeenLine, is_match: bool)
        ensures
            final(self).path() == old(self).path(),
            final(self).shown() == old(self).shown(),
            final(self)@ == (Scan {
                results: old(self)@.results.push(
                    if is_match {
                        as_match(old(self).path(), line@)
                    } else {
                        as_context(old(self).path(), line@)
                    },
                ),
                ..old(self)@
            }),
    {
        let ghost before = self@;
        let r = SearchResult {
            file: self.file.copy(),
            line_num: line.line_num,
            raw_line: line.raw_line.clone(),
            parsed: copy_opt(&line.parsed),
            is_match,
            is_context: !is_match,
        };
        let ghost r_view = r@;
        self.results.push(r);
        assert(result_views(self.results@) =~= before.results.push(r_view));
        assert(self@ =~= (Scan { results: before.results.push(r_view), ..before }));
    }

    fn count_level(&mut self, parsed: &Option<serde_json::Value>)
        requires
            count_sum(old(self)@.levels) < usize::MAX,
            distinct_names(old(self)@.levels),
        ensures
            final(self).path() == old(self).path(),
            final(self).shown() == old(self).shown(),
            final(self)@ == (Scan {
                levels: with_level(old(self)@.levels, held_opt(*parsed)),
                ..old(self)@
            }),
            distinct_names(final(self)@.levels),
            count_sum(final(self)@.levels) <= count_sum(old(self)@.levels) + 1,
    {
        let ghost before = self@;
        if let Some(level) = level_of(parsed) {
            proof {
                count_within_sum(self@.levels, level@);
                counted_adds(self@.levels, level@, 1);
            }
            self.stats.level_counts.add(level.as_str(), 1);
        }
        assert(self@ =~= (Scan {
            levels: with_level(before.levels, held_opt(*parsed)),
            ..before
        }));
    }

    /// Takes in a line that was read, parsed and judged.
    pub fn observe(
        &mut self,
        raw_line: String,
        parsed: Option<serde_json::Value>,
        judgement: Judgement,
    )
        requires
            old(self).well_formed(),
            old(self)@.total < usize::MAX,
        ensures
            final(self).well_formed(),
            final(self).path() == old(self).path(),
            final(self).shown() == old(self).shown(),
            final(self)@ == scan_step(
                old(self).path(),
                old(self).shown(),
                old(self)@,
                LineEvent::Read {
                    raw: raw_line@,
                    parsed: held_opt(parsed),
                    accepted: judgement.accepted,
                    failure: failure_view(judgement.failure),
                },
            ),
    {
        if self.stopped {
            return ;
        }
        let ghost before = self@;
        let ghost e = LineEvent::Read {
            raw: raw_line@,
            parsed: held_opt(parsed),
            accepted: judgement.accepted,
            failure: failure_view(judgement.failure),
        };
        let ghost after_e = scan_step(self.path(), self.shown(), before, e);
        self.stats.total_lines = self.stats.total_lines + 1;
        self.count_level(&parsed);
        let line = SeenLine { line_num: self.stats.total_lines, raw_line, parsed };
        if let Some(failure) = judgement.failure {
            let message = failure.message();
            let ghost so_far = texts(self.failures@);
            let ghost text = message@;
            self.failures.push(message);
            assert(texts(self.failures@) =~= so_far.push(text));
        }
        if judgement.accepted {
            self.stats.matched_lines = self.stats.matched_lines + 1;
            self.show_recent();
            self.show(&line, true);
            self.after_left = self.window.after;
            if let Some(max) = self.window.max_results {
                if self.stats.matched_lines >= max {
                    self.stopped = true;
                }
            }
        } else if self.after_left > 0 {
            self.after_left = self.after_left - 1;
            self.show(&line, false);
        }
        self.remember(line);
        assert(self@ =~= after_e);
    }

    /// Takes in the next line of the file, if it can be judged: parses it, judges
    /// it, and shows what there is to show. Says whether it was taken in; a search
    /// that is over takes in nothing more.
    pub fn feed(&mut self, line: Option<String>, query: &Query, since: &Option<Since>) -> (r: bool)
        requires
            old(self).well_formed(),
            old(self)@.total < usize::MAX,
        ensures
            final(self).well_formed(),
            final(self).path() == old(self).path(),
            final(self).shown() == old(self).shown(),
            r == (old(self)@.stopped || line_judgeable(
                line_view(line),
                query@,
                since_view(*since),
            )),
            old(self)@.stopped || !r ==> final(self)@ == old(self)@,
            !old(self)@.stopped && r ==> exists|reading: Reading|
                {
                    &&& #[trigger] possible_line_reading(
                        line_view(line),
                        query@,
                        since_view(*since),
                        reading,
                    )
                    &&& final(self)@ == scan_step(
                        old(self).path(),
                        old(self).shown(),
                        old(self)@,
                        line_event(line_view(line), query@, since_view(*since), reading),
                    )
                },
    {
        if self.stopped {
            return true;
        }
        match line {
            None => {
                self.pass_unreadable();
                assert(possible_line_reading(
                    line_view(line),
                    query@,
                    since_view(*since),
                    nothing_read(),
                ));
                true
            },
            Some(raw_line) => {
                let parsed = parse_log_line(raw_line.as_str());
                match judge_line(raw_line.as_str(), &parsed, query, since) {
                    Some(judgement) => {
                        let ghost accepted = judgement.accepted;
                        let ghost failure = failure_view(judgement.failure);
                        self.observe(raw_line, parsed, judgement);
                        proof {
                            let l = raw_line@;
                            let reading = choose|reading: Reading|
                                {
                                    &&& #[trigger] possible_reading(
                                        l,
                                        parsed_line(l),
                                        query@,
                                        since_view(*since),
                                        reading,
                                    )
                                    &&& accepted == accepted_at(
                                        l,
                                        parsed_line(l),
                                        query@,
                                        since_view(*since),
                                        reading,
                                    )
                                    &&& failure == failure_at(l, parsed_line(l), query@, reading)
                                };
                            assert(possible_line_reading(
                                line_view(line),
                                query@,
                                since_view(*since),
                                reading,
                            ));
                        }
                        true
                    },
                    None => false,
                }
            },
        }
    }

    /// The results and the statistics.
    pub fn finish(self) -> (r: (Vec<SearchResult>, FileStats))
        ensures
            result_views(r.0@) == self@.results,
            r.1.total_lines == self@.total,
            r.1.matched_lines == self@.matched,
            r.1.level_counts@ == self@.levels,
            self.well_formed() ==> r.1.well_formed(),
    {
        (self.results, self.stats)
    }
}

/// The text of a line, where it could be read.
pub open spec fn line_view(line: Option<String>) -> Option<Seq<char>> {
    match line {
        Some(l) => Some(l@),
        None => None,
    }
}

/// What a search of a whole file came to.
pub struct SearchOutcome {
    pub results: Vec<SearchResult>,
    pub stats: FileStats,
    pub failures: Vec<String>,
}

/// What comes of the first lines of a file, one for each reading of the clock.
pub open spec fn line_events(
    lines: Seq<Option<String>>,
    q: Seq<char>,
    since: Option<Seq<char>>,
    readings: Seq<Reading>,
) -> Seq<LineEvent> {
    Seq::new(
        readings.len(),
        |i: int| line_event(line_view(lines[i]), q, since, readings[i]),
    )
}

/// What a search comes to that goes through the first lines of a file, one for each
/// reading of the clock.
pub open spec fn search_at(
    file: PathView,
    w: Window,
    lines: Seq<Option<String>>,
    q: Seq<char>,
    since: Option<Seq<char>>,
    readings: Seq<Reading>,
) -> Scan {
    scan(file, w, line_events(lines, q, since, readings))
}

/// `readings` can be what is read off the clock for the first lines of a file.
pub open spec fn possible_readings(
    lines: Seq<Option<String>>,
    q: Seq<char>,
    since: Option<Seq<char>>,
    readings: Seq<Reading>,
) -> bool {
    &&& readings.len() <= lines.len()
    &&& forall|i: int|
        0 <= i < readings.len() ==> possible_line_reading(
            line_view(lines[i]),
            q,
            since,
            #[trigger] readings[i],
        )
}

/// `readings` can be what is read off the clock in a search that goes through the
/// lines of a file until it is stopped.
pub open spec fn is_search(
    file: PathView,
    w: Window,
    lines: Seq<Option<String>>,
    q: Seq<char>,
    since: Option<Seq<char>>,
    readings: Seq<Reading>,
) -> bool {
    &&& possible_readings(lines, q, since, readings)
    &&& readings.len() < lines.len() ==> search_at(file, w, lines, q, since, readings).stopped
}

/// A search with these readings has come to a line that it needs and that cannot be
/// judged.
pub open spec fn is_stuck(
    file: PathView,
    w: Window,
    lines: Seq<Option<String>>,
    q: Seq<char>,
    since: Option<Seq<char>>,
    readings: Seq<Reading>,
) -> bool {
    &&& possible_readings(lines, q, since, readings)
    &&& readings.len() < lines.len()
    &&& !search_at(file, w, lines, q, since, readings).stopped
    &&& !line_judgeable(line_view(lines[readings.len() as int]), q, since)
}

impl SearchOutcome {
    /// The outcome is what the search holds.
    pub open spec fn is_of(&self, s: Scan) -> bool {
        &&& result_views(self.results@) == s.results
        &&& self.stats.total_lines == s.total
        &&& self.stats.matched_lines == s.matched
        &&& self.stats.level_counts@ == s.levels
        &&& texts(self.failures@) == s.failures
    }
}

/// Searches the lines of a file; `None` stands for a line that cannot be read.
/// There is no outcome where the search needs a line that cannot be judged.
pub fn search_file(
    file: LogPath,
    lines: &Vec<Option<String>>,
    query: &Query,
    window: Window,
    since: &Option<Since>,
) -> (r: Option<SearchOutcome>)
    ensures
        r matches Some(o) ==> o.stats.well_formed() && exists|readings: Seq<Reading>|
            {
                &&& #[trigger] is_search(
                    file@,
                    window,
                    lines@,
                    query@,
                    since_view(*since),
                    readings,
                )
                &&& o.is_of(
                    search_at(file@, window, lines@, query@, since_view(*since), readings),
                )
            },
        r is None ==> exists|readings: Seq<Reading>| #[trigger]
            is_stuck(file@, window, lines@, query@, since_view(*since), readings),
        (forall|i: int|
            0 <= i < lines@.len() ==> line_judgeable(
                line_view(#[trigger] lines@[i]),
                query@,
                since_view(*since),
            )) ==> r is Some,
{
    let ghost path = file@;
    let ghost mut readings: Seq<Reading> = Seq::empty();
    let mut search = FileSearch::new(file, window);
    let mut i: usize = 0;
    assert(line_events(lines@, query@, since_view(*since), readings).len() == 0);
    while i < lines.len() && !search.is_stopped()
        invariant
            i <= lines@.len(),
            path == file@,
            search.well_formed(),
            search.path() == path,
            search.shown() == window,
            search@ == search_at(path, window, lines@, query@, since_view(*since), readings),
            search@.total <= i,
            readings.len() == i,
            possible_readings(lines@, query@, since_view(*since), readings),
        decreases lines@.len() - i,
    {
        let ghost before = search@;
        let line = match &lines[i] {
            Some(l) => Some(l.clone()),
            None => None,
        };
        assert(line_view(line) == line_view(lines@[i as int]));
        if !search.feed(line, query, since) {
            assert(is_stuck(path, window, lines@, query@, since_view(*since), readings));
            return None;
        }
        proof {
            let since = since_view(*since);
            let reading = choose|reading: Reading|
                {
                    &&& #[trigger] possible_line_reading(line_view(line), query@, since, reading)
                    &&& search@ == scan_step(
                        path,
                        window,
                        before,
                        line_event(line_view(line), query@, since, reading),
                    )
                };
            let longer = readings.push(reading);
            assert(line_events(lines@, query@, since, longer).drop_last() =~= line_events(
                lines@,
                query@,
                since,
                readings,
            ));
            assert forall|k: int| 0 <= k < longer.len() implies possible_line_reading(
                line_view(lines@[k]),
                query@,
                since,
                #[trigger] longer[k],
            ) by {
                if k < i {
                    assert(readings[k] == longer[k]);
                }
            }
            readings = longer;
        }
        i += 1;
    }
    assert(is_search(path, window, lines@, query@, since_view(*since), readings));
    Some(
        SearchOutcome {
            results: search.results,
            stats: search.stats,
            failures: search.failures,
        },
    )
}

} // verus!
