//! Following files as they grow.

use crate::json::{parse_log_line, parsed_line};
use crate::paint::{
    bare_text, line_views, plain, span, span_views, styled, Span, SpanView, Style,
};
use crate::paths::{same_path, LogPath, PathView};
use crate::query::{
    answered, evaluated, failure_view, judge_line, judgeable, judgement_is_settled,
    possible_judgement, settled, text_hit, Query, Since,
};
use crate::search::last_n;
use crate::text::{filler, lower, pad_end, same_text, texts, to_lower, trim_end, trimmed_end};
use vstd::prelude::*;
use vstd::string::StrSliceExecFns;
use vstd::string::StringExecFns;

verus! {

/// The lines of a file that are kept for context where no more are wanted.
pub const LEAST_KEPT: usize = 100;

/// How many lines of a file are kept where `before` are shown before a match.
pub open spec fn most_kept(before: nat) -> nat {
    if before > LEAST_KEPT {
        before
    } else {
        LEAST_KEPT as nat
    }
}

/// A file that is followed: how far it has been read, and its last lines.
struct Watched {
    path: LogPath,
    position: u64,
    recent: Vec<String>,
}

/// What is known of a file that is followed.
#[verifier::ext_equal]
pub struct WatchedView {
    pub path: PathView,
    pub position: u64,
    pub recent: Seq<Seq<char>>,
}

impl Watched {
    spec fn view(&self) -> WatchedView {
        WatchedView { path: self.path@, position: self.position, recent: texts(self.recent@) }
    }
}

spec fn watched_views(v: Seq<Watched>) -> Seq<WatchedView> {
    v.map_values(|w: Watched| w@)
}

/// No path is followed twice.
pub open spec fn distinct_paths(v: Seq<WatchedView>) -> bool {
    forall|i: int, j: int|
        0 <= i < j < v.len() ==> (#[trigger] v[i]).path.parts != (#[trigger] v[j]).path.parts
}

/// No more lines are kept than may be.
pub open spec fn few_kept(v: Seq<WatchedView>, before: nat) -> bool {
    forall|i: int| 0 <= i < v.len() ==> (#[trigger] v[i]).recent.len() <= most_kept(before)
}

/// A file as it is when it is first followed: read up to where it ends, or not
/// at all where its length is not known.
pub open spec fn watch_start(path: PathView, len: Option<u64>) -> WatchedView {
    WatchedView {
        path,
        position: match len {
            Some(n) => n,
            None => 0,
        },
        recent: Seq::empty(),
    }
}

/// Where a file that has grown is read from.
pub open spec fn unread_from(position: u64, len: u64) -> Option<u64> {
    if len > position {
        Some(position)
    } else {
        None
    }
}

/// How far a file has been read once it was looked at.
pub open spec fn read_up_to(position: u64, len: u64) -> u64 {
    if len > position {
        len
    } else {
        position
    }
}

/// The tag of a line: the file that it is from.
pub open spec fn file_tag(name: Seq<char>) -> Seq<char> {
    "["@ + name + "]"@
}

/// A line shown before a match.
pub open spec fn watch_context(name: Seq<char>, line: Seq<char>) -> Seq<SpanView> {
    seq![
        styled(Style::CyanDimmed, file_tag(name)),
        plain(" "@),
        styled(Style::Dimmed, "\u{2502}"@),
        plain(" "@),
        styled(Style::Dimmed, line),
    ]
}

/// `term` stands in `line` at position `i`, upper and lower case taken as one.
pub open spec fn term_at(line: Seq<char>, term: Seq<char>, i: int) -> bool {
    &&& 0 <= i
    &&& i + term.len() <= line.len()
    &&& lower(line.subrange(i, i + term.len())) == lower(term)
}

/// The end of a line from `start` on, with `term` highlighted wherever it stands at
/// or after `i`.
pub open spec fn highlighted_from(
    line: Seq<char>,
    term: Seq<char>,
    start: int,
    i: int,
) -> Seq<SpanView>
    decreases line.len() - i,
{
    if i >= line.len() || term.len() == 0 {
        seq![plain(line.subrange(start, line.len() as int))]
    } else if term_at(line, term, i) {
        let end = i + term.len();
        seq![plain(line.subrange(start, i)), styled(Style::Yellow, line.subrange(i, end))]
            + highlighted_from(line, term, end, end)
    } else {
        highlighted_from(line, term, start, i + 1)
    }
}

/// A line with `term` highlighted wherever it stands.
pub open spec fn highlighted(line: Seq<char>, term: Seq<char>) -> Seq<SpanView> {
    highlighted_from(line, term, 0, 0)
}

/// A line shown as a match, with `term` highlighted.
pub open spec fn watch_match(
    name: Seq<char>,
    line: Seq<char>,
    term: Seq<char>,
) -> Seq<SpanView> {
    seq![
        styled(Style::Cyan, file_tag(name)),
        plain(" "@),
        styled(Style::Green, "\u{25b6}"@),
        plain(" "@),
    ] + highlighted(line, term)
}

/// Lines shown before a match.
pub open spec fn watch_contexts(name: Seq<char>, lines: Seq<Seq<char>>) -> Seq<Seq<SpanView>> {
    lines.map_values(|l: Seq<char>| watch_context(name, l))
}

/// What is shown for a new line: nothing for an empty or a rejected one, and an
/// accepted one behind the lines that came just before it.
pub open spec fn watch_output(
    recent: Seq<Seq<char>>,
    name: Seq<char>,
    line: Seq<char>,
    accepted: bool,
    before: nat,
    term: Seq<char>,
) -> Seq<Seq<SpanView>> {
    let shown = trimmed_end(line);
    if shown.len() == 0 || !accepted {
        Seq::empty()
    } else {
        watch_contexts(name, last_n(recent, before)).push(watch_match(name, shown, term))
    }
}

/// The term that is highlighted: the query, where that is wanted.
pub open spec fn highlight_term(query: Option<Seq<char>>, highlight: bool) -> Seq<char> {
    match query {
        Some(q) => if highlight { q } else { Seq::empty() },
        None => Seq::empty(),
    }
}

/// The last lines of a file after a new one: an empty one is not kept.
pub open spec fn kept_lines(
    recent: Seq<Seq<char>>,
    line: Seq<char>,
    before: nat,
) -> Seq<Seq<char>> {
    let shown = trimmed_end(line);
    if shown.len() == 0 {
        recent
    } else {
        last_n(recent.push(shown), most_kept(before))
    }
}

/// `accepted` is what a new line can be judged: everything is wanted where
/// there is no query.
pub open spec fn watch_judgement(
    line: Seq<char>,
    query: Option<Seq<char>>,
    accepted: bool,
) -> bool {
    match query {
        None => accepted,
        Some(q) => answers(line, q, accepted),
    }
}

/// `accepted` is what a new line can be judged by a query.
pub open spec fn answers(line: Seq<char>, q: Seq<char>, accepted: bool) -> bool {
    exists|failure: Option<Seq<char>>| #[trigger]
        possible_judgement(line, parsed_line(line), q, None, accepted, failure)
}

/// The text of an optional query.
pub open spec fn query_view(query: Option<Query>) -> Option<Seq<char>> {
    match query {
        Some(q) => Some(q@),
        None => None,
    }
}

/// A new line can be judged, or need not be: an empty one is passed over, and
/// everything is wanted where there is no query.
pub open spec fn watch_judgeable(line: Seq<char>, query: Option<Seq<char>>) -> bool {
    trimmed_end(line).len() > 0 ==> (query matches Some(q) ==> judgeable(
        parsed_line(trimmed_end(line)),
        q,
        None,
    ))
}

/// The files that are followed, and how many lines are shown before a match.
pub struct WatchList {
    files: Vec<Watched>,
    before: usize,
}

impl WatchList {
    pub closed spec fn view(&self) -> Seq<WatchedView> {
        watched_views(self.files@)
    }

    /// How many lines are shown before a match.
    pub closed spec fn shown_before(&self) -> nat {
        self.before as nat
    }

    /// Each path is followed once, and no more of its lines are kept than may be.
    pub open spec fn well_formed(&self) -> bool {
        distinct_paths(self@) && few_kept(self@, self.shown_before())
    }

    /// No files, with `before` lines shown before a match.
    pub fn new(before: usize) -> (r: WatchList)
        ensures
            r.well_formed(),
            r@ == Seq::<WatchedView>::empty(),
            r.shown_before() == before,
    {
        let r = WatchList { files: Vec::new(), before };
        assert(r@ =~= Seq::<WatchedView>::empty());
        r
    }

    /// Follows a file from where it ends, and says under which number. A path
    /// that is followed already keeps its number and starts anew.
    pub fn add(&mut self, path: &LogPath, len: Option<u64>) -> (r: usize)
        requires
            old(self).well_formed(),
        ensures
            final(self).well_formed(),
            final(self).shown_before() == old(self).shown_before(),
            r < final(self)@.len(),
            (exists|i: int|
                0 <= i < old(self)@.len() && (#[trigger] old(self)@[i]).path.parts == path@.parts)
                ==> r < old(self)@.len() && old(self)@[r as int].path.parts == path@.parts
                && final(self)@ == old(self)@.update(r as int, watch_start(path@, len)),
            (forall|i: int|
                0 <= i < old(self)@.len() ==> (#[trigger] old(self)@[i]).path.parts
                    != path@.parts) ==> r == old(self)@.len() && final(self)@ == old(self)@.push(
                watch_start(path@, len),
            ),
    {
        let ghost before = self@;
        let position: u64 = match len {
            Some(n) => n,
            None => 0,
        };
        let w = Watched { path: path.copy(), position, recent: Vec::new() };
        assert(w@ =~= watch_start(path@, len));
        let n: usize = self.files.len();
        for i in 0..n
            invariant
                n == self.files@.len(),
                self@ == before,
                before == old(self)@,
                distinct_paths(before),
                few_kept(before, self.shown_before()),
                self.shown_before() == old(self).shown_before(),
                w@ == watch_start(path@, len),
                forall|k: int| 0 <= k < i ==> (#[trigger] before[k]).path.parts != path@.parts,
        {
            assert(before[i as int] == self.files@[i as int]@);
            if same_path(&self.files[i].path, path) {
                self.files.set(i, w);
                assert(self@ =~= before.update(i as int, watch_start(path@, len)));
                return i;
            }
        }
        self.files.push(w);
        assert(self@ =~= before.push(watch_start(path@, len)));
        n
    }

    /// Looks at a file of the given length: says where to read it from if it
    /// has grown, and takes it as read up to its end.
    pub fn poll(&mut self, slot: usize, len: u64) -> (r: Option<u64>)
        requires
            old(self).well_formed(),
            slot < old(self)@.len(),
        ensures
            final(self).well_formed(),
            final(self).shown_before() == old(self).shown_before(),
            r == unread_from(old(self)@[slot as int].position, len),
            final(self)@ == old(self)@.update(
                slot as int,
                WatchedView {
                    position: read_up_to(old(self)@[slot as int].position, len),
                    ..old(self)@[slot as int]
                },
            ),
    {
        let ghost before = self@;
        assert(before[slot as int] == self.files@[slot as int]@);
        let position: u64 = self.files[slot].position;
        if len > position {
            self.files[slot].position = len;
            assert(self@ =~= before.update(
                slot as int,
                WatchedView { position: len, ..before[slot as int] },
            ));
            Some(position)
        } else {
            assert(self@ =~= before.update(slot as int, before[slot as int]));
            None
        }
    }

    /// Takes in a new line of a file, judged already, and lays out what is to
    /// be shown. `name` is how the file is called, and `term` is highlighted.
    pub fn take_line(
        &mut self,
        slot: usize,
        name: &str,
        line: &str,
        accepted: bool,
        term: &str,
    ) -> (r: Vec<Vec<Span>>)
        requires
            old(self).well_formed(),
            slot < old(self)@.len(),
        ensures
            final(self).well_formed(),
            final(self).shown_before() == old(self).shown_before(),
            line_views(r@) == watch_output(
                old(self)@[slot as int].recent,
                name@,
                line@,
                accepted,
                old(self).shown_before(),
                term@,
            ),
            final(self)@ == old(self)@.update(
                slot as int,
                WatchedView {
                    recent: kept_lines(
                        old(self)@[slot as int].recent,
                        line@,
                        old(self).shown_before(),
                    ),
                    ..old(self)@[slot as int]
                },
            ),
    {
        let ghost views = self@;
        let ghost recent = views[slot as int].recent;
        assert(views[slot as int] == self.files@[slot as int]@);
        let before: usize = self.before;
        let mut out: Vec<Vec<Span>> = Vec::new();
        let shown = trim_end(line);
        if shown.is_empty() {
            assert(line_views(out@) =~= Seq::<Seq<SpanView>>::empty());
            assert(views =~= views.update(slot as int, views[slot as int]));
            return out;
        }
        if accepted {
            let w = &self.files[slot];
            let n: usize = w.recent.len();
            let from: usize = if n > before { n - before } else { 0 };
            assert(last_n(recent, before as nat) =~= recent.skip(from as int));
            assert(line_views(out@) =~= watch_contexts(
                name@,
                recent.subrange(from as int, from as int),
            ));
            for k in from..n
                invariant
                    from <= n,
                    n == w.recent@.len(),
                    recent == texts(w.recent@),
                    line_views(out@) == watch_contexts(
                        name@,
                        recent.subrange(from as int, k as int),
                    ),
            {
                let ghost so_far = line_views(out@);
                let l = context_line(name, w.recent[k].as_str());
                let ghost l_view = span_views(l@);
                out.push(l);
                assert(line_views(out@) =~= so_far.push(l_view));
                assert(recent.subrange(from as int, k + 1) =~= recent.subrange(
                    from as int,
                    k as int,
                ).push(recent[k as int]));
                assert(line_views(out@) =~= watch_contexts(
                    name@,
                    recent.subrange(from as int, k + 1),
                ));
            }
            assert(recent.subrange(from as int, n as int) =~= recent.skip(from as int));
            let ghost so_far = line_views(out@);
            out.push(match_line(name, shown, term));
            assert(line_views(out@) =~= so_far.push(watch_match(name@, shown@, term@)));
        } else {
            assert(line_views(out@) =~= Seq::<Seq<SpanView>>::empty());
        }
        let text: String = String::from_str(shown);
        let ghost text_view = text@;
        self.files[slot].recent.push(text);
        assert(texts(self.files@[slot as int].recent@) =~= recent.push(text_view));
        let most: usize = if before > LEAST_KEPT { before } else { LEAST_KEPT };
        if self.files[slot].recent.len() > most {
            let _oldest = self.files[slot].recent.remove(0);
            assert(texts(self.files@[slot as int].recent@) =~= recent.push(text_view).skip(1));
        }
        assert(texts(self.files@[slot as int].recent@) =~= kept_lines(
            recent,
            line@,
            before as nat,
        ));
        assert(self@ =~= views.update(
            slot as int,
            WatchedView {
                recent: kept_lines(recent, line@, before as nat),
                ..views[slot as int]
            },
        ));
        out
    }

    /// Takes in a new line of a file, if it can be judged: parses it, puts it to the
    /// query, and lays out what is to be shown. The query is highlighted in it where
    /// that is wanted.
    pub fn observe(
        &mut self,
        slot: usize,
        name: &str,
        line: &str,
        query: &Option<Query>,
        highlight: bool,
    ) -> (r: Option<Vec<Vec<Span>>>)
        requires
            old(self).well_formed(),
            slot < old(self)@.len(),
        ensures
            final(self).well_formed(),
            final(self).shown_before() == old(self).shown_before(),
            r is Some <==> watch_judgeable(line@, query_view(*query)),
            r is None ==> final(self)@ == old(self)@,
            r matches Some(out) ==> exists|accepted: bool|
                {
                    &&& trimmed_end(line@).len() == 0 || watch_judgement(
                        trimmed_end(line@),
                        query_view(*query),
                        accepted,
                    )
                    &&& line_views(out@) == #[trigger] watch_output(
                        old(self)@[slot as int].recent,
                        name@,
                        line@,
                        accepted,
                        old(self).shown_before(),
                        highlight_term(query_view(*query), highlight),
                    )
                },
            r is Some ==> final(self)@ == old(self)@.update(
                slot as int,
                WatchedView {
                    recent: kept_lines(
                        old(self)@[slot as int].recent,
                        line@,
                        old(self).shown_before(),
                    ),
                    ..old(self)@[slot as int]
                },
            ),
    {
        let shown = trim_end(line);
        let accepted: bool = if shown.is_empty() {
            false
        } else {
            match is_wanted(shown, query) {
                Some(b) => b,
                None => {
                    return None;
                },
            }
        };
        let term = match query {
            Some(q) => if highlight {
                q.text()
            } else {
                ""
            },
            None => "",
        };
        proof {
            reveal_strlit("");
            assert(""@ =~= Seq::<char>::empty());
        }
        let ghost before = *self;
        let out = self.take_line(slot, name, line, accepted, term);
        assert(term@ == highlight_term(query_view(*query), highlight));
        assert(line_views(out@) == watch_output(
            before@[slot as int].recent,
            name@,
            line@,
            accepted,
            before.shown_before(),
            highlight_term(query_view(*query), highlight),
        ));
        Some(out)
    }
}

/// Puts a line to a query, if it can be judged; everything is wanted where there
/// is none.
fn is_wanted(line: &str, query: &Option<Query>) -> (r: Option<bool>)
    ensures
        r is Some <==> (query_view(*query) matches Some(q) ==> judgeable(
            parsed_line(line@),
            q,
            None,
        )),
        r matches Some(b) ==> watch_judgement(line@, query_view(*query), b),
{
    match query {
        None => Some(true),
        Some(q) => {
            let parsed = parse_log_line(line);
            let no_filter: Option<Since> = None;
            match judge_line(line, &parsed, q, &no_filter) {
                Some(judgement) => {
                    assert(possible_judgement(
                        line@,
                        parsed_line(line@),
                        q@,
                        None,
                        judgement.accepted,
                        failure_view(judgement.failure),
                    ));
                    assert(answers(line@, q@, judgement.accepted));
                    Some(judgement.accepted)
                },
                None => None,
            }
        },
    }
}

fn tag(name: &str) -> (r: String)
    ensures
        r@ == file_tag(name@),
{
    String::from_str("[").concat(name).concat("]")
}

fn context_line(name: &str, line: &str) -> (r: Vec<Span>)
    ensures
        span_views(r@) == watch_context(name@, line@),
{
    let mut r: Vec<Span> = Vec::new();
    r.push(span(Style::CyanDimmed, tag(name).as_str()));
    r.push(span(Style::Plain, " "));
    r.push(span(Style::Dimmed, "\u{2502}"));
    r.push(span(Style::Plain, " "));
    r.push(span(Style::Dimmed, line));
    assert(span_views(r@) =~= watch_context(name@, line@));
    r
}

/// Adds a line to a row of spans, with `term` highlighted wherever it stands.
fn push_highlighted(r: &mut Vec<Span>, line: &str, term: &str)
    ensures
        span_views(final(r)@) == span_views(old(r)@) + highlighted(line@, term@),
{
    let ghost before = span_views(r@);
    let n: usize = line.unicode_len();
    let m: usize = term.unicode_len();
    if m == 0 {
        r.push(span(Style::Plain, line));
        proof {
            assert(line@.subrange(0, line@.len() as int) =~= line@);
            assert(span_views(r@) =~= before + highlighted(line@, term@));
        }
        return ;
    }
    let lowered = to_lower(term);
    let mut start: usize = 0;
    let mut i: usize = 0;
    while i < n
        invariant
            n == line@.len(),
            m == term@.len(),
            m > 0,
            lowered@ == lower(term@),
            start <= i <= n,
            before + highlighted(line@, term@) == span_views(r@) + highlighted_from(
                line@,
                term@,
                start as int,
                i as int,
            ),
        decreases n - i,
    {
        let ghost so_far = span_views(r@);
        let hit: bool = n - i >= m && same_text(
            to_lower(line.substring_char(i, i + m)).as_str(),
            lowered.as_str(),
        );
        if hit {
            r.push(span(Style::Plain, line.substring_char(start, i)));
            r.push(span(Style::Yellow, line.substring_char(i, i + m)));
            proof {
                let pair = seq![
                    plain(line@.subrange(start as int, i as int)),
                    styled(Style::Yellow, line@.subrange(i as int, i + m)),
                ];
                let rest = highlighted_from(line@, term@, i + m, i + m);
                assert(span_views(r@) =~= so_far + pair);
                assert(so_far + (pair + rest) =~= (so_far + pair) + rest);
            }
            i = i + m;
            start = i;
        } else {
            i += 1;
        }
    }
    let ghost so_far = span_views(r@);
    r.push(span(Style::Plain, line.substring_char(start, n)));
    assert(span_views(r@) =~= so_far + highlighted_from(line@, term@, start as int, n as int));
}

fn match_line(name: &str, line: &str, term: &str) -> (r: Vec<Span>)
    ensures
        span_views(r@) == watch_match(name@, line@, term@),
{
    let mut r: Vec<Span> = Vec::new();
    r.push(span(Style::Cyan, tag(name).as_str()));
    r.push(span(Style::Plain, " "));
    r.push(span(Style::Green, "\u{25b6}"));
    r.push(span(Style::Plain, " "));
    let ghost head = seq![
        styled(Style::Cyan, file_tag(name@)),
        plain(" "@),
        styled(Style::Green, "\u{25b6}"@),
        plain(" "@),
    ];
    assert(span_views(r@) =~= head);
    push_highlighted(&mut r, line, term);
    r
}

// ---------------------------------------------------------------------------
// Laws
// ---------------------------------------------------------------------------

/// How far a file has been read after it was looked at with these lengths.
pub open spec fn read_after(position: u64, looks: Seq<u64>) -> u64
    decreases looks.len(),
{
    if looks.len() == 0 {
        position
    } else {
        read_up_to(read_after(position, looks.drop_last()), looks.last())
    }
}

/// How often the byte at `at` is read while a file is looked at with these lengths.
pub open spec fn times_read(position: u64, looks: Seq<u64>, at: int) -> nat
    decreases looks.len(),
{
    if looks.len() == 0 {
        0
    } else {
        let p = read_after(position, looks.drop_last());
        times_read(position, looks.drop_last(), at) + match unread_from(p, looks.last()) {
            Some(from) => if from <= at < looks.last() { 1nat } else { 0 },
            None => 0,
        }
    }
}

/// However often a file is looked at, nothing before the first position is read,
/// and everything from there on is read once, up to the greatest length seen.
pub proof fn everything_is_read_once(position: u64, looks: Seq<u64>, at: int)
    ensures
        times_read(position, looks, at) == (if position <= at < read_after(position, looks) {
            1nat
        } else {
            0
        }),
        read_after(position, looks) >= position,
        forall|i: int|
            0 <= i < looks.len() ==> #[trigger] looks[i] <= read_after(position, looks),
        read_after(position, looks) == position || looks.contains(read_after(position, looks)),
    decreases looks.len(),
{
    if looks.len() > 0 {
        let init = looks.drop_last();
        everything_is_read_once(position, init, at);
        let p = read_after(position, init);
        assert forall|i: int| 0 <= i < looks.len() implies #[trigger] looks[i] <= read_after(
            position,
            looks,
        ) by {
            if i < init.len() {
                assert(init[i] == looks[i]);
            }
        }
        if looks.last() > p {
            assert(looks[looks.len() - 1] == read_after(position, looks));
        } else if p != position {
            let k = init.index_of(p);
            assert(looks[k] == p);
        }
    }
}

/// A file that has not grown, or has become shorter, is left alone.
pub proof fn shorter_file_is_not_read(position: u64, len: u64)
    requires
        len <= position,
    ensures
        unread_from(position, len) is None,
        read_up_to(position, len) == position,
{
}

/// The lines of `lines` that are kept for context.
pub open spec fn kept_of(lines: Seq<Seq<char>>, before: nat) -> Seq<Seq<char>>
    decreases lines.len(),
{
    if lines.len() == 0 {
        Seq::empty()
    } else {
        kept_lines(kept_of(lines.drop_last(), before), lines.last(), before)
    }
}

/// The lines of `lines` that are not empty, without the white space at their
/// ends.
pub open spec fn filled_lines(lines: Seq<Seq<char>>) -> Seq<Seq<char>>
    decreases lines.len(),
{
    if lines.len() == 0 {
        Seq::empty()
    } else {
        let rest = filled_lines(lines.drop_last());
        let shown = trimmed_end(lines.last());
        if shown.len() == 0 {
            rest
        } else {
            rest.push(shown)
        }
    }
}

/// What is kept for context are the last lines that are not empty, whether they
/// were shown or not.
pub proof fn kept_are_the_last_filled(lines: Seq<Seq<char>>, before: nat)
    ensures
        kept_of(lines, before) == last_n(filled_lines(lines), most_kept(before)),
    decreases lines.len(),
{
    if lines.len() > 0 {
        let init = lines.drop_last();
        let n = most_kept(before);
        kept_are_the_last_filled(init, before);
        let shown = trimmed_end(lines.last());
        if shown.len() > 0 {
            let all = filled_lines(init);
            assert(last_n(last_n(all, n).push(shown), n) =~= last_n(all.push(shown), n));
        }
    }
}

/// A match is shown behind as many of the lines before it that are not empty as
/// are wanted, the nearest ones, and all of them where there are fewer.
pub proof fn match_is_shown_with_the_lines_before(
    lines: Seq<Seq<char>>,
    name: Seq<char>,
    line: Seq<char>,
    before: nat,
    term: Seq<char>,
)
    requires
        trimmed_end(line).len() > 0,
    ensures
        watch_output(kept_of(lines, before), name, line, true, before, term) == watch_contexts(
            name,
            last_n(filled_lines(lines), before),
        ).push(watch_match(name, trimmed_end(line), term)),
{
    kept_are_the_last_filled(lines, before);
    let all = filled_lines(lines);
    assert(last_n(last_n(all, most_kept(before)), before) =~= last_n(all, before));
}

/// Without a query every line that is not empty is shown.
pub proof fn everything_is_shown_without_a_query(
    recent: Seq<Seq<char>>,
    name: Seq<char>,
    line: Seq<char>,
    accepted: bool,
    before: nat,
    term: Seq<char>,
)
    requires
        trimmed_end(line).len() > 0,
        watch_judgement(trimmed_end(line), None, accepted),
    ensures
        watch_output(recent, name, line, accepted, before, term).last() == watch_match(
            name,
            trimmed_end(line),
            term,
        ),
{
}

/// Where a query does not ask the clock, which lines are shown is settled: an entry
/// whose answer to the query is yes, and plain text in which the query stands.
pub proof fn watched_lines_are_settled(line: Seq<char>, q: Seq<char>, accepted: bool)
    requires
        settled(q),
        watch_judgement(line, Some(q), accepted),
    ensures
        accepted == (match parsed_line(line) {
            Some(j) => evaluated(j, line, q) == answered(true),
            None => text_hit(line, q),
        }),
{
    let failure = choose|failure: Option<Seq<char>>| #[trigger]
        possible_judgement(line, parsed_line(line), q, None, accepted, failure);
    judgement_is_settled(line, parsed_line(line), q, None, accepted, failure);
}

/// Highlighting changes no text.
pub proof fn highlighting_keeps_the_text(line: Seq<char>, term: Seq<char>)
    ensures
        bare_text(highlighted(line, term)) == line,
{
    highlighted_text(line, term, 0, 0);
    assert(line.subrange(0, line.len() as int) =~= line);
}

proof fn unpadded(s: Seq<char>)
    ensures
        pad_end(s, 0) == s,
{
    assert(filler(s, 0) =~= Seq::<char>::empty());
    assert(pad_end(s, 0) =~= s);
}

proof fn bare_text_of_one(s: SpanView)
    requires
        s.width == 0,
    ensures
        bare_text(seq![s]) == s.text,
{
    unpadded(s.text);
    let line = seq![s];
    assert(line.drop_last() =~= Seq::<SpanView>::empty());
    assert(line.last() == s);
    assert(bare_text(line.drop_last()) =~= Seq::<char>::empty());
    assert(bare_text(line) =~= s.text);
}

proof fn bare_text_joins(a: Seq<SpanView>, b: Seq<SpanView>)
    ensures
        bare_text(a + b) == bare_text(a) + bare_text(b),
    decreases b.len(),
{
    if b.len() == 0 {
        assert(a + b =~= a);
        assert(bare_text(a) + bare_text(b) =~= bare_text(a));
    } else {
        assert((a + b).drop_last() =~= a + b.drop_last());
        bare_text_joins(a, b.drop_last());
        assert(bare_text(a + b) =~= bare_text(a) + bare_text(b));
    }
}

proof fn highlighted_text(line: Seq<char>, term: Seq<char>, start: int, i: int)
    requires
        0 <= start <= i <= line.len(),
    ensures
        bare_text(highlighted_from(line, term, start, i)) == line.subrange(
            start,
            line.len() as int,
        ),
    decreases line.len() - i,
{
    if i >= line.len() || term.len() == 0 {
        bare_text_of_one(plain(line.subrange(start, line.len() as int)));
    } else if term_at(line, term, i) {
        let end = i + term.len();
        let a = plain(line.subrange(start, i));
        let b = styled(Style::Yellow, line.subrange(i, end));
        let rest = highlighted_from(line, term, end, end);
        highlighted_text(line, term, end, end);
        bare_text_of_one(a);
        bare_text_of_one(b);
        bare_text_joins(seq![a], seq![b]);
        assert(seq![a] + seq![b] =~= seq![a, b]);
        bare_text_joins(seq![a, b], rest);
        assert(line.subrange(start, i) + line.subrange(i, end) + line.subrange(
            end,
            line.len() as int,
        ) =~= line.subrange(start, line.len() as int));
    } else {
        highlighted_text(line, term, start, i + 1);
    }
}

} // verus!
