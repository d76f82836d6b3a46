//! How results are shown.

use crate::json::{
    as_text, distinct_keys, held, held_opt, json_text, member, number_value, object_of, object_value,
    parsed_line, reads_back, text_value, to_text, whole_number, whole_tree, Json, DEEPEST,
};
use crate::paint::{
    bare_text, line_views, no_escape, no_escapes, plain, render, rendering, spaces_hold_no_escape, span,
    span_views, styled, styling_keeps_the_text, without_controls, Span, SpanView, Style,
};
use crate::paths::{same_path, LogPath, PathView};
use crate::search::{counted_level, result_views, text_member, ResultView, SearchResult};
use crate::text::{
    contains, decimal, filler, has_piece, lower, pad_start, right_column, same_text, to_decimal,
    to_lower, to_upper, upper,
};
use vstd::prelude::*;
use vstd::string::StringExecFns;

verus! {

/// The forms of output.
#[derive(Clone, Copy, Debug, PartialEq, Eq, Structural)]
pub enum OutputFormat {
    /// Coloured text for people.
    Text,
    /// One JSON value for each result.
    Json,
    /// The lines as they were read.
    Raw,
}

/// The style of a line by its level, in lower case.
pub open spec fn level_style(level: Seq<char>) -> Style {
    if level == "fatal"@ || level == "critical"@ || level == "emerg"@ || level == "emergency"@ {
        Style::WhiteOnRedBold
    } else if level == "error"@ || level == "err"@ {
        Style::Red
    } else if level == "warn"@ || level == "warning"@ {
        Style::Yellow
    } else if level == "info"@ {
        Style::Green
    } else if level == "debug"@ || level == "trace"@ {
        Style::Dimmed
    } else {
        Style::Plain
    }
}

/// The level that an entry is coloured by: its `level`, or its `severity`
/// where it has no level; nothing where that is no text.
pub open spec fn coloured_level(j: Json) -> Seq<char> {
    let found = match j.member("level"@) {
        Some(m) => Some(m),
        None => j.member("severity"@),
    };
    match found {
        Some(m) => match m.as_text() {
            Some(t) => t,
            None => ""@,
        },
        None => ""@,
    }
}

/// The style of a line of plain text, by the words in it, upper and lower case
/// taken as one.
pub open spec fn words_style(raw: Seq<char>) -> Style {
    let u = upper(raw);
    if has_piece(u, "FATAL"@) || has_piece(u, "CRITICAL"@) || has_piece(u, "EMERGENCY"@) {
        Style::WhiteOnRedBold
    } else if has_piece(u, "ERROR"@) {
        Style::Red
    } else if has_piece(u, "WARN"@) {
        Style::Yellow
    } else if has_piece(u, "INFO"@) {
        Style::Green
    } else if has_piece(u, "DEBUG"@) || has_piece(u, "TRACE"@) {
        Style::Dimmed
    } else {
        Style::Plain
    }
}

/// The style of a match.
pub open spec fn match_style(raw: Seq<char>, parsed: Option<Json>) -> Style {
    match parsed {
        Some(j) => level_style(lower(coloured_level(j))),
        None => words_style(raw),
    }
}

fn style_of_level(level: &str) -> (r: Style)
    ensures
        r == level_style(level@),
{
    if same_text(level, "fatal") || same_text(level, "critical") || same_text(level, "emerg")
        || same_text(level, "emergency") {
        Style::WhiteOnRedBold
    } else if same_text(level, "error") || same_text(level, "err") {
        Style::Red
    } else if same_text(level, "warn") || same_text(level, "warning") {
        Style::Yellow
    } else if same_text(level, "info") {
        Style::Green
    } else if same_text(level, "debug") || same_text(level, "trace") {
        Style::Dimmed
    } else {
        Style::Plain
    }
}

fn style_of_words(raw: &str) -> (r: Style)
    ensures
        r == words_style(raw@),
{
    let raised = to_upper(raw);
    let u = raised.as_str();
    if contains(u, "FATAL") || contains(u, "CRITICAL") || contains(u, "EMERGENCY") {
        Style::WhiteOnRedBold
    } else if contains(u, "ERROR") {
        Style::Red
    } else if contains(u, "WARN") {
        Style::Yellow
    } else if contains(u, "INFO") {
        Style::Green
    } else if contains(u, "DEBUG") || contains(u, "TRACE") {
        Style::Dimmed
    } else {
        Style::Plain
    }
}

fn level_to_colour<'a>(v: &'a serde_json::Value) -> (r: &'a str)
    ensures
        r@ == coloured_level(held(*v)),
{
    let found = match member(v, "level") {
        Some(m) => Some(m),
        None => member(v, "severity"),
    };
    match found {
        Some(m) => match as_text(m) {
            Some(t) => t,
            None => "",
        },
        None => "",
    }
}

/// The style of a match: of a structured entry by its level, of plain text by
/// the words in it.
pub fn style_of_match(raw: &str, parsed: &Option<serde_json::Value>) -> (r: Style)
    ensures
        r == match_style(raw@, held_opt(*parsed)),
{
    match parsed {
        Some(v) => style_of_level(to_lower(level_to_colour(v)).as_str()),
        None => style_of_words(raw),
    }
}

/// How a result is laid out as text.
pub open spec fn text_layout(r: ResultView, show_file: bool) -> Seq<SpanView> {
    if r.is_context {
        let rule = styled(Style::Dimmed, "\u{2500}"@);
        let line = seq![
            rule,
            styled(Style::Dimmed, pad_start(decimal(r.line_num), 6)),
            styled(Style::Dimmed, " "@ + r.raw_line),
        ];
        if show_file {
            seq![rule, styled(Style::Dimmed, r.file.name), plain("\n"@)] + line
        } else {
            line
        }
    } else {
        let number = styled(Style::Yellow, decimal(r.line_num));
        let body = styled(match_style(r.raw_line, r.parsed), r.raw_line);
        if show_file {
            seq![styled(Style::Cyan, r.file.name), plain(":"@), number, plain(":"@), body]
        } else {
            seq![number, plain(": "@), body]
        }
    }
}

/// Lays a result out as text: a context line dimmed behind a rule, a match in
/// the style of its level, each with its number, and the file where it is
/// wanted.
pub fn layout_result_text(result: &SearchResult, show_file: bool) -> (r: Vec<Span>)
    ensures
        span_views(r@) == text_layout(result@, show_file),
{
    let mut r: Vec<Span> = Vec::new();
    let number = to_decimal(result.line_num);
    if result.is_context {
        if show_file {
            r.push(span(Style::Dimmed, "\u{2500}"));
            r.push(span(Style::Dimmed, result.file.name.as_str()));
            r.push(span(Style::Plain, "\n"));
        }
        r.push(span(Style::Dimmed, "\u{2500}"));
        r.push(span(Style::Dimmed, right_column(number.as_str(), 6).as_str()));
        r.push(
            span(Style::Dimmed, String::from_str(" ").concat(result.raw_line.as_str()).as_str()),
        );
    } else {
        let style = style_of_match(result.raw_line.as_str(), &result.parsed);
        if show_file {
            r.push(span(Style::Cyan, result.file.name.as_str()));
            r.push(span(Style::Plain, ":"));
            r.push(span(Style::Yellow, number.as_str()));
            r.push(span(Style::Plain, ":"));
        } else {
            r.push(span(Style::Yellow, number.as_str()));
            r.push(span(Style::Plain, ": "));
        }
        r.push(span(style, result.raw_line.as_str()));
    }
    assert(span_views(r@) =~= text_layout(result@, show_file));
    r
}

/// Writes a result as text, painted.
pub fn format_result_text(result: &SearchResult, show_file: bool) -> (r: String)
    ensures
        rendering(text_layout(result@, show_file), r@),
{
    render(&layout_result_text(result, show_file))
}

/// The JSON object that stands for a line of plain text.
pub open spec fn wrapped_line(r: ResultView) -> Json {
    Json::Object(
        Map::empty().insert("file"@, Json::Text(r.file.name)).insert(
            "line"@,
            Json::Number(decimal(r.line_num)),
        ).insert("text"@, Json::Text(r.raw_line)),
    )
}

/// What is written for a result as JSON: the entry itself, or an object that says
/// where a line of plain text stands and what it holds.
pub open spec fn json_value(r: ResultView) -> Json {
    match r.parsed {
        Some(j) => j,
        None => wrapped_line(r),
    }
}

/// A result as JSON.
pub open spec fn json_layout(r: ResultView) -> Seq<char> {
    json_text(json_value(r))
}

fn wrap_line(result: &SearchResult) -> (r: serde_json::Value)
    ensures
        held(r) == wrapped_line(result@),
{
    let mut members: Vec<(String, serde_json::Value)> = Vec::new();
    members.push((String::from_str("file"), text_value(result.file.name.as_str())));
    members.push((String::from_str("line"), number_value(result.line_num)));
    members.push((String::from_str("text"), text_value(result.raw_line.as_str())));
    proof {
        let m = members@;
        let m2 = m.drop_last();
        let m1 = m2.drop_last();
        assert(m1.drop_last().len() == 0);
        assert(object_of(m1.drop_last()) == Map::<Seq<char>, Json>::empty());
        assert(object_of(m1) == Map::<Seq<char>, Json>::empty().insert("file"@, held(m[0].1)));
        assert(object_of(m2) == object_of(m1).insert("line"@, held(m[1].1)));
        assert(object_of(m) == object_of(m2).insert("text"@, held(m[2].1)));
        assert(wrapped_line(result@)->Object_0 =~= object_of(m));
        reveal_strlit("file");
        reveal_strlit("line");
        reveal_strlit("text");
        assert("file"@[0] != "line"@[0] && "file"@[0] != "text"@[0] && "line"@[0] != "text"@[0]);
        assert(distinct_keys(m));
    }
    object_value(members)
}

/// Writes a result as JSON.
pub fn format_result_json(result: &SearchResult) -> (r: String)
    ensures
        r@ == json_layout(result@),
        !r@.contains('\n'),
        reads_back(json_value(result@)) ==> parsed_line(r@) == Some(json_value(result@)),
{
    let written = match &result.parsed {
        Some(v) => to_text(v),
        None => to_text(&wrap_line(result)),
    };
    match written {
        Some(t) => t,
        None => result.raw_line.clone(),
    }
}

// ---------------------------------------------------------------------------
// Lists of results
// ---------------------------------------------------------------------------

/// The line that a result takes up by itself.
pub open spec fn body_line(
    r: ResultView,
    format: OutputFormat,
    compact: bool,
    show_file: bool,
) -> Seq<SpanView> {
    match format {
        OutputFormat::Text => text_layout(r, show_file && !compact),
        OutputFormat::Json => seq![plain(json_layout(r))],
        OutputFormat::Raw => seq![plain(r.raw_line)],
    }
}

/// The line that names a file above its results.
pub open spec fn header_line(file: PathView) -> Seq<SpanView> {
    seq![styled(Style::BlueBold, "\u{2550}\u{2550} "@ + file.name + " \u{2550}\u{2550}"@)]
}

/// Headers name the files: in text only, and not where it is to be compact.
pub open spec fn has_headers(format: OutputFormat, compact: bool, show_file: bool) -> bool {
    format == OutputFormat::Text && !compact && show_file
}

/// The lines above the last result: where there are headers, one when a new file
/// begins, after an empty line unless it is the first.
pub open spec fn lines_above(
    results: Seq<ResultView>,
    format: OutputFormat,
    compact: bool,
    show_file: bool,
) -> Seq<Seq<SpanView>> {
    let n = results.len();
    if !has_headers(format, compact, show_file) || n == 0 {
        Seq::empty()
    } else if n == 1 {
        seq![header_line(results[0].file)]
    } else if results[n - 1].file.parts != results[n - 2].file.parts {
        seq![Seq::empty(), header_line(results[n - 1].file)]
    } else {
        Seq::empty()
    }
}

/// The lines that results are shown in.
pub open spec fn result_lines(
    results: Seq<ResultView>,
    format: OutputFormat,
    compact: bool,
    show_file: bool,
) -> Seq<Seq<SpanView>>
    decreases results.len(),
{
    if results.len() == 0 {
        Seq::empty()
    } else {
        (result_lines(results.drop_last(), format, compact, show_file) + lines_above(
            results,
            format,
            compact,
            show_file,
        )).push(body_line(results.last(), format, compact, show_file))
    }
}

fn format_header(file: &LogPath) -> (r: Vec<Span>)
    ensures
        span_views(r@) == header_line(file@),
{
    let mut r: Vec<Span> = Vec::new();
    let title = String::from_str("\u{2550}\u{2550} ").concat(file.name.as_str()).concat(
        " \u{2550}\u{2550}",
    );
    r.push(span(Style::BlueBold, title.as_str()));
    assert(span_views(r@) =~= header_line(file@));
    r
}

fn format_body(
    result: &SearchResult,
    format: OutputFormat,
    compact: bool,
    show_file: bool,
) -> (r: Vec<Span>)
    ensures
        span_views(r@) == body_line(result@, format, compact, show_file),
        format == OutputFormat::Json && reads_back(json_value(result@)) ==> parsed_line(
            span_views(r@)[0].text,
        ) == Some(json_value(result@)),
{
    match format {
        OutputFormat::Text => layout_result_text(result, show_file && !compact),
        OutputFormat::Json => {
            let mut r: Vec<Span> = Vec::new();
            r.push(span(Style::Plain, format_result_json(result).as_str()));
            assert(span_views(r@) =~= body_line(result@, format, compact, show_file));
            r
        },
        OutputFormat::Raw => {
            let mut r: Vec<Span> = Vec::new();
            r.push(span(Style::Plain, result.raw_line.as_str()));
            assert(span_views(r@) =~= body_line(result@, format, compact, show_file));
            r
        },
    }
}

/// Lays results out: each on a line of its own, in the given form, and in text the
/// results of each file under a header where files are to be named.
pub fn format_results(
    results: &Vec<SearchResult>,
    format: OutputFormat,
    compact: bool,
    show_file: bool,
) -> (r: Vec<Vec<Span>>)
    ensures
        line_views(r@) == result_lines(result_views(results@), format, compact, show_file),
        format == OutputFormat::Json ==> forall|i: int|
            0 <= i < results@.len() && reads_back(json_value((#[trigger] results@[i])@))
                ==> parsed_line(line_views(r@)[i][0].text) == Some(json_value(results@[i]@)),
{
    let mut r: Vec<Vec<Span>> = Vec::new();
    let ghost all = result_views(results@);
    assert(line_views(r@) =~= result_lines(all.take(0), format, compact, show_file));
    for i in 0..results.len()
        invariant
            all == result_views(results@),
            line_views(r@) == result_lines(all.take(i as int), format, compact, show_file),
            format == OutputFormat::Json ==> forall|k: int|
                0 <= k < i && reads_back(json_value((#[trigger] results@[k])@)) ==> parsed_line(
                    json_layout(results@[k]@),
                ) == Some(json_value(results@[k]@)),
    {
        let ghost before = line_views(r@);
        proof {
            let now = all.take(i + 1);
            assert(now.drop_last() =~= all.take(i as int));
            assert(now.last() == results@[i as int]@);
            if i > 0 {
                assert(now[i - 1] == results@[i - 1]@);
            }
        }
        if format == OutputFormat::Text && !compact && show_file {
            let result = &results[i];
            if i == 0 {
                r.push(format_header(&result.file));
            } else if !same_path(&result.file, &results[i - 1].file) {
                r.push(Vec::new());
                r.push(format_header(&result.file));
            }
        }
        let ghost above = lines_above(all.take(i + 1), format, compact, show_file);
        proof {
            assert(span_views(Seq::<Span>::empty()) =~= Seq::<SpanView>::empty());
            assert(line_views(r@) =~= before + above);
        }
        let body = format_body(&results[i], format, compact, show_file);
        let ghost body_view = span_views(body@);
        r.push(body);
        assert(line_views(r@) =~= (before + above).push(body_view));
    }
    proof {
        assert(all.take(all.len() as int) =~= all);
        if format == OutputFormat::Json {
            one_line_for_each_result(all, format, compact, show_file);
            assert forall|i: int|
                0 <= i < results@.len() && reads_back(
                    json_value((#[trigger] results@[i])@),
                ) implies parsed_line(line_views(r@)[i][0].text) == Some(
                json_value(results@[i]@),
            ) by {
                assert(line_views(r@)[i] == body_line(all[i], format, compact, show_file));
            }
        }
    }
    r
}

// ---------------------------------------------------------------------------
// Laws
// ---------------------------------------------------------------------------

/// Where there are no headers, and so in every form but text, each result takes
/// one line and there is nothing between them.
pub proof fn one_line_for_each_result(
    results: Seq<ResultView>,
    format: OutputFormat,
    compact: bool,
    show_file: bool,
)
    requires
        !has_headers(format, compact, show_file),
    ensures
        result_lines(results, format, compact, show_file) == results.map_values(
            |r: ResultView| body_line(r, format, compact, show_file),
        ),
    decreases results.len(),
{
    if results.len() > 0 {
        one_line_for_each_result(results.drop_last(), format, compact, show_file);
    }
    assert(result_lines(results, format, compact, show_file) =~= results.map_values(
        |r: ResultView| body_line(r, format, compact, show_file),
    ));
}

/// The number of places where the file changes from one result to the next.
pub open spec fn file_changes(results: Seq<ResultView>) -> nat
    decreases results.len(),
{
    if results.len() < 2 {
        0
    } else {
        let n = results.len();
        file_changes(results.drop_last()) + if results[n - 1].file.parts != results[n
            - 2].file.parts {
            1nat
        } else {
            0
        }
    }
}

/// Where there are headers, there is one line for each result, one header for the
/// first file, and a header behind an empty line wherever the file changes.
pub proof fn headers_mark_new_files(results: Seq<ResultView>)
    requires
        results.len() > 0,
    ensures
        result_lines(results, OutputFormat::Text, false, true).len() == results.len() + 1 + 2
            * file_changes(results),
        result_lines(results, OutputFormat::Text, false, true)[0] == header_line(results[0].file),
        result_lines(results, OutputFormat::Text, false, true).last() == body_line(
            results.last(),
            OutputFormat::Text,
            false,
            true,
        ),
    decreases results.len(),
{
    let init = results.drop_last();
    let lines = result_lines(results, OutputFormat::Text, false, true);
    if init.len() > 0 {
        headers_mark_new_files(init);
        let before = result_lines(init, OutputFormat::Text, false, true);
        assert(lines[0] == before[0]);
    } else {
        assert(result_lines(init, OutputFormat::Text, false, true).len() == 0);
    }
}

/// An entry whose `level` is a text is coloured by the level that it is counted
/// under.
pub proof fn text_level_counts_and_colours(j: Json)
    requires
        text_member(j, "level"@) is Some,
    ensures
        counted_level(Some(j)) == Some(coloured_level(j)),
{
}

proof fn decimals_hold_no_escape(n: nat)
    ensures
        no_escape(decimal(n)),
    decreases n,
{
    if n >= 10 {
        decimals_hold_no_escape(n / 10);
    }
}

/// Colours add control sequences only: whatever is written for a result whose line
/// and file hold no escape, taking the sequences out leaves the text by itself.
pub proof fn colours_keep_the_text(result: ResultView, show_file: bool, r: Seq<char>)
    requires
        no_escape(result.raw_line),
        no_escape(result.file.name),
        rendering(text_layout(result, show_file), r),
    ensures
        without_controls(r, false) == bare_text(text_layout(result, show_file)),
{
    let number = decimal(result.line_num);
    let line = text_layout(result, show_file);
    decimals_hold_no_escape(result.line_num);
    spaces_hold_no_escape(if number.len() < 6 { (6 - number.len()) as nat } else { 0 });
    assert(no_escape(filler(number, 6)));
    assert(no_escape(pad_start(number, 6)));
    reveal_strlit("\u{2500}");
    reveal_strlit("\n");
    reveal_strlit(" ");
    reveal_strlit(":");
    reveal_strlit(": ");
    assert(no_escape(" "@ + result.raw_line));
    assert(no_escapes(line));
    styling_keeps_the_text(line, r);
}

proof fn decimals_are_whole(n: nat)
    ensures
        whole_number(decimal(n)),
    decreases n,
{
    if n >= 10 {
        decimals_are_whole(n / 10);
    }
}

/// What stands for a line of plain text is read back as it was written: the file,
/// the number and the line, under three keys and no others.
pub proof fn wrapped_lines_are_read_back(r: ResultView)
    requires
        r.parsed is None,
    ensures
        reads_back(json_value(r)),
        json_value(r)->Object_0.dom() == set!["file"@, "line"@, "text"@],
{
    decimals_are_whole(r.line_num);
    let j = json_value(r);
    let members = j->Object_0;
    assert(members.dom() =~= set!["file"@, "line"@, "text"@]);
    assert forall|key: Seq<char>| members.dom().contains(key) implies whole_tree(
        #[trigger] members[key],
        (DEEPEST - 1) as nat,
    ) by {
        assert(members[key] is Text || members[key] == Json::Number(decimal(r.line_num)));
    }
}

} // verus!
