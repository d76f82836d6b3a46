//! What holds of the lines that results are shown in.

use crate::json::{held_opt, json_text, parsed_line, reads_back, Json};
use crate::paint::{
    bare_text, line_views, no_escape, span_views, without_controls, Span, SpanView, Style,
};
use crate::paint_laws::{text_of_five, text_of_one, text_of_three, texts_of_lines_join};
use crate::paths::PathView;
use crate::report::{
    body_line, coloured_level, colours_keep_the_text, format_result_json, format_result_text, format_results, has_headers,
    header_line, json_value, layout_result_text, level_style, lines_above, match_style,
    one_line_for_each_result, result_lines, style_of_match, text_layout, words_style, OutputFormat,
};
use crate::search::{result_views, ResultView, SearchResult};
use crate::text::{decimal, has_piece, lower, pad_start, upper};
use crate::text_laws::{around, pieces_are_within};
use vstd::prelude::*;

verus! {

// ---------------------------------------------------------------------------
// JSON
// ---------------------------------------------------------------------------

/// `v` stands for a result in JSON output: the entry itself, or, for a line of plain
/// text, an object with the file, the number of the line and the text.
pub open spec fn stands_for(v: Json, r: ResultView) -> bool {
    match r.parsed {
        Some(j) => v == j,
        None => v matches Json::Object(m) && {
            &&& m.dom() == set!["file"@, "line"@, "text"@]
            &&& m["file"@] == Json::Text(r.file.name)
            &&& m["line"@] == Json::Number(decimal(r.line_num))
            &&& m["text"@] == Json::Text(r.raw_line)
        },
    }
}

/// What is written for a result in JSON stands for it.
pub proof fn json_values_stand_for_results(r: ResultView)
    ensures
        stands_for(json_value(r), r),
{
    reveal_strlit("file");
    reveal_strlit("line");
    reveal_strlit("text");
    assert("file"@[0] != "line"@[0] && "file"@[0] != "text"@[0] && "line"@[0] != "text"@[0]);
    if r.parsed is None {
        assert(json_value(r)->Object_0.dom() =~= set!["file"@, "line"@, "text"@]);
    }
}

/// A result in JSON is written as the value that stands for it, on one line, and is
/// read back as that value.
pub proof fn json_results_are_json(result: &SearchResult, r: String)
    requires
        call_ensures(format_result_json, (result,), r),
    ensures
        exists|v: Json|
            stands_for(v, result@) && r@ == #[trigger] json_text(v) && (reads_back(v)
                ==> parsed_line(r@) == Some(v)),
        !r@.contains('\n'),
{
    json_values_stand_for_results(result@);
    assert(r@ == json_text(json_value(result@)));
}

/// In JSON output every result takes one line of one plain piece, whether it is to
/// be compact or to name the files: the text of the value that stands for the
/// result, which is read back as that value.
pub proof fn json_output_is_json(
    results: &Vec<SearchResult>,
    compact: bool,
    show_file: bool,
    r: Vec<Vec<Span>>,
    i: int,
)
    requires
        call_ensures(format_results, (results, OutputFormat::Json, compact, show_file), r),
    ensures
        line_views(r@).len() == results@.len(),
        0 <= i < results@.len() ==> {
            let line = line_views(r@)[i];
            &&& line.len() == 1
            &&& line[0].style == Style::Plain
            &&& line[0].width == 0
            &&& exists|v: Json|
                stands_for(v, results@[i]@) && line[0].text == #[trigger] json_text(v) && (
                reads_back(v) ==> parsed_line(line[0].text) == Some(v))
        },
{
    let all = result_views(results@);
    one_line_for_each_result(all, OutputFormat::Json, compact, show_file);
    if 0 <= i < results@.len() {
        let line = line_views(r@)[i];
        assert(all[i] == results@[i]@);
        assert(line == body_line(all[i], OutputFormat::Json, compact, show_file));
        json_values_stand_for_results(all[i]);
        assert(line[0].text == json_text(json_value(all[i])));
    }
}

/// The same, of the lines themselves: neither compactness nor the naming of files
/// makes a difference in JSON output.
pub proof fn json_lines_are_json(
    results: Seq<ResultView>,
    compact: bool,
    show_file: bool,
    i: int,
)
    ensures
        result_lines(results, OutputFormat::Json, compact, show_file).len() == results.len(),
        0 <= i < results.len() ==> exists|v: Json|
            stands_for(v, results[i]) && result_lines(
                results,
                OutputFormat::Json,
                compact,
                show_file,
            )[i] == seq![
                SpanView { style: Style::Plain, text: #[trigger] json_text(v), width: 0 },
            ],
{
    one_line_for_each_result(results, OutputFormat::Json, compact, show_file);
    if 0 <= i < results.len() {
        json_values_stand_for_results(results[i]);
        assert(result_lines(results, OutputFormat::Json, compact, show_file)[i] == seq![
            SpanView { style: Style::Plain, text: json_text(json_value(results[i])), width: 0 },
        ]);
    }
}

/// In raw output every result takes one line of one plain piece: the line as it was
/// read.
pub proof fn raw_output_is_raw(
    results: &Vec<SearchResult>,
    compact: bool,
    show_file: bool,
    r: Vec<Vec<Span>>,
    i: int,
)
    requires
        call_ensures(format_results, (results, OutputFormat::Raw, compact, show_file), r),
    ensures
        line_views(r@).len() == results@.len(),
        0 <= i < results@.len() ==> line_views(r@)[i] == seq![
            SpanView { style: Style::Plain, text: results@[i].raw_line@, width: 0 },
        ],
{
    let all = result_views(results@);
    one_line_for_each_result(all, OutputFormat::Raw, compact, show_file);
    if 0 <= i < results@.len() {
        assert(all[i] == results@[i]@);
        assert(line_views(r@)[i] == body_line(all[i], OutputFormat::Raw, compact, show_file));
    }
}

// ---------------------------------------------------------------------------
// Text
// ---------------------------------------------------------------------------

/// The text of a result: a match as `number: line`, or as `file:number:line`; a
/// context line behind a rule, its number in six columns, below its file where files
/// are named.
pub proof fn results_read_so(r: ResultView)
    ensures
        !r.is_context ==> bare_text(text_layout(r, false)) == around(
            decimal(r.line_num),
            ": "@,
            r.raw_line,
        ),
        !r.is_context ==> bare_text(text_layout(r, true)) == r.file.name + ":"@ + decimal(
            r.line_num,
        ) + ":"@ + r.raw_line,
        r.is_context ==> bare_text(text_layout(r, false)) == "\u{2500}"@ + pad_start(
            decimal(r.line_num),
            6,
        ) + " "@ + r.raw_line,
        r.is_context ==> bare_text(text_layout(r, true)) == "\u{2500}"@ + r.file.name + "\n"@ + (
        "\u{2500}"@ + pad_start(decimal(r.line_num), 6) + " "@ + r.raw_line),
{
    let a = text_layout(r, false);
    let b = text_layout(r, true);
    text_of_three(a[0], a[1], a[2]);
    assert(a =~= seq![a[0], a[1], a[2]]);
    if r.is_context {
        assert("\u{2500}"@ + pad_start(decimal(r.line_num), 6) + (" "@ + r.raw_line)
            =~= "\u{2500}"@ + pad_start(decimal(r.line_num), 6) + " "@ + r.raw_line);
        let head = seq![b[0], b[1], b[2]];
        text_of_three(b[0], b[1], b[2]);
        assert(b =~= head + a);
        texts_of_lines_join(head, a);
    } else {
        text_of_five(b[0], b[1], b[2], b[3], b[4]);
        assert(b =~= seq![b[0], b[1], b[2], b[3], b[4]]);
    }
}

/// How a result is coloured: a context line dimmed all over, of a match the file
/// cyan, the number yellow, and the line by its level.
pub proof fn results_are_coloured_so(r: ResultView, show_file: bool, i: int)
    ensures
        r.is_context && 0 <= i < text_layout(r, show_file).len() && text_layout(
            r,
            show_file,
        )[i].text != "\n"@ ==> text_layout(r, show_file)[i].style == Style::Dimmed,
        !r.is_context ==> text_layout(r, show_file).last().style == match_style(
            r.raw_line,
            r.parsed,
        ),
        !r.is_context ==> text_layout(r, show_file).last().text == r.raw_line,
        !r.is_context && show_file ==> text_layout(r, show_file)[0].style == Style::Cyan
            && text_layout(r, show_file)[2].style == Style::Yellow,
        !r.is_context && !show_file ==> text_layout(r, show_file)[0].style == Style::Yellow,
{
}

/// Results as text name the file in every line exactly where files are to be named
/// and the output is not to be compact.
pub proof fn text_lines_are_laid_out(r: ResultView, compact: bool, show_file: bool)
    ensures
        compact || !show_file ==> body_line(r, OutputFormat::Text, compact, show_file)
            == text_layout(r, false),
        !compact && show_file ==> body_line(r, OutputFormat::Text, compact, show_file)
            == text_layout(r, true),
{
}

/// The text of a result that is laid out by itself.
pub proof fn laid_out_results_read_so(result: &SearchResult, show_file: bool, r: Vec<Span>)
    requires
        call_ensures(layout_result_text, (result, show_file), r),
        !result.is_context,
    ensures
        !show_file ==> bare_text(span_views(r@)) == around(
            decimal(result.line_num as nat),
            ": "@,
            result.raw_line@,
        ),
        show_file ==> bare_text(span_views(r@)) == result.file.name@ + ":"@ + decimal(
            result.line_num as nat,
        ) + ":"@ + result.raw_line@,
{
    results_read_so(result@);
}

/// What is written for a match whose line and file hold no escape reads as the number
/// and the line, with the file where it is wanted, once colours are taken out.
pub proof fn written_matches_read_so(result: &SearchResult, show_file: bool, r: String)
    requires
        call_ensures(format_result_text, (result, show_file), r),
        !result.is_context,
        no_escape(result.raw_line@),
        no_escape(result.file.name@),
    ensures
        !show_file ==> without_controls(r@, false) == around(
            decimal(result.line_num as nat),
            ": "@,
            result.raw_line@,
        ),
        show_file ==> without_controls(r@, false) == result.file.name@ + ":"@ + decimal(
            result.line_num as nat,
        ) + ":"@ + result.raw_line@,
{
    results_read_so(result@);
    colours_keep_the_text(result@, show_file, r@);
}

// ---------------------------------------------------------------------------
// Colours
// ---------------------------------------------------------------------------

/// The colour of a level: five groups of names, and no colour for any other.
pub proof fn levels_have_their_colours(level: Seq<char>)
    ensures
        level_style(level) == Style::WhiteOnRedBold <==> set![
            "fatal"@,
            "critical"@,
            "emerg"@,
            "emergency"@,
        ].contains(level),
        level_style(level) == Style::Red <==> set!["error"@, "err"@].contains(level),
        level_style(level) == Style::Yellow <==> set!["warn"@, "warning"@].contains(level),
        level_style(level) == Style::Green <==> level == "info"@,
        level_style(level) == Style::Dimmed <==> set!["debug"@, "trace"@].contains(level),
        level_style(level) == Style::Plain <==> !set![
            "fatal"@,
            "critical"@,
            "emerg"@,
            "emergency"@,
            "error"@,
            "err"@,
            "warn"@,
            "warning"@,
            "info"@,
            "debug"@,
            "trace"@,
        ].contains(level),
{
    reveal_strlit("fatal");
    reveal_strlit("critical");
    reveal_strlit("emerg");
    reveal_strlit("emergency");
    reveal_strlit("error");
    reveal_strlit("err");
    reveal_strlit("warn");
    reveal_strlit("warning");
    reveal_strlit("info");
    reveal_strlit("debug");
    reveal_strlit("trace");
    if level == "error"@ || level == "err"@ {
        assert(level[1] == 'r');
    }
    if level == "warn"@ || level == "warning"@ {
        assert(level[0] == 'w');
    }
    if level == "info"@ {
        assert(level[0] == 'i');
    }
    if level == "debug"@ || level == "trace"@ {
        assert(level[0] == 'd' || level[0] == 't');
    }
    if level == "emerg"@ || level == "emergency"@ {
        assert(level[0] == 'e' && level[1] == 'm');
    }
    if level == "fatal"@ || level == "critical"@ {
        assert(level[0] == 'f' || level[0] == 'c');
    }
}

/// One of the words stands in the line, upper and lower case taken as one.
pub open spec fn says(raw: Seq<char>, word: Seq<char>) -> bool {
    exists|front: Seq<char>, back: Seq<char>| upper(raw) == #[trigger] around(front, word, back)
}

/// The colour of a line of plain text goes by the gravest word in it.
pub proof fn words_have_their_colours(raw: Seq<char>)
    ensures
        ({
            let fatal = says(raw, "FATAL"@) || says(raw, "CRITICAL"@) || says(raw, "EMERGENCY"@);
            let fine = says(raw, "DEBUG"@) || says(raw, "TRACE"@);
            &&& fatal ==> words_style(raw) == Style::WhiteOnRedBold
            &&& !fatal && says(raw, "ERROR"@) ==> words_style(raw) == Style::Red
            &&& !fatal && !says(raw, "ERROR"@) && says(raw, "WARN"@) ==> words_style(raw)
                == Style::Yellow
            &&& !fatal && !says(raw, "ERROR"@) && !says(raw, "WARN"@) && says(raw, "INFO"@)
                ==> words_style(raw) == Style::Green
            &&& !fatal && !says(raw, "ERROR"@) && !says(raw, "WARN"@) && !says(raw, "INFO"@) && fine
                ==> words_style(raw) == Style::Dimmed
            &&& !fatal && !says(raw, "ERROR"@) && !says(raw, "WARN"@) && !says(raw, "INFO"@)
                && !fine ==> words_style(raw) == Style::Plain
        }),
{
    assert forall|word: Seq<char>| #[trigger] has_piece(upper(raw), word) <==> says(raw, word) by {
        pieces_are_within(upper(raw), word);
    }
}

/// The level that an entry is coloured by is the text under `level`, or under
/// `severity` where there is no `level` at all; where what stands there is no text,
/// and where there is neither, the entry has no colour.
pub proof fn entries_are_coloured_by_their_level(m: Map<Seq<char>, Json>, raw: Seq<char>)
    ensures
        ({
            let j = Json::Object(m);
            let style = match_style(raw, Some(j));
            let level = m.dom().contains("level"@);
            let severity = m.dom().contains("severity"@);
            &&& level && m["level"@] is Text ==> style == level_style(lower(m["level"@]->Text_0))
            &&& level && !(m["level"@] is Text) ==> coloured_level(j).len() == 0
            &&& !level && severity && m["severity"@] is Text ==> style == level_style(
                lower(m["severity"@]->Text_0),
            )
            &&& !level && severity && !(m["severity"@] is Text) ==> coloured_level(j).len() == 0
            &&& !level && !severity ==> coloured_level(j).len() == 0
            &&& style == level_style(lower(coloured_level(j)))
        }),
{
    reveal_strlit("");
}

/// The colour of a match: of an entry by its level, of plain text by the words in it.
pub proof fn matches_are_coloured(
    raw: &str,
    parsed: &Option<serde_json::Value>,
    r: Style,
)
    requires
        call_ensures(style_of_match, (raw, parsed), r),
    ensures
        *parsed is None ==> r == words_style(raw@),
        held_opt(*parsed) matches Some(j) ==> r == level_style(
            lower(coloured_level(j)),
        ),
{
}

// ---------------------------------------------------------------------------
// Headers
// ---------------------------------------------------------------------------

/// A header is the name of the file between double rules, in one bold blue piece.
pub proof fn headers_read_so(file: PathView)
    ensures
        header_line(file).len() == 1,
        header_line(file)[0].style == Style::BlueBold,
        bare_text(header_line(file)) == around("\u{2550}\u{2550} "@, file.name, " \u{2550}\u{2550}"@),
{
    text_of_one(header_line(file)[0]);
    assert(header_line(file) =~= seq![header_line(file)[0]]);
}

/// There are headers exactly in text that is not compact and names the files.
pub proof fn headers_are_for_text(format: OutputFormat, compact: bool, show_file: bool)
    ensures
        has_headers(format, compact, show_file) <==> format is Text && !compact && show_file,
{
}

/// All results are of one file.
pub open spec fn of_one_file(results: Seq<ResultView>) -> bool {
    forall|i: int|
        0 <= i < results.len() ==> (#[trigger] results[i]).file.parts == results[0].file.parts
}

/// The results of one file come below one header, each on its line, with nothing
/// between them.
pub proof fn one_header_for_one_file(results: Seq<ResultView>)
    requires
        results.len() > 0,
        of_one_file(results),
    ensures
        result_lines(results, OutputFormat::Text, false, true) == seq![
            header_line(results[0].file),
        ] + results.map_values(|r: ResultView| text_layout(r, true)),
    decreases results.len(),
{
    let init = results.drop_last();
    let lines = result_lines(results, OutputFormat::Text, false, true);
    let layout = |r: ResultView| text_layout(r, true);
    if init.len() > 0 {
        assert(of_one_file(init)) by {
            assert forall|i: int| 0 <= i < init.len() implies (#[trigger] init[i]).file.parts
                == init[0].file.parts by {
                assert(results[i].file.parts == results[0].file.parts);
            }
        }
        one_header_for_one_file(init);
        assert(results[results.len() - 1].file.parts == results[0].file.parts);
        assert(results[results.len() - 2].file.parts == results[0].file.parts);
    } else {
        assert(result_lines(init, OutputFormat::Text, false, true).len() == 0);
    }
    assert(lines =~= seq![header_line(results[0].file)] + results.map_values(layout));
}

/// Where the file changes, the lines of the results before and those of the results
/// after it are put one below the other, with an empty line between them.
pub proof fn files_are_shown_apart(a: Seq<ResultView>, b: Seq<ResultView>)
    requires
        a.len() > 0,
        b.len() > 0,
        a.last().file.parts != b[0].file.parts,
    ensures
        result_lines(a + b, OutputFormat::Text, false, true) == result_lines(
            a,
            OutputFormat::Text,
            false,
            true,
        ) + seq![Seq::<SpanView>::empty()] + result_lines(b, OutputFormat::Text, false, true),
    decreases b.len(),
{
    let init = b.drop_last();
    let all = a + b;
    let n = all.len();
    assert(all.drop_last() =~= a + init);
    assert(all.last() == b.last());
    let la = result_lines(a, OutputFormat::Text, false, true);
    let lb = result_lines(b, OutputFormat::Text, false, true);
    let gap = seq![Seq::<SpanView>::empty()];
    if init.len() > 0 {
        files_are_shown_apart(a, init);
        assert(all[n - 1] == b[b.len() - 1]);
        assert(all[n - 2] == b[b.len() - 2]);
        assert(lines_above(all, OutputFormat::Text, false, true) =~= lines_above(
            b,
            OutputFormat::Text,
            false,
            true,
        ));
    } else {
        assert(a + init =~= a);
        assert(all[n - 1] == b[0]);
        assert(all[n - 2] == a.last());
        assert(result_lines(init, OutputFormat::Text, false, true).len() == 0);
    }
    assert(result_lines(all, OutputFormat::Text, false, true) =~= la + gap + lb);
}

/// Text is laid out as one line for each result where it is compact or names no files,
/// and otherwise below a header, where all results are of one file.
pub proof fn text_output_is_laid_out(
    results: &Vec<SearchResult>,
    compact: bool,
    show_file: bool,
    r: Vec<Vec<Span>>,
)
    requires
        call_ensures(format_results, (results, OutputFormat::Text, compact, show_file), r),
    ensures
        compact || !show_file ==> line_views(r@) == result_views(results@).map_values(
            |r: ResultView| text_layout(r, false),
        ),
        !compact && show_file && results@.len() > 0 && of_one_file(result_views(results@))
            ==> line_views(r@) == seq![header_line(results@[0].file@)] + result_views(
            results@,
        ).map_values(|r: ResultView| text_layout(r, true)),
        line_views(r@) == result_lines(
            result_views(results@),
            OutputFormat::Text,
            compact,
            show_file,
        ),
{
    let all = result_views(results@);
    if compact || !show_file {
        compact_text_has_no_headers(all, compact, show_file);
    } else if results@.len() > 0 && of_one_file(all) {
        one_header_for_one_file(all);
        assert(all[0] == results@[0]@);
    }
}

/// Compact text, and text that names no files, has one line for each result.
pub proof fn compact_text_has_no_headers(results: Seq<ResultView>, compact: bool, show_file: bool)
    requires
        compact || !show_file,
    ensures
        result_lines(results, OutputFormat::Text, compact, show_file) == results.map_values(
            |r: ResultView| text_layout(r, false),
        ),
{
    one_line_for_each_result(results, OutputFormat::Text, compact, show_file);
    assert(result_lines(results, OutputFormat::Text, compact, show_file) =~= results.map_values(
        |r: ResultView| text_layout(r, false),
    ));
}

} // verus!
