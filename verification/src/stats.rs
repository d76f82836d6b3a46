//! Statistics over all files of a search.

use crate::order::{
    count_ranking, count_ranking_exists, count_ranking_is, larger_first, largest_first,
    largest_first_positions,
};
use crate::paint::{
    line_views, plain, push_empty, push_span, span, span_views, styled, Span, SpanView, Style,
};
use crate::paths::{LogPath, PathView};
use crate::search::{match_count, result_views, FileStats, ResultView, SearchResult};
use crate::tally::{
    count_of, count_sum, count_within_sum, counted, counted_adds, distinct_names, place_is_right,
    place_of, sum_grows, Tally,
};
use crate::text::{
    decimal, left_column, lower, pad_end, repeat, repeated, same_text, to_decimal, to_lower,
};
use vstd::prelude::*;
use vstd::string::StringExecFns;

verus! {

/// A file and what was counted in it.
pub struct FileReport {
    pub path: LogPath,
    pub stats: FileStats,
}

/// What a `FileReport` says.
pub struct ReportView {
    pub path: PathView,
    pub total: nat,
    pub matched: nat,
    pub levels: Seq<(Seq<char>, nat)>,
}

impl FileReport {
    pub open spec fn view(&self) -> ReportView {
        ReportView {
            path: self.path@,
            total: self.stats.total_lines as nat,
            matched: self.stats.matched_lines as nat,
            levels: self.stats.level_counts@,
        }
    }
}

/// A file that was searched.
pub struct SearchedFile {
    pub path: LogPath,
    pub results: Vec<SearchResult>,
    pub stats: FileStats,
}

/// Reports as they stand in a list.
pub open spec fn report_views(v: Seq<FileReport>) -> Seq<ReportView> {
    v.map_values(|r: FileReport| r@)
}

/// The lines of all files.
pub open spec fn lines_scanned(reports: Seq<ReportView>) -> nat
    decreases reports.len(),
{
    if reports.len() == 0 {
        0
    } else {
        lines_scanned(reports.drop_last()) + reports.last().total
    }
}

/// Every name of `more` counted on top of `levels`.
pub open spec fn merged(
    levels: Seq<(Seq<char>, nat)>,
    more: Seq<(Seq<char>, nat)>,
) -> Seq<(Seq<char>, nat)>
    decreases more.len(),
{
    if more.len() == 0 {
        levels
    } else {
        counted(merged(levels, more.drop_last()), more.last().0, more.last().1)
    }
}

/// The levels of all files together.
pub open spec fn all_levels(reports: Seq<ReportView>) -> Seq<(Seq<char>, nat)>
    decreases reports.len(),
{
    if reports.len() == 0 {
        Seq::empty()
    } else {
        merged(all_levels(reports.drop_last()), reports.last().levels)
    }
}

proof fn merged_sums(
    levels: Seq<(Seq<char>, nat)>,
    more: Seq<(Seq<char>, nat)>,
)
    requires
        distinct_names(levels),
    ensures
        distinct_names(merged(levels, more)),
        count_sum(merged(levels, more)) == count_sum(levels) + count_sum(more),
    decreases more.len(),
{
    if more.len() > 0 {
        merged_sums(levels, more.drop_last());
        counted_adds(merged(levels, more.drop_last()), more.last().0, more.last().1);
    }
}

proof fn merged_count(
    levels: Seq<(Seq<char>, nat)>,
    more: Seq<(Seq<char>, nat)>,
    name: Seq<char>,
)
    requires
        distinct_names(levels),
        distinct_names(more),
    ensures
        count_of(merged(levels, more), name) == count_of(levels, name) + count_of(more, name),
    decreases more.len(),
{
    if more.len() > 0 {
        let init = more.drop_last();
        assert forall|i: int, j: int| 0 <= i < j < init.len() implies (#[trigger] init[i]).0 != (
        #[trigger] init[j]).0 by {
            assert(more[i].0 != more[j].0);
        }
        merged_sums(levels, init);
        merged_count(levels, init, name);
        counted_adds(merged(levels, init), more.last().0, more.last().1);
        place_is_right(init, name);
        if more.last().0 == name && place_of(init, name) >= 0 {
            assert(more[place_of(init, name)].0 != more[more.len() - 1].0);
        }
    }
}

/// How often `level` came up in all files.
pub open spec fn level_total(reports: Seq<ReportView>, level: Seq<char>) -> nat
    decreases reports.len(),
{
    if reports.len() == 0 {
        0
    } else {
        level_total(reports.drop_last(), level) + count_of(reports.last().levels, level)
    }
}

/// The count of a level over all files is the sum of its counts in each.
pub proof fn all_levels_add_up(reports: Seq<ReportView>, level: Seq<char>)
    requires
        forall|i: int| 0 <= i < reports.len() ==> distinct_names((#[trigger] reports[i]).levels),
    ensures
        distinct_names(all_levels(reports)),
        count_of(all_levels(reports), level) == level_total(reports, level),
    decreases reports.len(),
{
    if reports.len() > 0 {
        let init = reports.drop_last();
        assert forall|i: int| 0 <= i < init.len() implies distinct_names(
            (#[trigger] init[i]).levels,
        ) by {
            assert(distinct_names(reports[i].levels));
        }
        all_levels_add_up(init, level);
        assert(distinct_names(reports[reports.len() - 1].levels));
        merged_sums(all_levels(init), reports.last().levels);
        merged_count(all_levels(init), reports.last().levels, level);
    }
}

/// No more levels are counted in a file than it has lines.
pub open spec fn levels_within_lines(reports: Seq<ReportView>) -> bool {
    forall|i: int|
        0 <= i < reports.len() ==> count_sum((#[trigger] reports[i]).levels) <= reports[i].total
}

proof fn scanned_grows(reports: Seq<ReportView>, i: int)
    requires
        0 <= i <= reports.len(),
    ensures
        lines_scanned(reports.take(i)) <= lines_scanned(reports),
    decreases reports.len() - i,
{
    if i < reports.len() {
        scanned_grows(reports, i + 1);
        assert(reports.take(i + 1).drop_last() =~= reports.take(i));
    } else {
        assert(reports.take(i) =~= reports);
    }
}

fn count_lines(reports: &Vec<FileReport>) -> (r: usize)
    requires
        lines_scanned(report_views(reports@)) <= usize::MAX,
    ensures
        r == lines_scanned(report_views(reports@)),
{
    let mut r: usize = 0;
    let ghost all = report_views(reports@);
    for i in 0..reports.len()
        invariant
            all == report_views(reports@),
            lines_scanned(all) <= usize::MAX,
            r == lines_scanned(all.take(i as int)),
    {
        proof {
            assert(all.take(i + 1).drop_last() =~= all.take(i as int));
            scanned_grows(all, i + 1);
        }
        r = r + reports[i].stats.total_lines;
    }
    assert(all.take(all.len() as int) =~= all);
    r
}

proof fn merged_part(levels: Seq<(Seq<char>, nat)>, more: Seq<(Seq<char>, nat)>, k: int)
    requires
        distinct_names(levels),
        0 <= k < more.len(),
    ensures
        distinct_names(merged(levels, more.take(k))),
        merged(levels, more.take(k + 1)) == counted(
            merged(levels, more.take(k)),
            more[k].0,
            more[k].1,
        ),
        count_of(merged(levels, more.take(k)), more[k].0) + more[k].1 <= count_sum(levels)
            + count_sum(more),
    decreases more.len() - k,
{
    assert(more.take(k + 1).drop_last() =~= more.take(k));
    merged_sums(levels, more.take(k));
    count_within_sum(merged(levels, more.take(k)), more[k].0);
    sum_grows(more, k + 1);
}

fn merge(levels: &mut Tally, more: &Tally)
    requires
        count_sum(old(levels)@) + count_sum(more@) <= usize::MAX,
    ensures
        final(levels)@ == merged(old(levels)@, more@),
        count_sum(final(levels)@) == count_sum(old(levels)@) + count_sum(more@),
{
    let ghost before = levels@;
    // the names that are there already are distinct
    let _names: usize = levels.len();
    let n: usize = more.len();
    for k in 0..n
        invariant
            n == more@.len(),
            distinct_names(before),
            count_sum(before) + count_sum(more@) <= usize::MAX,
            levels@ == merged(before, more@.take(k as int)),
    {
        proof {
            merged_part(before, more@, k as int);
        }
        levels.add(more.name(k), more.count(k));
    }
    proof {
        assert(more@.take(more@.len() as int) =~= more@);
        merged_sums(before, more@);
    }
}

/// The levels of all files together, counted.
pub fn merge_levels(reports: &Vec<FileReport>) -> (r: Tally)
    requires
        lines_scanned(report_views(reports@)) <= usize::MAX,
        levels_within_lines(report_views(reports@)),
    ensures
        r@ == all_levels(report_views(reports@)),
{
    let mut r = Tally::new();
    let ghost all = report_views(reports@);
    for i in 0..reports.len()
        invariant
            all == report_views(reports@),
            lines_scanned(all) <= usize::MAX,
            levels_within_lines(all),
            r@ == all_levels(all.take(i as int)),
            count_sum(r@) <= lines_scanned(all.take(i as int)),
    {
        proof {
            assert(all.take(i + 1).drop_last() =~= all.take(i as int));
            assert(all.take(i + 1).last() == all[i as int]);
            assert(all[i as int] == reports@[i as int]@);
            scanned_grows(all, i + 1);
        }
        merge(&mut r, &reports[i].stats.level_counts);
    }
    assert(all.take(all.len() as int) =~= all);
    r
}

// ---------------------------------------------------------------------------
// The report
// ---------------------------------------------------------------------------

/// The style of a level in the list of levels, in lower case.
pub open spec fn row_style(level: Seq<char>) -> Style {
    if level == "fatal"@ || level == "critical"@ {
        Style::WhiteOnRed
    } else if level == "error"@ {
        Style::Red
    } else if level == "warn"@ || level == "warning"@ {
        Style::Yellow
    } else if level == "info"@ {
        Style::Green
    } else if level == "debug"@ || level == "trace"@ {
        Style::Dimmed
    } else {
        Style::Plain
    }
}

fn style_of_row(level: &str) -> (r: Style)
    ensures
        r == row_style(level@),
{
    if same_text(level, "fatal") || same_text(level, "critical") {
        Style::WhiteOnRed
    } else if same_text(level, "error") {
        Style::Red
    } else if same_text(level, "warn") || same_text(level, "warning") {
        Style::Yellow
    } else if same_text(level, "info") {
        Style::Green
    } else if same_text(level, "debug") || same_text(level, "trace") {
        Style::Dimmed
    } else {
        Style::Plain
    }
}

/// The line of a level: its name and its count.
pub open spec fn level_row(level: Seq<char>, count: nat) -> Seq<SpanView> {
    seq![
        plain("  "@),
        styled(row_style(lower(level)), " "@ + pad_end(level, 10) + " "@ + decimal(count)),
    ]
}

/// The lines of the first `k` levels of an order.
pub open spec fn level_rows(
    levels: Seq<(Seq<char>, nat)>,
    order: Seq<usize>,
    k: nat,
) -> Seq<Seq<SpanView>> {
    Seq::new(k, |i: int| level_row(levels[order[i] as int].0, levels[order[i] as int].1))
}

/// A line with a title.
pub open spec fn title_line(title: Seq<char>) -> Seq<SpanView> {
    seq![plain("  "@), styled(Style::Bold, title)]
}

/// The part of the report on levels: the most frequent first.
pub open spec fn level_part(levels: Seq<(Seq<char>, nat)>) -> Seq<Seq<SpanView>> {
    if levels.len() == 0 {
        Seq::empty()
    } else {
        let order = count_ranking(levels.map_values(|c: (Seq<char>, nat)| c.1));
        seq![Seq::empty(), title_line("Log Level Distribution:"@)] + level_rows(
            levels,
            order,
            levels.len(),
        )
    }
}

/// The line of a file: its name and its matches.
pub open spec fn file_row(r: ReportView) -> Seq<SpanView> {
    seq![plain("    "@ + r.path.file_name + ": "@ + decimal(r.matched))]
}

/// The lines of the first `k` files of an order, leaving out those without a
/// match.
pub open spec fn file_rows(
    reports: Seq<ReportView>,
    order: Seq<usize>,
    k: nat,
) -> Seq<Seq<SpanView>>
    decreases k,
{
    if k == 0 {
        Seq::empty()
    } else {
        let rest = file_rows(reports, order, (k - 1) as nat);
        let r = reports[order[k - 1] as int];
        if r.matched > 0 {
            rest.push(file_row(r))
        } else {
            rest
        }
    }
}

/// How many files the report names.
pub const TOP_FILES: usize = 5;

/// The part of the report on files: the five with the most matches, as far as
/// they have any.
pub open spec fn file_part(reports: Seq<ReportView>) -> Seq<Seq<SpanView>> {
    let order = count_ranking(reports.map_values(|r: ReportView| r.matched));
    let k = if reports.len() < TOP_FILES { reports.len() } else { TOP_FILES as nat };
    let rows = file_rows(reports, order, k);
    if rows.len() == 0 {
        Seq::empty()
    } else {
        seq![Seq::empty(), title_line("Top Files:"@)] + rows
    }
}

/// A line with a name and a value.
pub open spec fn value_line(name: Seq<char>, style: Style, value: Seq<char>) -> Seq<SpanView> {
    seq![plain("  "@), styled(Style::Dimmed, name), plain(" "@), styled(style, value)]
}

/// A line across the report.
pub open spec fn rule_line() -> Seq<SpanView> {
    seq![styled(Style::Dimmed, repeated("\u{2500}"@, 55))]
}

/// The report on a search: totals, time taken and speed as they are given,
/// levels and files.
pub open spec fn stats_lines(
    reports: Seq<ReportView>,
    matches: nat,
    elapsed: Seq<char>,
    speed: Seq<char>,
) -> Seq<Seq<SpanView>> {
    let lines = lines_scanned(reports);
    seq![
        Seq::empty(),
        rule_line(),
        seq![styled(Style::Bold, "\u{1f4ca} Search Statistics"@)],
        value_line("Files:"@, Style::Plain, decimal(reports.len())),
        value_line("Lines scanned:"@, Style::Plain, decimal(lines)),
        value_line("Matches:"@, Style::Bold, decimal(matches)),
        value_line("Elapsed:"@, Style::Plain, elapsed),
    ] + (if lines > 0 {
        seq![value_line("Speed:"@, Style::Plain, speed)]
    } else {
        Seq::empty()
    }) + level_part(all_levels(reports)) + file_part(reports) + seq![rule_line()]
}

fn push_value(
    lines: &mut Vec<Vec<Span>>,
    name: &str,
    style: Style,
    value: &str,
)
    ensures
        line_views(final(lines)@) == line_views(old(lines)@).push(
            value_line(name@, style, value@),
        ),
{
    let ghost before = line_views(lines@);
    let mut l: Vec<Span> = Vec::new();
    l.push(span(Style::Plain, "  "));
    l.push(span(Style::Dimmed, name));
    l.push(span(Style::Plain, " "));
    l.push(span(style, value));
    assert(span_views(l@) =~= value_line(name@, style, value@));
    lines.push(l);
    assert(line_views(lines@) =~= before.push(value_line(name@, style, value@)));
}

fn push_title(lines: &mut Vec<Vec<Span>>, style: Style, title: &str)
    ensures
        line_views(final(lines)@) == line_views(old(lines)@).push(
            seq![plain("  "@), styled(style, title@)],
        ),
{
    let ghost before = line_views(lines@);
    let mut l: Vec<Span> = Vec::new();
    l.push(span(Style::Plain, "  "));
    l.push(span(style, title));
    assert(span_views(l@) =~= seq![plain("  "@), styled(style, title@)]);
    lines.push(l);
    assert(line_views(lines@) =~= before.push(seq![plain("  "@), styled(style, title@)]));
}

fn push_levels(lines: &mut Vec<Vec<Span>>, levels: &Tally)
    ensures
        line_views(final(lines)@) == line_views(old(lines)@) + level_part(levels@),
{
    let ghost before = line_views(lines@);
    if levels.len() == 0 {
        assert(before + level_part(levels@) =~= before);
        return ;
    }
    push_empty(lines);
    push_title(lines, Style::Bold, "Log Level Distribution:");
    let order = levels.most_frequent();
    proof {
        count_ranking_is(levels@.map_values(|c: (Seq<char>, nat)| c.1), order@);
    }
    let ghost head = seq![Seq::<SpanView>::empty(), title_line("Log Level Distribution:"@)];
    assert(line_views(lines@) =~= before + (head + level_rows(levels@, order@, 0)));
    for k in 0..order.len()
        invariant
            largest_first(levels@.map_values(|c: (Seq<char>, nat)| c.1), order@),
            line_views(lines@) == before + (head + level_rows(levels@, order@, k as nat)),
    {
        let i: usize = order[k];
        let name = levels.name(i);
        let text = String::from_str(" ").concat(left_column(name, 10).as_str()).concat(" ").concat(
            to_decimal(levels.count(i)).as_str(),
        );
        push_title(lines, style_of_row(to_lower(name).as_str()), text.as_str());
        assert(line_views(lines@) =~= before + (head + level_rows(levels@, order@, (k + 1) as nat)));
    }
}

fn push_files(lines: &mut Vec<Vec<Span>>, reports: &Vec<FileReport>)
    ensures
        line_views(final(lines)@) == line_views(old(lines)@) + file_part(report_views(reports@)),
{
    let ghost before = line_views(lines@);
    let ghost all = report_views(reports@);
    let mut counts: Vec<usize> = Vec::new();
    for i in 0..reports.len()
        invariant
            counts@.len() == i,
            forall|k: int| 0 <= k < i ==> counts@[k] == (#[trigger] reports@[k]).stats.matched_lines,
    {
        counts.push(reports[i].stats.matched_lines);
    }
    let order = largest_first_positions(&counts);
    let ghost ns = all.map_values(|r: ReportView| r.matched);
    proof {
        assert(counts@.map_values(|c: usize| c as nat) =~= ns);
        count_ranking_is(ns, order@);
    }
    let top: usize = if order.len() < TOP_FILES { order.len() } else { TOP_FILES };
    let mut rows: Vec<Vec<Span>> = Vec::new();
    assert(line_views(rows@) =~= file_rows(all, order@, 0));
    for k in 0..top
        invariant
            all == report_views(reports@),
            ns == all.map_values(|r: ReportView| r.matched),
            largest_first(ns, order@),
            top <= order@.len(),
            line_views(rows@) == file_rows(all, order@, k as nat),
    {
        let r = &reports[order[k]];
        assert(all[order@[k as int] as int] == r@);
        if r.stats.matched_lines > 0 {
            let text = String::from_str("    ").concat(r.path.file_name.as_str()).concat(
                ": ",
            ).concat(to_decimal(r.stats.matched_lines).as_str());
            push_span(&mut rows, Style::Plain, text.as_str());
        }
    }
    if rows.len() > 0 {
        push_empty(lines);
        push_title(lines, Style::Bold, "Top Files:");
        append_lines(lines, rows);
        assert(line_views(lines@) =~= before + file_part(all));
    } else {
        assert(line_views(rows@).len() == 0);
        assert(before + file_part(all) =~= before);
    }
}

fn append_lines(lines: &mut Vec<Vec<Span>>, more: Vec<Vec<Span>>)
    ensures
        line_views(final(lines)@) == line_views(old(lines)@) + line_views(more@),
{
    let ghost before = lines@;
    let ghost added = more@;
    let mut more = more;
    lines.append(&mut more);
    assert(line_views(lines@) =~= line_views(before) + line_views(added));
}

/// The report on a search. How long it took and how fast it was are given as
/// they are to be shown; the speed is shown where there were any lines.
pub fn stats_report(
    reports: &Vec<FileReport>,
    total_matches: usize,
    elapsed: &str,
    speed: &str,
) -> (r: Vec<Vec<Span>>)
    requires
        lines_scanned(report_views(reports@)) <= usize::MAX,
        levels_within_lines(report_views(reports@)),
    ensures
        line_views(r@) == stats_lines(
            report_views(reports@),
            total_matches as nat,
            elapsed@,
            speed@,
        ),
{
    let ghost all = report_views(reports@);
    let total_lines: usize = count_lines(reports);
    let levels = merge_levels(reports);
    let mut lines: Vec<Vec<Span>> = Vec::new();
    push_empty(&mut lines);
    push_span(&mut lines, Style::Dimmed, repeat("\u{2500}", 55).as_str());
    push_span(&mut lines, Style::Bold, "\u{1f4ca} Search Statistics");
    push_value(&mut lines, "Files:", Style::Plain, to_decimal(reports.len()).as_str());
    push_value(&mut lines, "Lines scanned:", Style::Plain, to_decimal(total_lines).as_str());
    push_value(&mut lines, "Matches:", Style::Bold, to_decimal(total_matches).as_str());
    push_value(&mut lines, "Elapsed:", Style::Plain, elapsed);
    if total_lines > 0 {
        push_value(&mut lines, "Speed:", Style::Plain, speed);
    }
    push_levels(&mut lines, &levels);
    push_files(&mut lines, reports);
    push_span(&mut lines, Style::Dimmed, repeat("\u{2500}", 55).as_str());
    assert(line_views(lines@) =~= stats_lines(all, total_matches as nat, elapsed@, speed@));
    lines
}

// ---------------------------------------------------------------------------
// All files together
// ---------------------------------------------------------------------------

/// The matches of all files.
pub open spec fn matches_found(files: Seq<SearchedFile>) -> nat
    decreases files.len(),
{
    if files.len() == 0 {
        0
    } else {
        matches_found(files.drop_last()) + files.last().stats.matched_lines as nat
    }
}

/// The results of all files, one file after the other.
pub open spec fn all_results(files: Seq<SearchedFile>) -> Seq<ResultView>
    decreases files.len(),
{
    if files.len() == 0 {
        Seq::empty()
    } else {
        all_results(files.drop_last()) + result_views(files.last().results@)
    }
}

/// What was counted in each file.
pub open spec fn all_reports(files: Seq<SearchedFile>) -> Seq<ReportView> {
    files.map_values(
        |f: SearchedFile|
            ReportView {
                path: f.path@,
                total: f.stats.total_lines as nat,
                matched: f.stats.matched_lines as nat,
                levels: f.stats.level_counts@,
            },
    )
}

/// What a search of several files came to.
pub struct Gathered {
    pub results: Vec<SearchResult>,
    pub reports: Vec<FileReport>,
    pub total_matches: usize,
}

proof fn matches_grow(files: Seq<SearchedFile>, i: int)
    requires
        0 <= i <= files.len(),
    ensures
        matches_found(files.take(i)) <= matches_found(files),
    decreases files.len() - i,
{
    if i < files.len() {
        matches_grow(files, i + 1);
        assert(files.take(i + 1).drop_last() =~= files.take(i));
    } else {
        assert(files.take(i) =~= files);
    }
}

/// Puts the files of a search together, in the order in which they come.
pub fn gather(files: Vec<SearchedFile>) -> (r: Gathered)
    requires
        matches_found(files@) <= usize::MAX,
    ensures
        result_views(r.results@) == all_results(files@),
        report_views(r.reports@) == all_reports(files@),
        r.total_matches == matches_found(files@),
{
    let ghost all = files@;
    let mut results: Vec<SearchResult> = Vec::new();
    let mut reports: Vec<FileReport> = Vec::new();
    let mut total_matches: usize = 0;
    assert(result_views(results@) =~= all_results(all.take(0)));
    assert(report_views(reports@) =~= all_reports(all.take(0)));
    for f in it: files
        invariant
            it.seq() == all,
            matches_found(all) <= usize::MAX,
            result_views(results@) == all_results(all.take(it.index())),
            report_views(reports@) == all_reports(all.take(it.index())),
            total_matches == matches_found(all.take(it.index())),
    {
        let ghost done = it.index();
        let ghost results_before = results@;
        let ghost reports_before = report_views(reports@);
        proof {
            assert(all.take(done + 1).drop_last() =~= all.take(done));
            assert(all.take(done + 1).last() == f);
            matches_grow(all, done + 1);
        }
        let mut own: Vec<SearchResult> = f.results;
        let ghost own_before = own@;
        total_matches = total_matches + f.stats.matched_lines;
        results.append(&mut own);
        let report = FileReport { path: f.path, stats: f.stats };
        let ghost report_view = report@;
        reports.push(report);
        proof {
            assert(result_views(results@) =~= result_views(results_before) + result_views(
                own_before,
            ));
            assert(report_views(reports@) =~= reports_before.push(report_view));
            assert(all_reports(all.take(done + 1)) =~= all_reports(all.take(done)).push(
                report_view,
            ));
        }
    }
    assert(all.take(all.len() as int) =~= all);
    Gathered { results, reports, total_matches }
}

/// The status that the program exits with after a search: zero where something
/// was found.
pub fn exit_status(total_matches: usize) -> (r: i32)
    ensures
        r == (if total_matches == 0 { 1i32 } else { 0i32 }),
{
    if total_matches == 0 {
        1
    } else {
        0
    }
}

/// A file and the number of matches in it.
pub struct FileCount {
    pub path: LogPath,
    pub count: usize,
}

/// The matches of all files that were counted.
pub open spec fn counts_sum(counts: Seq<FileCount>) -> nat
    decreases counts.len(),
{
    if counts.len() == 0 {
        0
    } else {
        counts_sum(counts.drop_last()) + counts.last().count as nat
    }
}

/// The lines of the files with matches, in the order in which they come.
pub open spec fn count_rows(counts: Seq<FileCount>) -> Seq<Seq<SpanView>>
    decreases counts.len(),
{
    if counts.len() == 0 {
        Seq::empty()
    } else {
        let rest = count_rows(counts.drop_last());
        let c = counts.last();
        if c.count > 0 {
            rest.push(seq![plain(c.path@.name + ": "@ + decimal(c.count as nat))])
        } else {
            rest
        }
    }
}

/// The line with the total.
pub open spec fn count_summary(counts: Seq<FileCount>) -> Seq<SpanView> {
    seq![
        styled(Style::Bold, "Total:"@),
        plain(
            " "@ + decimal(counts_sum(counts)) + " matches across "@ + decimal(counts.len())
                + " files"@,
        ),
    ]
}

/// What is printed for a count: the lines of the files, and the total.
pub struct CountReport {
    pub rows: Vec<Vec<Span>>,
    pub summary: Vec<Span>,
}

proof fn counts_grow(counts: Seq<FileCount>, i: int)
    requires
        0 <= i <= counts.len(),
    ensures
        counts_sum(counts.take(i)) <= counts_sum(counts),
    decreases counts.len() - i,
{
    if i < counts.len() {
        counts_grow(counts, i + 1);
        assert(counts.take(i + 1).drop_last() =~= counts.take(i));
    } else {
        assert(counts.take(i) =~= counts);
    }
}

/// Reports a count: each file that has matches, and the total over all files.
pub fn count_report(counts: &Vec<FileCount>) -> (r: CountReport)
    requires
        counts_sum(counts@) <= usize::MAX,
    ensures
        line_views(r.rows@) == count_rows(counts@),
        span_views(r.summary@) == count_summary(counts@),
{
    let mut rows: Vec<Vec<Span>> = Vec::new();
    let mut total: usize = 0;
    assert(line_views(rows@) =~= count_rows(counts@.take(0)));
    for i in 0..counts.len()
        invariant
            counts_sum(counts@) <= usize::MAX,
            total == counts_sum(counts@.take(i as int)),
            line_views(rows@) == count_rows(counts@.take(i as int)),
    {
        proof {
            assert(counts@.take(i + 1).drop_last() =~= counts@.take(i as int));
            counts_grow(counts@, i + 1);
        }
        let c = &counts[i];
        total = total + c.count;
        if c.count > 0 {
            let text = c.path.name.clone().concat(": ").concat(to_decimal(c.count).as_str());
            push_span(&mut rows, Style::Plain, text.as_str());
        }
    }
    assert(counts@.take(counts@.len() as int) =~= counts@);
    let mut summary: Vec<Span> = Vec::new();
    summary.push(span(Style::Bold, "Total:"));
    let text = String::from_str(" ").concat(to_decimal(total).as_str()).concat(
        " matches across ",
    ).concat(to_decimal(counts.len()).as_str()).concat(" files");
    summary.push(span(Style::Plain, text.as_str()));
    assert(span_views(summary@) =~= count_summary(counts@));
    CountReport { rows, summary }
}

// ---------------------------------------------------------------------------
// Laws
// ---------------------------------------------------------------------------

proof fn match_count_append(a: Seq<ResultView>, b: Seq<ResultView>)
    ensures
        match_count(a + b) == match_count(a) + match_count(b),
    decreases b.len(),
{
    if b.len() == 0 {
        assert(a + b =~= a);
    } else {
        assert((a + b).drop_last() =~= a + b.drop_last());
        match_count_append(a, b.drop_last());
    }
}

/// Where each file's statistics count its matches, the total of a search is
/// the number of matches among all its results.
pub proof fn gathered_matches_add_up(files: Seq<SearchedFile>)
    requires
        forall|i: int|
            0 <= i < files.len() ==> match_count(result_views((#[trigger] files[i]).results@))
                == files[i].stats.matched_lines,
    ensures
        match_count(all_results(files)) == matches_found(files),
    decreases files.len(),
{
    if files.len() > 0 {
        let init = files.drop_last();
        assert forall|i: int| 0 <= i < init.len() implies match_count(
            result_views((#[trigger] init[i]).results@),
        ) == init[i].stats.matched_lines by {
            assert(init[i] == files[i]);
        }
        gathered_matches_add_up(init);
        match_count_append(all_results(init), result_views(files.last().results@));
        assert(files[files.len() - 1] == files.last());
    }
}

proof fn rows_have_matches(reports: Seq<ReportView>, order: Seq<usize>, k: nat)
    ensures
        file_rows(reports, order, k).len() <= k,
        forall|i: int|
            0 <= i < file_rows(reports, order, k).len() ==> exists|p: int|
                0 <= p < k && reports[order[p] as int].matched > 0 && #[trigger] file_rows(
                    reports,
                    order,
                    k,
                )[i] == file_row(#[trigger] reports[order[p] as int]),
    decreases k,
{
    if k > 0 {
        rows_have_matches(reports, order, (k - 1) as nat);
        let rest = file_rows(reports, order, (k - 1) as nat);
        let all = file_rows(reports, order, k);
        let r = reports[order[k - 1] as int];
        assert forall|i: int| 0 <= i < all.len() implies exists|p: int|
            0 <= p < k && reports[order[p] as int].matched > 0 && #[trigger] all[i] == file_row(
                #[trigger] reports[order[p] as int],
            ) by {
            if i < rest.len() {
                assert(all[i] == rest[i]);
                let p = choose|p: int|
                    0 <= p < k - 1 && reports[order[p] as int].matched > 0 && rest[i] == file_row(
                        #[trigger] reports[order[p] as int],
                    );
                assert(all[i] == file_row(reports[order[p] as int]));
            } else {
                assert(all[i] == file_row(reports[order[k - 1] as int]));
            }
        }
    }
}

/// The report names at most five files, below a title, and each of them has
/// matches.
pub proof fn named_files_have_matches(reports: Seq<ReportView>)
    requires
        reports.len() <= usize::MAX,
    ensures
        file_part(reports).len() <= 2 + TOP_FILES,
        forall|i: int|
            2 <= i < file_part(reports).len() ==> exists|j: int|
                0 <= j < reports.len() && reports[j].matched > 0 && #[trigger] file_part(
                    reports,
                )[i] == file_row(#[trigger] reports[j]),
{
    let counts = reports.map_values(|r: ReportView| r.matched);
    let order = count_ranking(counts);
    let k = if reports.len() < TOP_FILES { reports.len() } else { TOP_FILES as nat };
    let rows = file_rows(reports, order, k);
    let part = file_part(reports);
    count_ranking_exists(counts);
    rows_have_matches(reports, order, k);
    assert forall|i: int| 2 <= i < part.len() implies exists|j: int|
        0 <= j < reports.len() && reports[j].matched > 0 && #[trigger] part[i] == file_row(
            #[trigger] reports[j],
        ) by {
        assert(part[i] == rows[i - 2]);
        let p = choose|p: int|
            0 <= p < k && reports[order[p] as int].matched > 0 && rows[i - 2] == file_row(
                #[trigger] reports[order[p] as int],
            );
        let j = order[p] as int;
        assert(part[i] == file_row(reports[j]));
    }
}

/// No file beyond the first five has more matches than any of them.
pub proof fn named_files_have_most(reports: Seq<ReportView>, p: int, q: int)
    requires
        reports.len() <= usize::MAX,
        0 <= p < TOP_FILES <= q < reports.len(),
    ensures
        ({
            let order = count_ranking(reports.map_values(|r: ReportView| r.matched));
            reports[order[p] as int].matched >= reports[order[q] as int].matched
        }),
{
    let counts = reports.map_values(|r: ReportView| r.matched);
    count_ranking_exists(counts);
    let order = count_ranking(counts);
    assert(larger_first(counts)(order[p] as int, order[q] as int));
}

/// The levels are listed with the most frequent first.
pub proof fn levels_are_listed_by_count(levels: Seq<(Seq<char>, nat)>, p: int, q: int)
    requires
        levels.len() <= usize::MAX,
        0 <= p < q < levels.len(),
    ensures
        ({
            let order = count_ranking(levels.map_values(|c: (Seq<char>, nat)| c.1));
            &&& levels[order[p] as int].1 >= levels[order[q] as int].1
            &&& level_part(levels)[p + 2] == level_row(
                levels[order[p] as int].0,
                levels[order[p] as int].1,
            )
        }),
{
    let counts = levels.map_values(|c: (Seq<char>, nat)| c.1);
    count_ranking_exists(counts);
    let order = count_ranking(counts);
    assert(larger_first(counts)(order[p] as int, order[q] as int));
}

} // verus!
