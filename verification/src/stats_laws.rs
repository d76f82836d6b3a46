//! What holds of the statistics of a search.

use crate::order::count_ranking;
use crate::order_laws::{descends, rankings_descend};
use crate::paint::{bare_text, line_views, plain, span_views, Span, SpanView, Style};
use crate::paint_laws::{text_of_four, text_of_one, text_of_two};
use crate::search::result_views;
use crate::search_laws::smaller;
use crate::stats::{
    all_levels, all_levels_add_up, all_reports, all_results, count_report, count_rows, counts_sum,
    exit_status, file_part, file_row, file_rows, gather, level_part, level_row, level_total,
    lines_scanned, matches_found, merge_levels, report_views, row_style, rule_line, stats_lines,
    stats_report, value_line, CountReport, FileCount, FileReport, Gathered, ReportView, SearchedFile,
};
use crate::tally::{count_of, distinct_names, Tally};
use crate::text::{decimal, lower, pad_end};
use crate::text_laws::copies_follow_each_other;
use vstd::prelude::*;

verus! {

// ---------------------------------------------------------------------------
// Totals
// ---------------------------------------------------------------------------

/// The lines of all files are added up: none without files, those of a file, and
/// those of two lists of files together.
pub proof fn lines_add_up(a: Seq<ReportView>, b: Seq<ReportView>)
    ensures
        lines_scanned(a + b) == lines_scanned(a) + lines_scanned(b),
        b.len() == 0 ==> lines_scanned(b) == 0,
        b.len() == 1 ==> lines_scanned(b) == b[0].total,
    decreases b.len(),
{
    if b.len() == 0 {
        assert(a + b =~= a);
    } else {
        assert((a + b).drop_last() =~= a + b.drop_last());
        lines_add_up(a, b.drop_last());
        if b.len() == 1 {
            assert(b.drop_last().len() == 0);
            assert(lines_scanned(b.drop_last()) == 0);
        }
    }
}

/// The matches of all files are added up.
pub proof fn matches_of_files_add_up(a: Seq<SearchedFile>, b: Seq<SearchedFile>)
    ensures
        matches_found(a + b) == matches_found(a) + matches_found(b),
        b.len() == 0 ==> matches_found(b) == 0,
        b.len() == 1 ==> matches_found(b) == b[0].stats.matched_lines,
    decreases b.len(),
{
    if b.len() == 0 {
        assert(a + b =~= a);
    } else {
        assert((a + b).drop_last() =~= a + b.drop_last());
        matches_of_files_add_up(a, b.drop_last());
        if b.len() == 1 {
            assert(b.drop_last().len() == 0);
            assert(matches_found(b.drop_last()) == 0);
        }
    }
}

/// The results of all files follow each other, file by file.
pub proof fn results_follow_each_other(a: Seq<SearchedFile>, b: Seq<SearchedFile>)
    ensures
        all_results(a + b) == all_results(a) + all_results(b),
        b.len() == 0 ==> all_results(b).len() == 0,
        b.len() == 1 ==> all_results(b) == result_views(b[0].results@),
    decreases b.len(),
{
    if b.len() == 0 {
        assert(a + b =~= a);
        assert(all_results(a) + all_results(b) =~= all_results(a));
    } else {
        let init = b.drop_last();
        assert((a + b).drop_last() =~= a + init);
        results_follow_each_other(a, init);
        assert(all_results(a + b) =~= all_results(a) + all_results(b));
        if b.len() == 1 {
            assert(init.len() == 0);
            assert(all_results(init).len() == 0);
            assert(all_results(b) =~= result_views(b[0].results@));
        }
    }
}

/// Files that are put together keep their order, their results and what was counted
/// in them, and their matches are added up.
pub proof fn files_are_put_together(files: Vec<SearchedFile>, r: Gathered, i: int)
    requires
        call_ensures(gather, (files,), r),
    ensures
        r.reports@.len() == files@.len(),
        0 <= i < files@.len() ==> {
            let report = report_views(r.reports@)[i];
            &&& report.path == files@[i].path@
            &&& report.total == files@[i].stats.total_lines
            &&& report.matched == files@[i].stats.matched_lines
            &&& report.levels == files@[i].stats.level_counts@
        },
        result_views(r.results@) == all_results(files@),
        r.total_matches == matches_found(files@),
{
    assert(report_views(r.reports@).len() == r.reports@.len());
    assert(all_reports(files@).len() == files@.len());
}

/// The levels of all files are added up, level by level.
pub proof fn levels_are_merged(reports: &Vec<FileReport>, r: Tally, level: Seq<char>)
    requires
        forall|i: int|
            0 <= i < reports@.len() ==> distinct_names(
                (#[trigger] reports@[i]).stats.level_counts@,
            ),
        call_ensures(merge_levels, (reports,), r),
    ensures
        count_of(r@, level) == level_total(report_views(reports@), level),
{
    let all = report_views(reports@);
    assert forall|i: int| 0 <= i < all.len() implies distinct_names((#[trigger] all[i]).levels) by {
        assert(distinct_names(reports@[i].stats.level_counts@));
    }
    all_levels_add_up(all, level);
}

/// How often a level came up in all files is added up over the files.
pub proof fn levels_of_files_add_up(a: Seq<ReportView>, b: Seq<ReportView>, level: Seq<char>)
    ensures
        level_total(a + b, level) == level_total(a, level) + level_total(b, level),
        b.len() == 0 ==> level_total(b, level) == 0,
        b.len() == 1 ==> level_total(b, level) == count_of(b[0].levels, level),
    decreases b.len(),
{
    if b.len() == 0 {
        assert(a + b =~= a);
    } else {
        assert((a + b).drop_last() =~= a + b.drop_last());
        levels_of_files_add_up(a, b.drop_last(), level);
        if b.len() == 1 {
            assert(b.drop_last().len() == 0);
            assert(level_total(b.drop_last(), level) == 0);
        }
    }
}

/// The program exits with zero exactly when something was found, and with one
/// otherwise.
pub proof fn status_tells_whether_anything_was_found(total: usize, r: i32)
    requires
        call_ensures(exit_status, (total,), r),
    ensures
        r == 0 <==> total > 0,
        r == 1 <==> total == 0,
{
}

// ---------------------------------------------------------------------------
// Counting
// ---------------------------------------------------------------------------

/// The counts of all files are added up.
pub proof fn counts_of_files_add_up(a: Seq<FileCount>, b: Seq<FileCount>)
    ensures
        counts_sum(a + b) == counts_sum(a) + counts_sum(b),
        b.len() == 0 ==> counts_sum(b) == 0,
        b.len() == 1 ==> counts_sum(b) == b[0].count,
    decreases b.len(),
{
    if b.len() == 0 {
        assert(a + b =~= a);
    } else {
        assert((a + b).drop_last() =~= a + b.drop_last());
        counts_of_files_add_up(a, b.drop_last());
        if b.len() == 1 {
            assert(b.drop_last().len() == 0);
            assert(counts_sum(b.drop_last()) == 0);
        }
    }
}

/// A count has one plain line for each file with matches, in the order of the files,
/// with its name and its number, and none for any other.
pub proof fn files_with_matches_are_counted(counts: Seq<FileCount>)
    ensures
        count_rows(counts) == counts.filter(|c: FileCount| c.count > 0).map_values(
            |c: FileCount| seq![plain(c.path@.name + ": "@ + decimal(c.count as nat))],
        ),
    decreases counts.len(),
{
    reveal(Seq::filter);
    if counts.len() > 0 {
        files_with_matches_are_counted(counts.drop_last());
    }
    assert(count_rows(counts) =~= counts.filter(|c: FileCount| c.count > 0).map_values(
        |c: FileCount| seq![plain(c.path@.name + ": "@ + decimal(c.count as nat))],
    ));
}

/// A count ends with the total over all files, with and without matches.
pub proof fn counts_end_with_the_total(counts: &Vec<FileCount>, r: CountReport)
    requires
        call_ensures(count_report, (counts,), r),
    ensures
        line_views(r.rows@) == counts@.filter(|c: FileCount| c.count > 0).map_values(
            |c: FileCount| seq![plain(c.path@.name + ": "@ + decimal(c.count as nat))],
        ),
        bare_text(span_views(r.summary@)) == "Total: "@ + decimal(counts_sum(counts@))
            + " matches across "@ + decimal(counts@.len()) + " files"@,
        span_views(r.summary@)[0].style == Style::Bold,
{
    files_with_matches_are_counted(counts@);
    let s = span_views(r.summary@);
    text_of_two(s[0], s[1]);
    assert(s =~= seq![s[0], s[1]]);
    reveal_strlit("Total:");
    reveal_strlit("Total: ");
    reveal_strlit(" ");
    assert(bare_text(s) =~= "Total: "@ + decimal(counts_sum(counts@)) + " matches across "@
        + decimal(counts@.len()) + " files"@);
}

// ---------------------------------------------------------------------------
// The report
// ---------------------------------------------------------------------------

/// A line with a value reads as its name and the value, two spaces in.
pub proof fn values_read_so(name: Seq<char>, style: Style, value: Seq<char>)
    ensures
        bare_text(value_line(name, style, value)) == "  "@ + name + " "@ + value,
        value_line(name, style, value)[1].style == Style::Dimmed,
        value_line(name, style, value)[3].style == style,
{
    let l = value_line(name, style, value);
    text_of_four(l[0], l[1], l[2], l[3]);
    assert(l =~= seq![l[0], l[1], l[2], l[3]]);
}

/// The line across the report is fifty-five rules wide.
pub proof fn rules_are_wide(i: int)
    ensures
        bare_text(rule_line()).len() == 55,
        0 <= i < 55 ==> bare_text(rule_line())[i] == '\u{2500}',
        rule_line()[0].style == Style::Dimmed,
{
    reveal_strlit("\u{2500}");
    let l = rule_line();
    text_of_one(l[0]);
    assert(l =~= seq![l[0]]);
    copies_follow_each_other("\u{2500}"@, 55);
}

/// The line of a level reads as its name in ten columns and its count, in the colour
/// of the level.
pub proof fn level_lines_read_so(level: Seq<char>, count: nat)
    ensures
        bare_text(level_row(level, count)) == "  "@ + (" "@ + pad_end(level, 10) + " "@ + decimal(
            count,
        )),
        level_row(level, count)[1].style == row_style(lower(level)),
{
    let l = level_row(level, count);
    text_of_two(l[0], l[1]);
    assert(l =~= seq![l[0], l[1]]);
}

/// The colour of a level in the report: five groups of names, and none for any other.
pub proof fn listed_levels_have_their_colours(level: Seq<char>)
    ensures
        row_style(level) == Style::WhiteOnRed <==> set!["fatal"@, "critical"@].contains(level),
        row_style(level) == Style::Red <==> level == "error"@,
        row_style(level) == Style::Yellow <==> set!["warn"@, "warning"@].contains(level),
        row_style(level) == Style::Green <==> level == "info"@,
        row_style(level) == Style::Dimmed <==> set!["debug"@, "trace"@].contains(level),
        row_style(level) == Style::Plain <==> !set![
            "fatal"@,
            "critical"@,
            "error"@,
            "warn"@,
            "warning"@,
            "info"@,
            "debug"@,
            "trace"@,
        ].contains(level),
{
    reveal_strlit("fatal");
    reveal_strlit("critical");
    reveal_strlit("error");
    reveal_strlit("warn");
    reveal_strlit("warning");
    reveal_strlit("info");
    reveal_strlit("debug");
    reveal_strlit("trace");
    if level == "error"@ {
        assert(level[0] == 'e');
    }
    if level == "warn"@ || level == "warning"@ {
        assert(level[0] == 'w');
    }
    if level == "info"@ {
        assert(level[0] == 'i');
    }
    if level == "debug"@ || level == "trace"@ {
        assert(level[0] == 'd' || level[0] == 't');
    }
    if level == "fatal"@ || level == "critical"@ {
        assert(level[0] == 'f' || level[0] == 'c');
    }
}

/// The part on levels: nothing where there are none; otherwise an empty line, a
/// title, and a line for every level, the most frequent first and equally frequent
/// ones as they first came up.
pub proof fn every_level_is_listed(levels: Seq<(Seq<char>, nat)>, order: Seq<usize>, i: int)
    requires
        levels.len() <= usize::MAX,
        order == count_ranking(levels.map_values(|c: (Seq<char>, nat)| c.1)),
    ensures
        descends(levels.map_values(|c: (Seq<char>, nat)| c.1), order),
        levels.len() == 0 ==> level_part(levels).len() == 0,
        levels.len() > 0 ==> {
            let part = level_part(levels);
            &&& part.len() == levels.len() + 2
            &&& part[0].len() == 0
            &&& bare_text(part[1]) == "  Log Level Distribution:"@
            &&& part[1].last().style == Style::Bold
            &&& 0 <= i < levels.len() ==> part[i + 2] == level_row(
                levels[order[i] as int].0,
                levels[order[i] as int].1,
            )
        },
{
    rankings_descend(levels.map_values(|c: (Seq<char>, nat)| c.1));
    if levels.len() > 0 {
        let title = level_part(levels)[1];
        text_of_two(title[0], title[1]);
        assert(title =~= seq![title[0], title[1]]);
        reveal_strlit("  ");
        reveal_strlit("Log Level Distribution:");
        reveal_strlit("  Log Level Distribution:");
        assert(bare_text(title) =~= "  Log Level Distribution:"@);
    }
}

/// The line of a file reads as its name and its matches, four spaces in.
pub proof fn file_lines_read_so(r: ReportView)
    ensures
        file_row(r) == seq![
            SpanView {
                style: Style::Plain,
                text: "    "@ + r.path.file_name + ": "@ + decimal(r.matched),
                width: 0,
            },
        ],
{
}

proof fn first_files_have_matches(reports: Seq<ReportView>, order: Seq<usize>, k: nat, m: nat)
    requires
        k <= order.len(),
        m <= k,
        forall|p: int| 0 <= p < m ==> reports[(#[trigger] order[p]) as int].matched > 0,
        forall|p: int| m <= p < k ==> reports[(#[trigger] order[p]) as int].matched == 0,
    ensures
        file_rows(reports, order, k).len() == m,
        forall|p: int|
            0 <= p < m ==> #[trigger] file_rows(reports, order, k)[p] == file_row(
                reports[order[p] as int],
            ),
    decreases k,
{
    if k > 0 {
        let last = order[k - 1];
        if m == k {
            assert(reports[last as int].matched > 0);
            first_files_have_matches(reports, order, (k - 1) as nat, (m - 1) as nat);
        } else {
            assert(reports[last as int].matched == 0);
            first_files_have_matches(reports, order, (k - 1) as nat, m);
        }
    }
}

proof fn matches_come_first(reports: Seq<ReportView>, order: Seq<usize>, k: nat) -> (m: nat)
    requires
        descends(reports.map_values(|r: ReportView| r.matched), order),
        k <= order.len(),
    ensures
        m <= k,
        forall|p: int| 0 <= p < m ==> reports[(#[trigger] order[p]) as int].matched > 0,
        forall|p: int| m <= p < order.len() && m < k ==> reports[(
        #[trigger] order[p]) as int].matched == 0,
    decreases k,
{
    let counts = reports.map_values(|r: ReportView| r.matched);
    if k == 0 {
        0
    } else if reports[order[k - 1] as int].matched > 0 {
        assert forall|p: int| 0 <= p < k implies reports[(#[trigger] order[p]) as int].matched
            > 0 by {
            if p < k - 1 {
                assert(counts[order[p] as int] >= counts[order[k - 1] as int]);
            }
        }
        k
    } else {
        let m = matches_come_first(reports, order, (k - 1) as nat);
        assert forall|p: int| m <= p < order.len() implies reports[(
        #[trigger] order[p]) as int].matched == 0 by {
            if p > k - 1 {
                assert(counts[order[k - 1] as int] >= counts[order[p] as int]);
            } else if m == k - 1 {
                assert(p == k - 1);
            }
        }
        m
    }
}

/// The part on files names the files with the most matches, at most five of them,
/// the one with the most first and equals as they stand, and never one without a
/// match: the first `m` of the order by matches, where `m` is five, or where the
/// matches end before.
pub proof fn the_best_files_are_named(
    reports: Seq<ReportView>,
    order: Seq<usize>,
) -> (m: nat)
    requires
        reports.len() <= usize::MAX,
        order == count_ranking(reports.map_values(|r: ReportView| r.matched)),
    ensures
        descends(reports.map_values(|r: ReportView| r.matched), order),
        m <= 5,
        m <= reports.len(),
        forall|p: int| 0 <= p < m ==> reports[(#[trigger] order[p]) as int].matched > 0,
        m < 5 ==> forall|p: int|
            m <= p < order.len() ==> reports[(#[trigger] order[p]) as int].matched == 0,
        m == 0 ==> file_part(reports).len() == 0,
        m > 0 ==> {
            let part = file_part(reports);
            &&& part.len() == m + 2
            &&& part[0].len() == 0
            &&& bare_text(part[1]) == "  Top Files:"@
            &&& part[1].last().style == Style::Bold
        },
        forall|p: int|
            0 <= p < m ==> file_part(reports)[p + 2] == file_row(
                reports[(#[trigger] order[p]) as int],
            ),
{
    let counts = reports.map_values(|r: ReportView| r.matched);
    rankings_descend(counts);
    let k: nat = smaller(reports.len(), 5);
    let m = matches_come_first(reports, order, k);
    first_files_have_matches(reports, order, k, m);
    let rows = file_rows(reports, order, k);
    let part = file_part(reports);
    if m > 0 {
        let title = part[1];
        text_of_two(title[0], title[1]);
        assert(title =~= seq![title[0], title[1]]);
        reveal_strlit("  ");
        reveal_strlit("Top Files:");
        reveal_strlit("  Top Files:");
        assert(bare_text(title) =~= "  Top Files:"@);
        assert forall|p: int| 0 <= p < m implies part[p + 2] == file_row(
            reports[(#[trigger] order[p]) as int],
        ) by {
            assert(part[p + 2] == rows[p]);
        }
    }
    m
}

/// The report as it reads: the number of files, of lines and of matches, how long it
/// took, how fast it was where there were any lines, then the levels of all files,
/// then the files with the most matches, between two rules.
pub proof fn the_report_reads_so(
    reports: &Vec<FileReport>,
    matches: usize,
    elapsed: &str,
    speed: &str,
    r: Vec<Vec<Span>>,
)
    requires
        call_ensures(stats_report, (reports, matches, elapsed, speed), r),
    ensures
        ({
            let all = report_views(reports@);
            let out = line_views(r@);
            let lines = lines_scanned(all);
            let head: int = if lines > 0 { 8 } else { 7 };
            let levels = level_part(all_levels(all));
            let files = file_part(all);
            &&& out.len() == head + levels.len() + files.len() + 1
            &&& out[0].len() == 0
            &&& out[1] == rule_line()
            &&& bare_text(out[2]) == "\u{1f4ca} Search Statistics"@
            &&& out[2][0].style == Style::Bold
            &&& bare_text(out[3]) == "  Files: "@ + decimal(reports@.len())
            &&& bare_text(out[4]) == "  Lines scanned: "@ + decimal(lines)
            &&& bare_text(out[5]) == "  Matches: "@ + decimal(matches as nat)
            &&& bare_text(out[6]) == "  Elapsed: "@ + elapsed@
            &&& out[3].last().style == Style::Plain
            &&& out[4].last().style == Style::Plain
            &&& out[5].last().style == Style::Bold
            &&& out[6].last().style == Style::Plain
            &&& lines > 0 ==> bare_text(out[7]) == "  Speed: "@ + speed@ && out[7].last().style
                == Style::Plain
            &&& out.subrange(head, head + levels.len()) == levels
            &&& out.subrange(head + levels.len(), head + levels.len() + files.len()) == files
            &&& out.last() == rule_line()
        }),
{
    let all = report_views(reports@);
    let out = line_views(r@);
    let lines = lines_scanned(all);
    let head: int = if lines > 0 { 8 } else { 7 };
    let levels = level_part(all_levels(all));
    let files = file_part(all);
    assert(all.len() == reports@.len());
    assert(out == stats_lines(all, matches as nat, elapsed@, speed@));
    text_of_one(out[2][0]);
    assert(out[2] =~= seq![out[2][0]]);
    reveal_strlit("  ");
    reveal_strlit(" ");
    reveal_strlit("Files:");
    reveal_strlit("  Files: ");
    reveal_strlit("Lines scanned:");
    reveal_strlit("  Lines scanned: ");
    reveal_strlit("Matches:");
    reveal_strlit("  Matches: ");
    reveal_strlit("Elapsed:");
    reveal_strlit("  Elapsed: ");
    reveal_strlit("Speed:");
    reveal_strlit("  Speed: ");
    values_read_so("Files:"@, Style::Plain, decimal(all.len()));
    assert(bare_text(out[3]) =~= "  Files: "@ + decimal(reports@.len()));
    values_read_so("Lines scanned:"@, Style::Plain, decimal(lines));
    assert(bare_text(out[4]) =~= "  Lines scanned: "@ + decimal(lines));
    values_read_so("Matches:"@, Style::Bold, decimal(matches as nat));
    assert(bare_text(out[5]) =~= "  Matches: "@ + decimal(matches as nat));
    values_read_so("Elapsed:"@, Style::Plain, elapsed@);
    assert(bare_text(out[6]) =~= "  Elapsed: "@ + elapsed@);
    if lines > 0 {
        values_read_so("Speed:"@, Style::Plain, speed@);
        assert(bare_text(out[7]) =~= "  Speed: "@ + speed@);
    }
    assert(out.subrange(head, head + levels.len()) =~= levels);
    assert(out.subrange(head + levels.len(), head + levels.len() + files.len()) =~= files);
}

} // verus!
