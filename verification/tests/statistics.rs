use loglens::paint::{render, Span, Style};
use loglens::paths::LogPath;
use loglens::query::Query;
use loglens::search::{count_matches, search_file, window_of, FileStats, SearchResult};
use loglens::stats::{
    count_report, exit_status, gather, merge_levels, stats_report, FileCount, FileReport,
    SearchedFile,
};
use loglens::tally::Tally;

fn path(name: &str) -> LogPath {
    LogPath {
        name: format!("logs/{}", name),
        file_name: name.to_string(),
        parts: Vec::new(),
        handle: 0,
    }
}

fn stats(total_lines: usize, matched_lines: usize, levels: &[(&str, usize)]) -> FileStats {
    let mut level_counts = Tally::new();
    for (name, n) in levels {
        level_counts.add(name, *n);
    }
    FileStats { total_lines, matched_lines, level_counts }
}

fn report(name: &str, stats: FileStats) -> FileReport {
    FileReport { path: path(name), stats }
}

fn bare(lines: &Vec<Vec<Span>>) -> Vec<String> {
    colored::control::set_override(false);
    lines.iter().map(|l| render(l)).collect()
}

#[test]
fn levels_of_all_files_are_added_up() {
    let reports = vec![
        report("a", stats(9, 0, &[("info", 3), ("error", 1)])),
        report("b", stats(9, 0, &[("error", 4), ("warn", 2)])),
    ];
    let t = merge_levels(&reports);
    assert_eq!(t.len(), 3);
    assert_eq!((t.get("info"), t.get("error"), t.get("warn")), (3, 5, 2));
}

#[test]
fn the_statistics_of_a_search() {
    let reports = vec![
        report("a.log", stats(10, 2, &[("info", 3), ("error", 1)])),
        report("b.log", stats(5, 0, &[("error", 4)])),
        report("c.log", stats(0, 3, &[])),
    ];
    let rule = "\u{2500}".repeat(55);
    assert_eq!(
        bare(&stats_report(&reports, 5, "0.125s", "120 lines/sec")),
        [
            "",
            rule.as_str(),
            "\u{1f4ca} Search Statistics",
            "  Files: 3",
            "  Lines scanned: 15",
            "  Matches: 5",
            "  Elapsed: 0.125s",
            "  Speed: 120 lines/sec",
            "",
            "  Log Level Distribution:",
            "   error      5",
            "   info       3",
            "",
            "  Top Files:",
            "    c.log: 3",
            "    a.log: 2",
            rule.as_str(),
        ]
    );
}

#[test]
fn the_statistics_of_nothing() {
    let rule = "\u{2500}".repeat(55);
    assert_eq!(
        bare(&stats_report(&Vec::new(), 0, "0.000s", "NaN lines/sec")),
        [
            "",
            rule.as_str(),
            "\u{1f4ca} Search Statistics",
            "  Files: 0",
            "  Lines scanned: 0",
            "  Matches: 0",
            "  Elapsed: 0.000s",
            rule.as_str(),
        ]
    );
}

#[test]
fn five_files_are_named_at_most() {
    let reports: Vec<FileReport> =
        (0..7).map(|i| report(&format!("f{}", i), stats(9, i + 1, &[]))).collect();
    let lines = bare(&stats_report(&reports, 28, "", ""));
    let named: Vec<&String> = lines.iter().filter(|l| l.starts_with("    f")).collect();
    assert_eq!(named, ["    f6: 7", "    f5: 6", "    f4: 5", "    f3: 4", "    f2: 3"]);
}

#[test]
fn levels_are_styled() {
    let levels = [
        ("FATAL", 9),
        ("critical", 8),
        ("Error", 7),
        ("warn", 6),
        ("warning", 5),
        ("info", 4),
        ("debug", 3),
        ("trace", 2),
        ("err", 1),
    ];
    let reports = vec![report("a", stats(99, 0, &levels))];
    let lines = stats_report(&reports, 0, "", "");
    let styles: Vec<(Style, String)> = lines[10..19]
        .iter()
        .map(|l| (l[1].style, l[1].text.clone()))
        .collect();
    let expected = [
        (Style::WhiteOnRed, " FATAL      9"),
        (Style::WhiteOnRed, " critical   8"),
        (Style::Red, " Error      7"),
        (Style::Yellow, " warn       6"),
        (Style::Yellow, " warning    5"),
        (Style::Green, " info       4"),
        (Style::Dimmed, " debug      3"),
        (Style::Dimmed, " trace      2"),
        (Style::Plain, " err        1"),
    ];
    for i in 0..9 {
        assert_eq!(styles[i], (expected[i].0, expected[i].1.to_string()));
    }
}

#[test]
fn searched_files_are_gathered() {
    let q = Query::new("x");
    let mut files = Vec::new();
    for (name, texts) in [("a", vec!["x", "y", "x"]), ("b", vec!["y"]), ("c", vec!["x"])] {
        let lines: Vec<Option<String>> = texts.iter().map(|t| Some(t.to_string())).collect();
        let r = search_file(path(name), &lines, &q, window_of(0, 0, 0, None), &None).unwrap();
        files.push(SearchedFile { path: path(name), results: r.results, stats: r.stats });
    }
    let g = gather(files);
    assert_eq!(g.total_matches, 3);
    let lines: Vec<(String, usize)> =
        g.results.iter().map(|r| (r.file.file_name.clone(), r.line_num)).collect();
    assert_eq!(
        lines,
        [("a".to_string(), 1), ("a".to_string(), 3), ("c".to_string(), 1)]
    );
    assert_eq!(count_matches(&g.results), g.total_matches);
    let matched: Vec<usize> = g.reports.iter().map(|r| r.stats.matched_lines).collect();
    assert_eq!(matched, [2, 0, 1]);
    assert_eq!(g.reports[1].path.name, "logs/b");
    let none: Vec<SearchResult> = Vec::new();
    assert_eq!(count_matches(&none), 0);
}

#[test]
fn finding_nothing_is_a_failure() {
    assert_eq!(exit_status(0), 1);
    assert_eq!(exit_status(1), 0);
    assert_eq!(exit_status(usize::MAX), 0);
}

#[test]
fn counts_of_files() {
    let counts = vec![
        FileCount { path: path("a"), count: 2 },
        FileCount { path: path("b"), count: 0 },
        FileCount { path: path("c"), count: 40 },
    ];
    let r = count_report(&counts);
    assert_eq!(bare(&r.rows), ["logs/a: 2", "logs/c: 40"]);
    assert_eq!(render(&r.summary), "Total: 42 matches across 3 files");
    let r = count_report(&Vec::new());
    assert!(r.rows.is_empty());
    assert_eq!(render(&r.summary), "Total: 0 matches across 0 files");
}
