use loglens::paths::{LogPath, PathPart};
use loglens::query::{Judgement, Query, QueryError, Since};
use loglens::search::{
    count_matches, level_of, search_file, window_of, FileSearch, SearchOutcome, SearchResult, Window,
};

fn path(name: &str) -> LogPath {
    LogPath {
        name: name.to_string(),
        file_name: name.to_string(),
        parts: vec![PathPart { rank: 4, text: name.as_bytes().to_vec() }],
        handle: 3,
    }
}

fn lines(texts: &[&str]) -> Vec<Option<String>> {
    texts.iter().map(|t| Some(t.to_string())).collect()
}

fn bare(max_results: Option<usize>) -> Window {
    Window { before: 0, after: 0, max_results }
}

fn search(texts: &[&str], q: &str, window: Window) -> SearchOutcome {
    search_file(path("app.log"), &lines(texts), &Query::new(q), window, &None).unwrap()
}

fn shown(results: &Vec<SearchResult>) -> Vec<(usize, bool)> {
    for r in results {
        assert_ne!(r.is_match, r.is_context);
    }
    results.iter().map(|r| (r.line_num, r.is_match)).collect()
}

const TEN: [&str; 10] = ["a", "b", "hit", "c", "d", "e", "hit", "hit", "f", "g"];

#[test]
fn matches_without_context() {
    let r = search(&TEN, "HIT", bare(None));
    assert_eq!(shown(&r.results), [(3, true), (7, true), (8, true)]);
    assert_eq!(r.stats.total_lines, 10);
    assert_eq!(r.stats.matched_lines, 3);
    assert_eq!(count_matches(&r.results), 3);
    assert!(r.failures.is_empty());
    assert_eq!(r.results[0].raw_line, "hit");
    assert_eq!(r.results[0].file.name, "app.log");
    assert_eq!(r.results[0].file.handle, 3);
    assert!(r.results[0].parsed.is_none());
}

#[test]
fn nothing_is_found() {
    let r = search(&TEN, "miss", bare(None));
    assert!(r.results.is_empty());
    assert_eq!((r.stats.total_lines, r.stats.matched_lines), (10, 0));
    let r = search(&[], "x", bare(None));
    assert_eq!((r.stats.total_lines, r.stats.matched_lines), (0, 0));
}

#[test]
fn context_before_a_match() {
    let r = search(&TEN, "hit", Window { before: 2, after: 0, max_results: None });
    assert_eq!(
        shown(&r.results),
        [
            (1, false), (2, false), (3, true),
            (5, false), (6, false), (7, true),
            (6, false), (7, false), (8, true),
        ]
    );
}

#[test]
fn a_match_within_the_context_of_another_is_a_match() {
    let r = search(&TEN, "hit", Window { before: 0, after: 1, max_results: None });
    assert_eq!(
        shown(&r.results),
        [(3, true), (4, false), (7, true), (8, true), (9, false)]
    );
    assert_eq!(r.stats.matched_lines, 3);
    let r = search(
        &["hit 1", "hit 2", "tail"],
        "hit",
        Window { before: 0, after: 1, max_results: None },
    );
    assert_eq!(shown(&r.results), [(1, true), (2, true), (3, false)]);
    assert_eq!(r.stats.matched_lines, 2);
}

#[test]
fn context_on_both_sides() {
    let r = search(&TEN, "hit", window_of(1, 0, 0, None));
    assert_eq!(
        shown(&r.results),
        [
            (2, false), (3, true), (4, false),
            (6, false), (7, true),
            (7, false), (8, true), (9, false),
        ]
    );
}

#[test]
fn context_at_the_ends_of_a_file() {
    let r = search(&["hit", "a"], "hit", window_of(5, 0, 0, None));
    assert_eq!(shown(&r.results), [(1, true), (2, false)]);
    let r = search(&["a", "hit"], "hit", window_of(5, 0, 0, None));
    assert_eq!(shown(&r.results), [(1, false), (2, true)]);
}

#[test]
fn context_counts_for_both_sides() {
    let w = window_of(3, 1, 2, Some(9));
    assert_eq!((w.before, w.after, w.max_results), (3, 3, Some(9)));
    let w = window_of(0, 1, 2, None);
    assert_eq!((w.before, w.after, w.max_results), (1, 2, None));
}

#[test]
fn the_search_stops_at_the_limit() {
    let r = search(&TEN, "hit", Window { before: 0, after: 2, max_results: Some(1) });
    assert_eq!(shown(&r.results), [(3, true)]);
    assert_eq!(r.stats.total_lines, 3);
    let r = search(&TEN, "hit", bare(Some(2)));
    assert_eq!(shown(&r.results), [(3, true), (7, true)]);
    let r = search(&TEN, "hit", bare(Some(99)));
    assert_eq!(shown(&r.results), [(3, true), (7, true), (8, true)]);
}

#[test]
fn a_limit_of_zero_shows_nothing() {
    let r = search(&TEN, "hit", bare(Some(0)));
    assert!(r.results.is_empty());
    assert_eq!((r.stats.total_lines, r.stats.matched_lines), (0, 0));
    assert!(FileSearch::new(path("f"), bare(Some(0))).is_stopped());
}

#[test]
fn lines_before_change_no_match_and_no_count() {
    let none = search(&TEN, "hit", Window { before: 0, after: 1, max_results: Some(3) });
    let some = search(&TEN, "hit", Window { before: 4, after: 1, max_results: Some(3) });
    let matches = |r: &SearchOutcome| -> Vec<usize> {
        r.results.iter().filter(|m| m.is_match).map(|m| m.line_num).collect()
    };
    assert_eq!(matches(&none), matches(&some));
    assert_eq!(none.stats.total_lines, some.stats.total_lines);
    assert_eq!(none.stats.matched_lines, some.stats.matched_lines);
}

#[test]
fn a_time_filter_removes_the_earlier_entries() {
    let texts = [
        r#"{"ts":"2020-01-01T00:00:00Z","m":"hit"}"#,
        "hit",
        r#"{"m":"hit"}"#,
        r#"{"ts":"2024-01-01T00:00:00Z","m":"hit"}"#,
    ];
    let q = Query::new("hit");
    let with = |s: Option<Since>| {
        shown(&search_file(path("f"), &lines(&texts), &q, bare(None), &s).unwrap().results)
    };
    assert_eq!(with(None), [(1, true), (2, true), (3, true), (4, true)]);
    assert_eq!(
        with(Some(Since::new("2024-01-01T00:00:00Z"))),
        [(2, true), (3, true), (4, true)]
    );
    assert_eq!(with(Some(Since::new("whenever"))), with(None));
}

#[test]
fn a_search_stops_at_a_line_that_cannot_be_judged() {
    let texts = lines(&["plain", r#"{"ts":"2024-01-01T00:00:00Z"}"#]);
    let q = Query::new("ts > 999999999y");
    assert!(search_file(path("f"), &texts, &q, bare(None), &None).is_none());
    assert!(search_file(path("f"), &texts, &q, bare(Some(0)), &None).is_some());
    let mut s = FileSearch::new(path("f"), bare(None));
    assert!(s.feed(texts[0].clone(), &q, &None));
    assert!(!s.feed(texts[1].clone(), &q, &None));
    assert_eq!(s.finish().1.total_lines, 1);
}

#[test]
fn unreadable_lines_are_counted_and_passed_over() {
    let texts = vec![Some("a".to_string()), None, Some("hit".to_string()), None];
    let r = search_file(
        path("f"),
        &texts,
        &Query::new("hit"),
        Window { before: 2, after: 1, max_results: None },
        &None,
    )
    .unwrap();
    assert_eq!(shown(&r.results), [(1, false), (3, true)]);
    assert_eq!(r.stats.total_lines, 4);
}

#[test]
fn levels_are_counted_by_entry() {
    let r = search(
        &[
            r#"{"level":"info"}"#,
            r#"{"severity":"error"}"#,
            r#"{"level":"info","severity":"warn"}"#,
            r#"{"level":7,"severity":"warn"}"#,
            r#"{"level":"INFO"}"#,
            "level info",
            r#"{"other":1}"#,
        ],
        "none of these",
        bare(None),
    );
    let t = &r.stats.level_counts;
    assert_eq!(t.len(), 4);
    assert_eq!(t.get("info"), 2);
    assert_eq!(t.get("error"), 1);
    assert_eq!(t.get("warn"), 1);
    assert_eq!(t.get("INFO"), 1);
    assert_eq!(t.get("debug"), 0);
}

#[test]
fn levels_of_entries() {
    let v = |t: &str| -> Option<serde_json::Value> { serde_json::from_str(t).ok() };
    assert_eq!(level_of(&v(r#"{"level":"a","severity":"b"}"#)), Some("a".to_string()));
    assert_eq!(level_of(&v(r#"{"level":null,"severity":"b"}"#)), Some("b".to_string()));
    assert_eq!(level_of(&v(r#"{"level":1}"#)), None);
    assert_eq!(level_of(&v("[1]")), None);
    assert_eq!(level_of(&None), None);
}

#[test]
fn levels_are_counted_in_context_too() {
    let r = search(
        &[r#"{"level":"error"}"#, r#"{"level":"info"}"#],
        "error",
        Window { before: 0, after: 1, max_results: None },
    );
    assert_eq!(shown(&r.results), [(1, true), (2, false)]);
    assert_eq!(r.stats.level_counts.get("info"), 1);
}

#[test]
fn json_nginx_and_logfmt_lines_are_parsed() {
    let json = r#"  {"level":"error","n":[1,2]}  "#;
    let nginx = r#"10.0.0.1 - - [10/Oct/2023:13:55:36 +0000] "GET /a HTTP/1.1" 404 15 "-" "curl""#;
    let logfmt = "level=warn msg=hello";
    let r = search(&[json, nginx, logfmt, "plain"], "", bare(None));
    assert_eq!(r.stats.matched_lines, 4);
    assert_eq!(r.results[0].parsed.as_ref().unwrap()["level"], "error");
    assert!(r.results[1].parsed.as_ref().unwrap().is_object());
    assert_eq!(r.results[2].parsed.as_ref().unwrap()["msg"], "hello");
    assert!(r.results[3].parsed.is_none());
    assert_eq!(r.results[0].raw_line, json);
    let r = search(&[json, nginx, logfmt], "level == warn", bare(None));
    assert_eq!(shown(&r.results), [(3, true)]);
}

#[test]
fn queries_that_cannot_be_answered_are_reported_line_by_line() {
    let r = search(&[r#"{"a":5}"#, "text", r#"{"a":6}"#], "a > 1 && b", bare(None));
    assert!(r.results.is_empty());
    assert_eq!(
        r.failures,
        ["Invalid query format: 'b'", "Invalid query format: 'b'"]
    );
}

#[test]
fn searches_since_a_time() {
    let texts = lines(&[
        r#"{"ts":"2020-01-01T00:00:00Z","m":"hit"}"#,
        r#"{"ts":"2999-01-01T00:00:00Z","m":"hit"}"#,
        "hit",
    ]);
    let q = Query::new("hit");
    let r = search_file(path("f"), &texts, &q, bare(None), &Some(Since::new("1h"))).unwrap();
    assert_eq!(shown(&r.results), [(2, true), (3, true)]);
}

#[test]
fn lines_are_fed_one_at_a_time() {
    let mut s = FileSearch::new(path("f"), bare(Some(1)));
    let q = Query::new("hit");
    assert!(s.feed(Some("a".to_string()), &q, &None));
    assert!(s.feed(None, &q, &None));
    assert!(!s.is_stopped());
    assert!(s.feed(Some("hit".to_string()), &q, &None));
    assert!(s.is_stopped());
    assert!(s.feed(Some("hit".to_string()), &q, &None));
    let (results, stats) = s.finish();
    assert_eq!(shown(&results), [(3, true)]);
    assert_eq!(stats.total_lines, 3);
}

#[test]
fn judgements_are_taken_as_given() {
    let mut s = FileSearch::new(path("f"), Window { before: 1, after: 0, max_results: None });
    s.observe("a".to_string(), None, Judgement { accepted: false, failure: None });
    s.pass_unreadable();
    s.observe(
        "b".to_string(),
        None,
        Judgement {
            accepted: false,
            failure: Some(QueryError::InvalidFormat("z".to_string())),
        },
    );
    s.observe("c".to_string(), None, Judgement { accepted: true, failure: None });
    assert_eq!(s.failures(), &["Invalid query format: 'z'"]);
    let (results, stats) = s.finish();
    assert_eq!(shown(&results), [(3, false), (4, true)]);
    assert_eq!(results[0].raw_line, "b");
    assert_eq!((stats.total_lines, stats.matched_lines), (4, 1));
}

#[test]
fn results_come_in_the_order_of_the_lines() {
    let texts: Vec<String> = (0..40).map(|i| format!("line {}", i % 3)).collect();
    let refs: Vec<&str> = texts.iter().map(|t| t.as_str()).collect();
    let r = search(&refs, "line 1", bare(None));
    let numbers: Vec<usize> = r.results.iter().map(|m| m.line_num).collect();
    let expected: Vec<usize> = (0..40).filter(|i| i % 3 == 1).map(|i| i + 1).collect();
    assert_eq!(numbers, expected);
    for m in &r.results {
        assert_eq!(m.raw_line, texts[m.line_num - 1]);
    }
}

#[test]
fn a_limited_search_shows_the_beginning_of_an_unlimited_one() {
    let whole = search(&TEN, "hit", window_of(1, 0, 0, None));
    for max in 0..5 {
        let part = search(&TEN, "hit", window_of(1, 0, 0, Some(max)));
        let n = part.results.len();
        assert_eq!(shown(&part.results)[..], shown(&whole.results)[..n]);
        assert_eq!(part.stats.matched_lines, max.min(whole.stats.matched_lines));
        assert!(part.stats.total_lines <= whole.stats.total_lines);
    }
}

#[test]
fn a_search_repeated_gives_the_same() {
    let texts = [r#"{"a":1}"#, "a 1", r#"{"a":2}"#];
    let first = search(&texts, "a == 1", bare(None));
    let second = search(&texts, "a == 1", bare(None));
    assert_eq!(shown(&first.results), shown(&second.results));
    assert_eq!(shown(&first.results), [(1, true)]);
}
