use loglens::paint::{render, Span, Style};
use loglens::paths::{LogPath, PathPart};
use loglens::query::Query;
use loglens::watch::WatchList;

fn path(name: &str) -> LogPath {
    LogPath {
        name: name.to_string(),
        file_name: name.to_string(),
        parts: vec![PathPart { rank: 4, text: name.as_bytes().to_vec() }],
        handle: 0,
    }
}

fn bare(lines: &Vec<Vec<Span>>) -> Vec<String> {
    colored::control::set_override(false);
    lines.iter().map(|l| render(l)).collect()
}

#[test]
fn only_what_is_appended_is_read() {
    let mut w = WatchList::new(0);
    let a = w.add(&path("a"), Some(10));
    assert_eq!(w.poll(a, 10), None);
    assert_eq!(w.poll(a, 25), Some(10));
    assert_eq!(w.poll(a, 25), None);
    assert_eq!(w.poll(a, 40), Some(25));
}

#[test]
fn a_file_that_shrank_waits_until_it_has_grown_again() {
    let mut w = WatchList::new(0);
    let a = w.add(&path("a"), Some(10));
    assert_eq!(w.poll(a, 3), None);
    assert_eq!(w.poll(a, 9), None);
    assert_eq!(w.poll(a, 12), Some(10));
}

#[test]
fn a_missing_file_is_read_from_its_start() {
    let mut w = WatchList::new(0);
    let a = w.add(&path("a"), None);
    assert_eq!(w.poll(a, 0), None);
    assert_eq!(w.poll(a, 5), Some(0));
}

#[test]
fn a_file_named_twice_is_one() {
    let mut w = WatchList::new(0);
    let a = w.add(&path("a"), Some(1));
    let b = w.add(&path("b"), Some(2));
    assert_ne!(a, b);
    assert_eq!(w.add(&path("a"), Some(7)), a);
    assert_eq!(w.poll(a, 8), Some(7));
    assert_eq!(w.poll(b, 8), Some(2));
}

#[test]
fn every_line_is_shown_without_a_query() {
    let mut w = WatchList::new(0);
    let a = w.add(&path("a"), None);
    let out = w.observe(a, "a.log", "hello \r\n", &None, true).unwrap();
    assert_eq!(bare(&out), ["[a.log] \u{25b6} hello"]);
    assert!(w.observe(a, "a.log", " \t\n", &None, false).unwrap().is_empty());
    assert!(w.observe(a, "a.log", "", &None, false).unwrap().is_empty());
}

#[test]
fn matches_come_with_the_lines_before_them() {
    let mut w = WatchList::new(2);
    let a = w.add(&path("a"), None);
    let q = Some(Query::new("hit"));
    for line in ["one\n", "two\n", "\n", "three\n"] {
        assert!(w.observe(a, "f", line, &q, false).unwrap().is_empty());
    }
    let out = w.observe(a, "f", "a HIT\n", &q, false).unwrap();
    assert_eq!(
        bare(&out),
        ["[f] \u{2502} two", "[f] \u{2502} three", "[f] \u{25b6} a HIT"]
    );
    assert_eq!(out[0][0].style, Style::CyanDimmed);
    assert_eq!(out[2][0].style, Style::Cyan);
}

#[test]
fn no_lines_are_shown_before_a_match_where_none_are_wanted() {
    let mut w = WatchList::new(0);
    let a = w.add(&path("a"), None);
    w.take_line(a, "f", "one", false, "");
    assert_eq!(bare(&w.take_line(a, "f", "hit", true, "")), ["[f] \u{25b6} hit"]);
}

#[test]
fn structured_lines_are_put_to_the_query() {
    let mut w = WatchList::new(0);
    let a = w.add(&path("a"), None);
    let q = Some(Query::new("level == error"));
    assert!(w.observe(a, "f", "{\"level\":\"info\"}", &q, false).unwrap().is_empty());
    assert_eq!(w.observe(a, "f", "{\"level\":\"error\"}", &q, false).unwrap().len(), 1);
    assert!(w.observe(a, "f", "level error", &q, false).unwrap().is_empty());
    assert_eq!(w.observe(a, "f", "the Level == Error", &q, false).unwrap().len(), 1);
    let q = Some(Query::new("a > 1 && b"));
    assert!(w.observe(a, "f", "{\"a\":5}", &q, false).unwrap().is_empty());
    let q = Some(Query::new("attempts > 3"));
    assert_eq!(w.observe(a, "f", "{\"attempts\":4}", &q, false).unwrap().len(), 1);
}

#[test]
fn a_line_that_cannot_be_judged_is_not_taken_in() {
    let mut w = WatchList::new(5);
    let a = w.add(&path("a"), None);
    let q = Some(Query::new("ts > 999999999y"));
    assert!(w.observe(a, "f", "{\"ts\":1700000000}", &q, false).is_none());
    assert!(w.observe(a, "f", "{\"a\":1}", &q, false).unwrap().is_empty());
    assert!(w.observe(a, "f", "  ", &q, false).unwrap().is_empty());
    assert_eq!(w.take_line(a, "f", "x", true, "").len(), 2);
}

#[test]
fn the_query_is_highlighted() {
    let mut w = WatchList::new(0);
    let a = w.add(&path("a"), None);
    let q = Some(Query::new("hit"));
    let out = w.observe(a, "f", "a Hit, HITHIT!", &q, true).unwrap();
    assert_eq!(bare(&out), ["[f] \u{25b6} a Hit, HITHIT!"]);
    let marked: Vec<&str> = out[0][4..]
        .iter()
        .filter(|s| s.style == Style::Yellow)
        .map(|s| s.text.as_str())
        .collect();
    assert_eq!(marked, ["Hit", "HIT", "HIT"]);
    let out = w.observe(a, "f", "a Hit", &q, false).unwrap();
    assert!(out[0][4..].iter().all(|s| s.style == Style::Plain));
}

#[test]
fn a_hundred_lines_are_kept_at_least() {
    let mut w = WatchList::new(100);
    let a = w.add(&path("a"), None);
    for i in 0..150 {
        assert!(w.take_line(a, "f", &format!("line {}\n", i), false, "").is_empty());
    }
    let out = bare(&w.take_line(a, "f", "end", true, ""));
    assert_eq!(out.len(), 101);
    assert_eq!(out[0], "[f] \u{2502} line 50");
    assert_eq!(out[99], "[f] \u{2502} line 149");
    assert_eq!(out[100], "[f] \u{25b6} end");
}

#[test]
fn as_many_lines_are_kept_as_are_shown() {
    let mut w = WatchList::new(101);
    let a = w.add(&path("a"), None);
    let q = Some(Query::new("end"));
    for i in 0..150 {
        assert!(w.observe(a, "f", &format!("line {}\n", i), &q, false).unwrap().is_empty());
    }
    let out = bare(&w.observe(a, "f", "end", &q, false).unwrap());
    assert_eq!(out.len(), 102);
    assert_eq!(out[0], "[f] \u{2502} line 49");
}

#[test]
fn files_keep_their_own_lines() {
    let mut w = WatchList::new(5);
    let a = w.add(&path("a"), None);
    let b = w.add(&path("b"), None);
    w.take_line(a, "a", "of a", false, "");
    w.take_line(b, "b", "of b", false, "");
    assert_eq!(
        bare(&w.take_line(a, "a", "x", true, "")),
        ["[a] \u{2502} of a", "[a] \u{25b6} x"]
    );
}
