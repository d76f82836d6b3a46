use loglens::query::{is_within_reach, judge_line, weigh, Judgement, Moment, Query, QueryError, Since};

fn entry(text: &str) -> Option<serde_json::Value> {
    serde_json::from_str(text).ok()
}

fn query(text: &str) -> Query {
    Query::new(text)
}

fn judge(raw: &str, parsed: &Option<serde_json::Value>, q: &str) -> Judgement {
    judge_line(raw, parsed, &query(q), &None).unwrap()
}

fn passes(raw: &str, q: &Query, s: &Option<Since>) -> bool {
    judge_line(raw, &entry(raw), q, s).unwrap().accepted
}

fn accepts(raw: &str, q: &str) -> bool {
    judge(raw, &entry(raw), q).accepted
}

fn since(text: &str) -> Option<Since> {
    let s = Since::new(text);
    assert!(s.is_readable());
    Some(s)
}

#[test]
fn plain_text_is_searched_without_regard_to_case() {
    assert!(judge("Connection REFUSED by peer", &None, "refused").accepted);
    assert!(judge("connection refused", &None, "ReFused").accepted);
    assert!(!judge("connection refused", &None, "timeout").accepted);
    assert!(judge("anything", &None, "").accepted);
}

#[test]
fn operators_mean_nothing_in_plain_text() {
    assert!(judge("a level == error b", &None, "LEVEL == ERROR").accepted);
    assert!(!judge("level error", &None, "level == error").accepted);
    assert!(!judge("quiet", &None, "!noise").accepted);
}

#[test]
fn structured_entries_answer_conditions() {
    let raw = r#"{"level":"error","latency":620,"user":"Ann"}"#;
    assert!(accepts(raw, r#"level == "error" && latency > 500"#));
    assert!(!accepts(raw, r#"level == "error" && latency > 700"#));
    assert!(accepts(raw, "latency > 700 || user ~= ann"));
    assert!(accepts(raw, "user exists"));
    assert!(accepts(raw, "missing !exists"));
    assert!(accepts(raw, "latency between 600..700"));
    assert!(!accepts(raw, "latency !between 600..700"));
}

#[test]
fn words_are_looked_for_in_the_line() {
    let raw = r#"{"level":"error","msg":"Tape Full"}"#;
    assert!(accepts(raw, "tape full"));
    assert!(!accepts(raw, "!tape full"));
    assert!(accepts(raw, "!network"));
    assert!(accepts(raw, "msg\":\"tape"));
}

#[test]
fn words_that_hold_an_operator_are_conditions() {
    let raw = r#"{"level":"error","msg":"Disk Full"}"#;
    assert!(!accepts(raw, "disk full"));
    assert!(judge(raw, &None, "disk full").accepted);
}

#[test]
fn words_ignore_whether_a_line_is_structured() {
    let raw = r#"{"level":"warn","code":7}"#;
    for q in ["WARN", "code", "nothing"] {
        assert_eq!(judge(raw, &entry(raw), q).accepted, judge(raw, &None, q).accepted);
    }
}

#[test]
fn empty_queries_accept_entries() {
    for q in ["", "   ", "\t\n"] {
        assert!(accepts(r#"{"a":1}"#, q));
    }
    assert!(!judge("text", &None, "   ").accepted);
}

#[test]
fn malformed_queries_are_reported() {
    let raw = r#"{"a":5}"#;
    let j = judge(raw, &entry(raw), "a > 1 && b");
    assert!(!j.accepted);
    assert_eq!(j.failure.unwrap().message(), "Invalid query format: 'b'");
    let j = judge(raw, &entry(raw), "a between 1");
    assert_eq!(
        j.failure.unwrap().message(),
        "Invalid query format: 'BETWEEN operator requires a range 'start..end'. Got: '1''"
    );
    assert!(judge("a > 1 && b", &None, "a > 1 && b").failure.is_none());
}

#[test]
fn error_messages() {
    let e = QueryError::InvalidFormat("x".to_string());
    assert_eq!(e.message(), "Invalid query format: 'x'");
}

#[test]
fn fixed_times_filter_entries() {
    let old = r#"{"timestamp":"2024-01-01T00:00:00Z"}"#;
    let new = r#"{"ts":"2024-06-01T12:00:00+02:00"}"#;
    let s = since("2024-03-01T00:00:00Z");
    let q = query("");
    assert!(!passes(old, &q, &s));
    assert!(passes(new, &q, &s));
    let exact = since("2024-06-01T10:00:00Z");
    assert!(passes(new, &q, &exact));
    let later = since("2024-06-01T10:00:00.000000001Z");
    assert!(!passes(new, &q, &later));
}

#[test]
fn relative_times_filter_entries() {
    let old = r#"{"@timestamp":1000000000}"#;
    let ahead = r#"{"@timestamp":"2999-01-01T00:00:00Z"}"#;
    let q = query("");
    for text in ["1h", "30m", "2d ago", "now", "NOW"] {
        let s = since(text);
        assert!(!passes(old, &q, &s), "{}", text);
        assert!(passes(ahead, &q, &s), "{}", text);
    }
    assert!(passes(old, &q, &since("200years")));
}

#[test]
fn entries_without_a_time_pass_the_filter() {
    let q = query("");
    for raw in [r#"{"a":1}"#, r#"{"timestamp":"yesterday"}"#, r#"{"ts":true}"#] {
        assert!(passes(raw, &q, &since("1s")));
    }
    assert!(judge_line("plain", &None, &query("plain"), &since("1s")).unwrap().accepted);
}

#[test]
fn unreadable_filters_pass_everything() {
    let raw = r#"{"timestamp":"2000-01-01T00:00:00Z"}"#;
    for text in ["soon", "", "yesterday ago"] {
        assert!(passes(raw, &query(""), &since(text)));
        assert!(since(text).unwrap().start().is_none());
    }
}

#[test]
fn starts_of_fixed_times() {
    assert_eq!(
        since("2024-03-01T00:00:00.5Z").unwrap().start(),
        Some(Moment { secs: 1709251200, nanos: 500_000_000 })
    );
    assert!(since("5m ago").unwrap().start().unwrap().secs > 1_600_000_000);
}

#[test]
fn filters_only_remove() {
    let q = query("level == error");
    let hit = r#"{"level":"error","ts":"2001-01-01T00:00:00Z"}"#;
    let miss = r#"{"level":"info","ts":"2999-01-01T00:00:00Z"}"#;
    assert!(passes(hit, &q, &None));
    assert!(!passes(hit, &q, &since("1h")));
    assert!(!passes(miss, &q, &None));
    assert!(!passes(miss, &q, &since("1h")));
}

#[test]
fn queries_on_times() {
    let raw = r#"{"timestamp":"2024-01-01T00:00:00Z","n":1}"#;
    assert!(accepts(raw, "timestamp > 2023-01-01T00:00:00Z"));
    assert!(accepts(raw, "timestamp between 2023-01-01T00:00:00Z..2025-01-01T00:00:00Z"));
    assert!(accepts(raw, "timestamp < \"5m ago\""));
    assert!(!accepts(raw, "timestamp > \"5m\""));
    assert!(accepts(raw, "num(timestamp) < now"));
}

#[test]
fn durations_beyond_every_moment_cannot_be_read() {
    for text in [
        "999999999y",
        "9999999999999s",
        "999999999y ago",
        "18446744073709551615s 1000000000ns",
        "584542046090years 1.5ms",
    ] {
        assert!(!Since::new(text).is_readable(), "{}", text);
    }
    for text in [
        "8334601228799s",
        "99999999999999999999999y",
        "123456789012ms",
        "999999999999999 us 1.5ms",
        "0000000000001.5s",
        "1000000.000000s",
        "1000000000000ms 5s",
        "soon",
    ] {
        assert!(Since::new(text).is_readable(), "{}", text);
    }
    assert!(Since::new("123456789012ms").start().is_some());
}

#[test]
fn queries_beyond_every_moment_cannot_be_put_to_entries_with_a_time() {
    let timed = r#"{"ts":"2024-01-01T00:00:00Z","level":"error"}"#;
    let timeless = r#"{"level":"error"}"#;
    for text in [
        "timestamp > 999999999y",
        "ts>=\"999999999y ago\"",
        "@timestamp between 1h..999999999y",
        "level == error and num( ts ) < '999999999y'",
        "ts between 999999999y..1h",
        "a == 1 || timestamp is 999999999y && b == 2",
    ] {
        let q = query(text);
        assert!(!q.is_answerable(), "{}", text);
        assert_eq!(q.text(), text);
        assert!(judge_line(timed, &entry(timed), &q, &None).is_none(), "{}", text);
        assert!(judge_line(timeless, &entry(timeless), &q, &None).is_some(), "{}", text);
        assert!(judge_line(text, &None, &q, &None).unwrap().accepted, "{}", text);
    }
    let s = Some(Since::new("999999999y"));
    assert!(judge_line(timeless, &entry(timeless), &query(""), &s).is_none());
    assert!(judge_line("x", &None, &query("x"), &s).unwrap().accepted);
}

#[test]
fn long_durations_elsewhere_do_no_harm() {
    for text in [
        "uptime > 999999999y",
        "requests exists && trace == \"12345678901234deadbeef\"",
        "ts > 1h && trace == 12345678901234d",
        "timestamp > 2024-01-01T00:00:00Z",
        "999999999y",
        "counts > 1234567890.12",
        "hosts == 999999999y",
        "msg == \"ts > 999999999y\"",
        "ts > 1234567890.12",
    ] {
        assert!(query(text).is_answerable(), "{}", text);
    }
    let raw = r#"{"ts":"2024-01-01T00:00:00Z","trace":"12345678901234d"}"#;
    assert!(accepts(raw, "ts < 1h && trace == 12345678901234d"));
}

#[test]
fn fields_that_end_like_a_time_field_are_compared() {
    let raw = r#"{"attempts":4,"hosts":"a","counts":1234567891,"ts":"2024-01-01T00:00:00Z"}"#;
    assert!(accepts(raw, "attempts > 3"));
    assert!(!accepts(raw, "attempts > 4"));
    assert!(accepts(raw, "hosts == \"a\""));
    assert!(accepts(raw, "counts > 1234567890.12"));
    assert!(accepts(raw, "ts > 2023-12-31T23:59:59Z && attempts > 3"));
    assert!(!accepts(raw, "ts > 2024-01-01T00:00:00Z"));
}

#[test]
fn reach_of_durations() {
    assert!(is_within_reach("1h"));
    assert!(is_within_reach("no duration"));
    assert!(is_within_reach("264000years"));
    assert!(!is_within_reach("265000years"));
}

#[test]
fn answers_and_moments_are_weighed() {
    let at = |secs: i64, nanos: u32| Some(Moment { secs, nanos });
    assert!(weigh(Ok(true), None, None).accepted);
    assert!(weigh(Ok(true), at(5, 0), None).accepted);
    assert!(weigh(Ok(true), None, at(5, 0)).accepted);
    assert!(weigh(Ok(true), at(5, 7), at(5, 7)).accepted);
    assert!(weigh(Ok(true), at(5, 7), at(6, 0)).accepted);
    assert!(!weigh(Ok(true), at(5, 7), at(5, 6)).accepted);
    assert!(!weigh(Ok(true), at(5, 7), at(-5, 9)).accepted);
    assert!(!weigh(Ok(false), None, None).accepted);
    let j = weigh(Err(QueryError::InvalidFormat("q".to_string())), None, None);
    assert!(!j.accepted);
    assert_eq!(j.failure.unwrap().message(), "Invalid query format: 'q'");
}

#[test]
fn moments_are_compared() {
    let m = |secs: i64, nanos: u32| Moment { secs, nanos };
    assert!(m(1, 0).is_not_before(m(0, 999)));
    assert!(m(1, 5).is_not_before(m(1, 5)));
    assert!(!m(1, 4).is_not_before(m(1, 5)));
    assert!(!m(-1, 9).is_not_before(m(0, 0)));
}

#[test]
fn settled_queries_give_one_answer() {
    let raw = r#"{"level":"error"}"#;
    for q in ["level == error", "level != error", "b ==", "level"] {
        let first = judge(raw, &entry(raw), q);
        let second = judge(raw, &entry(raw), q);
        assert_eq!(first.accepted, second.accepted);
        assert_eq!(
            first.failure.map(|e| e.message()),
            second.failure.map(|e| e.message())
        );
    }
}

#[test]
fn spans_reach_back_from_now() {
    let start = |text: &str| Since::new(text).start().unwrap().secs;
    let now = start("now");
    for (text, secs) in [("30m", 1800), ("1h", 3600), ("2d ago", 172800), ("1.5s", 1)] {
        let back = now - start(text);
        assert!(back <= secs + 1 && back >= secs - 60, "{}: {}", text, back);
    }
    assert!(start("2d") < start("30m"));
}

#[test]
fn queries_compare_with_the_clock() {
    let recent = format!(r#"{{"ts":{},"n":1}}"#, Since::new("10m").start().unwrap().secs);
    let old = r#"{"ts":"2020-01-01T00:00:00Z","n":1}"#;
    assert!(accepts(&recent, "ts > 1h"));
    assert!(!accepts(&recent, "ts > 1m"));
    assert!(!accepts(old, "ts > 1h"));
    assert!(accepts(&recent, "ts > 1h && n == 1"));
    assert!(!accepts(&recent, "ts > 1h && n == 2"));
    assert!(accepts(&recent, "ts between 1h..now"));
}
