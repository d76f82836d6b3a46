use loglens::fields::{discover_fields, format_row, FieldRow, FieldSurvey};
use loglens::paint::{render, Span};

fn lines(texts: &[&str]) -> Vec<Option<String>> {
    texts.iter().map(|t| Some(t.to_string())).collect()
}

fn rows(s: &FieldSurvey) -> Vec<(String, String, usize)> {
    s.rows().iter().map(|r| (r.name.clone(), r.types.clone(), r.total)).collect()
}

fn row(name: &str, types: &str, total: usize) -> (String, String, usize) {
    (name.to_string(), types.to_string(), total)
}

fn bare(lines: &Vec<Vec<Span>>) -> Vec<String> {
    colored::control::set_override(false);
    lines.iter().map(|l| render(l)).collect()
}

#[test]
fn every_kind_of_value() {
    let s = discover_fields(
        &lines(&[r#"{"s":"x","n":1.5,"b":false,"a":[],"o":{"inner":1},"z":null}"#]),
        0,
    );
    let mut all = rows(&s);
    all.sort();
    assert_eq!(
        all,
        [
            row("a", "array", 1),
            row("b", "boolean", 1),
            row("n", "number", 1),
            row("o", "object", 1),
            row("s", "string", 1),
            row("z", "null", 1),
        ]
    );
}

#[test]
fn fields_are_listed_by_frequency() {
    let s = discover_fields(
        &lines(&[
            r#"{"id":1,"level":"info"}"#,
            "plain text",
            r#"{"id":"two","level":"warn"}"#,
            r#"{"id":3}"#,
        ]),
        0,
    );
    assert_eq!((s.lines_read(), s.entries_parsed()), (4, 3));
    assert_eq!(rows(&s), [row("id", "number(2), string(1)", 3), row("level", "string", 2)]);
}

#[test]
fn no_more_lines_are_read_than_sampled() {
    let texts = lines(&[r#"{"a":1}"#, r#"{"b":1}"#, r#"{"c":1}"#]);
    let s = discover_fields(&texts, 2);
    assert_eq!((s.lines_read(), s.entries_parsed()), (2, 2));
    assert_eq!(rows(&s), [row("a", "number", 1), row("b", "number", 1)]);
    assert!(s.is_stopped());
    let s = discover_fields(&texts, 4);
    assert_eq!((s.lines_read(), s.entries_parsed()), (3, 3));
    assert!(!s.is_stopped());
}

#[test]
fn unreadable_lines_are_read_but_not_parsed() {
    let s = discover_fields(&vec![None, Some(r#"{"a":1}"#.to_string()), None], 0);
    assert_eq!((s.lines_read(), s.entries_parsed()), (3, 1));
}

#[test]
fn a_survey_goes_line_by_line() {
    let mut s = FieldSurvey::new(2);
    s.feed(Some(r#"{"a":1}"#));
    assert!(!s.is_stopped());
    s.feed(None);
    assert!(s.is_stopped());
    s.feed(Some(r#"{"b":1}"#));
    assert_eq!((s.lines_read(), s.entries_parsed()), (2, 1));
    assert_eq!(rows(&s), [row("a", "number", 1)]);
}

#[test]
fn the_head_of_a_survey() {
    let s = discover_fields(&lines(&["x", r#"{"a":1}"#]), 0);
    let rule = format!("  {}", "\u{2500}".repeat(64));
    assert_eq!(
        bare(&s.head()),
        [
            "",
            "\u{1f4ca} 2 lines read, 1 structured entries parsed",
            "",
            "  Field                    Type(s)                        Count",
            rule.as_str(),
        ]
    );
}

#[test]
fn the_head_of_a_survey_without_fields() {
    let s = discover_fields(&lines(&["x", "{}"]), 0);
    assert_eq!(
        bare(&s.head()),
        [
            "",
            "\u{1f4ca} 2 lines read, 1 structured entries parsed",
            "",
            "No structured fields found.",
        ]
    );
    assert!(s.rows().is_empty());
}

#[test]
fn the_line_of_a_field() {
    colored::control::set_override(false);
    let r = FieldRow { name: "id".to_string(), types: "number(2), string(1)".to_string(), total: 3 };
    assert_eq!(
        render(&format_row(&r, 100)),
        format!("  {:<26} {:<30} 3 (100%)", "id", "number(2), string(1)")
    );
}

#[test]
fn entries_are_counted_as_they_are_given() {
    let mut s = FieldSurvey::new(0);
    s.count_entry(&serde_json::from_str(r#"{"a":1,"b":[]}"#).ok());
    s.count_entry(&None);
    s.count_entry(&serde_json::from_str(r#"{"a":null}"#).ok());
    assert_eq!((s.lines_read(), s.entries_parsed()), (3, 2));
    assert_eq!(rows(&s), [row("a", "number(1), null(1)", 2), row("b", "array", 1)]);
}
