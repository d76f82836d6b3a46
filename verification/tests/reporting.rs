use loglens::paint::{render, Span, Style};
use loglens::paths::{LogPath, PathPart};
use loglens::report::{
    format_result_json, format_result_text, format_results, layout_result_text, style_of_match,
    OutputFormat,
};
use loglens::search::SearchResult;

fn path(name: &str) -> LogPath {
    LogPath {
        name: name.to_string(),
        file_name: name.to_string(),
        parts: vec![PathPart { rank: 4, text: name.as_bytes().to_vec() }],
        handle: 0,
    }
}

fn parsed(text: &str) -> Option<serde_json::Value> {
    serde_json::from_str(text).ok()
}

fn hit(file: &str, line_num: usize, raw: &str) -> SearchResult {
    SearchResult {
        file: path(file),
        line_num,
        raw_line: raw.to_string(),
        parsed: parsed(raw),
        is_match: true,
        is_context: false,
    }
}

fn context(file: &str, line_num: usize, raw: &str) -> SearchResult {
    SearchResult { is_match: false, is_context: true, ..hit(file, line_num, raw) }
}

fn spans(line: &Vec<Span>) -> Vec<(Style, String, u16)> {
    line.iter().map(|s| (s.style, s.text.clone(), s.width)).collect()
}

fn bare(lines: &Vec<Vec<Span>>) -> Vec<String> {
    colored::control::set_override(false);
    lines.iter().map(|l| render(l)).collect()
}

#[test]
fn styles_of_levels() {
    let style = |t: &str| style_of_match("line", &parsed(t));
    for level in ["fatal", "CRITICAL", "emerg", "Emergency"] {
        assert_eq!(style(&format!("{{\"level\":\"{}\"}}", level)), Style::WhiteOnRedBold);
    }
    for level in ["error", "ERR"] {
        assert_eq!(style(&format!("{{\"severity\":\"{}\"}}", level)), Style::Red);
    }
    assert_eq!(style(r#"{"level":"warn"}"#), Style::Yellow);
    assert_eq!(style(r#"{"level":"Warning"}"#), Style::Yellow);
    assert_eq!(style(r#"{"level":"info"}"#), Style::Green);
    assert_eq!(style(r#"{"level":"debug"}"#), Style::Dimmed);
    assert_eq!(style(r#"{"level":"trace"}"#), Style::Dimmed);
    assert_eq!(style(r#"{"level":"notice"}"#), Style::Plain);
    assert_eq!(style(r#"{"a":"error"}"#), Style::Plain);
}

#[test]
fn a_level_that_is_no_text_hides_the_severity() {
    let v = parsed(r#"{"level":3,"severity":"error"}"#);
    assert_eq!(style_of_match("ERROR", &v), Style::Plain);
    let v = parsed(r#"{"severity":"error"}"#);
    assert_eq!(style_of_match("x", &v), Style::Red);
}

#[test]
fn styles_of_plain_text() {
    let style = |t: &str| style_of_match(t, &None);
    assert_eq!(style("a fatal error"), Style::WhiteOnRedBold);
    assert_eq!(style("Critical"), Style::WhiteOnRedBold);
    assert_eq!(style("EMERGENCY"), Style::WhiteOnRedBold);
    assert_eq!(style("some errors, a warning"), Style::Red);
    assert_eq!(style("warned: information"), Style::Yellow);
    assert_eq!(style("information"), Style::Green);
    assert_eq!(style("debugging"), Style::Dimmed);
    assert_eq!(style("stacktrace"), Style::Dimmed);
    assert_eq!(style("quiet"), Style::Plain);
}

#[test]
fn layout_of_a_match() {
    let r = hit("app.log", 12, "some ERROR");
    assert_eq!(
        spans(&layout_result_text(&r, false)),
        [
            (Style::Yellow, "12".to_string(), 0),
            (Style::Plain, ": ".to_string(), 0),
            (Style::Red, "some ERROR".to_string(), 0),
        ]
    );
    assert_eq!(
        spans(&layout_result_text(&r, true)),
        [
            (Style::Cyan, "app.log".to_string(), 0),
            (Style::Plain, ":".to_string(), 0),
            (Style::Yellow, "12".to_string(), 0),
            (Style::Plain, ":".to_string(), 0),
            (Style::Red, "some ERROR".to_string(), 0),
        ]
    );
}

#[test]
fn text_without_colours() {
    colored::control::set_override(false);
    let r = hit("app.log", 12, "some ERROR");
    assert_eq!(format_result_text(&r, false), "12: some ERROR");
    assert_eq!(format_result_text(&r, true), "app.log:12:some ERROR");
    let c = context("app.log", 7, "before");
    assert_eq!(format_result_text(&c, false), "\u{2500}     7 before");
    assert_eq!(format_result_text(&c, true), "\u{2500}app.log\n\u{2500}     7 before");
    let c = context("f", 1234567, "x");
    assert_eq!(format_result_text(&c, false), "\u{2500}1234567 x");
}

#[test]
fn json_of_entries_and_of_text() {
    let r = hit("f", 1, r#"{ "b": 1, "a": [true, null, "x\n"] }"#);
    assert_eq!(format_result_json(&r), r#"{"a":[true,null,"x\n"],"b":1}"#);
    let r = hit("dir/f.log", 4, "say \"hi\"");
    assert_eq!(
        format_result_json(&r),
        r#"{"file":"dir/f.log","line":4,"text":"say \"hi\""}"#
    );
}

#[test]
fn results_of_several_files() {
    let results = vec![
        context("a.log", 1, "zero"),
        hit("a.log", 2, "one"),
        hit("b.log", 3, "two"),
        hit("a.log", 9, "three"),
    ];
    let text = bare(&format_results(&results, OutputFormat::Text, false, true));
    assert_eq!(
        text,
        [
            "\u{2550}\u{2550} a.log \u{2550}\u{2550}",
            "\u{2500}a.log\n\u{2500}     1 zero",
            "a.log:2:one",
            "",
            "\u{2550}\u{2550} b.log \u{2550}\u{2550}",
            "b.log:3:two",
            "",
            "\u{2550}\u{2550} a.log \u{2550}\u{2550}",
            "a.log:9:three",
        ]
    );
}

#[test]
fn compact_results_have_no_headers() {
    let results = vec![hit("a.log", 2, "one"), hit("b.log", 3, "two")];
    assert_eq!(
        bare(&format_results(&results, OutputFormat::Text, true, true)),
        ["2: one", "3: two"]
    );
    assert_eq!(
        bare(&format_results(&results, OutputFormat::Text, false, false)),
        ["2: one", "3: two"]
    );
}

#[test]
fn raw_results_are_the_lines() {
    let results = vec![hit("a", 2, "  {\"x\":1} "), context("a", 3, "\tERROR")];
    assert_eq!(
        bare(&format_results(&results, OutputFormat::Raw, false, false)),
        ["  {\"x\":1} ", "\tERROR"]
    );
}

#[test]
fn headers_stand_in_text_only() {
    let results = vec![hit("a", 2, "{\"x\":1}"), hit("b", 3, "t")];
    assert_eq!(
        bare(&format_results(&results, OutputFormat::Json, false, true)),
        ["{\"x\":1}", "{\"file\":\"b\",\"line\":3,\"text\":\"t\"}"]
    );
    assert_eq!(
        bare(&format_results(&results, OutputFormat::Raw, false, true)),
        ["{\"x\":1}", "t"]
    );
}

#[test]
fn no_results_no_lines() {
    assert!(format_results(&Vec::new(), OutputFormat::Text, false, true).is_empty());
}

#[test]
fn a_level_in_words_counts_and_colours() {
    let v = parsed(r#"{"level":"Error","severity":"info"}"#);
    assert_eq!(loglens::search::level_of(&v), Some("Error".to_string()));
    assert_eq!(style_of_match("x", &v), Style::Red);
}

#[test]
fn json_is_read_back() {
    let entry = hit("f", 1, r#"{"a":[1,-2,{"b":null}],"s":"x\n\"y","t":true}"#);
    let wrapped = hit("d/f.log", 7, "two\twords \"quoted\"");
    for r in [&entry, &wrapped] {
        let out = format_result_json(r);
        assert!(!out.contains('\n'));
        let back: serde_json::Value = serde_json::from_str(&out).unwrap();
        match &r.parsed {
            Some(v) => assert_eq!(&back, v),
            None => {
                assert_eq!(back.as_object().unwrap().len(), 3);
                assert_eq!(back["file"], "d/f.log");
                assert_eq!(back["line"], 7);
                assert_eq!(back["text"], "two\twords \"quoted\"");
            }
        }
        match loglens_core::parsers::parse_log_line(&out) {
            loglens_core::LogEntry::Structured(v) => assert_eq!(v, back),
            loglens_core::LogEntry::Unstructured(_) => panic!("not read back"),
        }
    }
}
