use loglens::paint::{render, Span, Style};
use loglens::paths::LogPath;
use loglens::report::format_result_text;
use loglens::search::SearchResult;

fn painted(style: Style, text: &str, width: u16) -> String {
    colored::control::set_override(true);
    render(&vec![Span { style, text: text.to_string(), width }])
}

#[test]
fn every_style() {
    for (style, on) in [
        (Style::Dimmed, "\u{1b}[2m"),
        (Style::Bold, "\u{1b}[1m"),
        (Style::Red, "\u{1b}[31m"),
        (Style::Green, "\u{1b}[32m"),
        (Style::Yellow, "\u{1b}[33m"),
        (Style::Cyan, "\u{1b}[36m"),
        (Style::BlueBold, "\u{1b}[1;34m"),
        (Style::CyanDimmed, "\u{1b}[2;36m"),
        (Style::WhiteOnRed, "\u{1b}[41;37m"),
        (Style::WhiteOnRedBold, "\u{1b}[1;41;37m"),
    ] {
        assert_eq!(painted(style, "x", 0), format!("{}x\u{1b}[0m", on));
    }
    assert_eq!(painted(Style::Plain, "x", 0), "x");
}

#[test]
fn columns_are_filled_inside_the_style() {
    assert_eq!(painted(Style::Cyan, "ab", 5), "\u{1b}[36mab   \u{1b}[0m");
    assert_eq!(painted(Style::Plain, "ab", 5), "ab   ");
    assert_eq!(painted(Style::Cyan, "abcdef", 5), "\u{1b}[36mabcdef\u{1b}[0m");
}

#[test]
fn styles_last_through_a_reset() {
    assert_eq!(
        painted(Style::Red, "a\u{1b}[0mb", 0),
        "\u{1b}[31ma\u{1b}[0m\u{1b}[31mb\u{1b}[0m"
    );
    assert_eq!(painted(Style::Plain, "a\u{1b}[0mb", 0), "a\u{1b}[0mb");
}

#[test]
fn plain_lines_are_sent_bare() {
    colored::control::set_override(true);
    let plain = |t: &str| Span { style: Style::Plain, text: t.to_string(), width: 0 };
    assert_eq!(render(&vec![plain("a"), plain("b ")]), "ab ");
    assert_eq!(render(&Vec::new()), "");
}

#[test]
fn a_coloured_match() {
    colored::control::set_override(true);
    let r = SearchResult {
        file: LogPath {
            name: "f".to_string(),
            file_name: "f".to_string(),
            parts: Vec::new(),
            handle: 0,
        },
        line_num: 3,
        raw_line: "Info".to_string(),
        parsed: None,
        is_match: true,
        is_context: false,
    };
    assert_eq!(
        format_result_text(&r, true),
        "\u{1b}[36mf\u{1b}[0m:\u{1b}[33m3\u{1b}[0m:\u{1b}[32mInfo\u{1b}[0m"
    );
    let c = SearchResult { is_match: false, is_context: true, ..r };
    assert_eq!(
        format_result_text(&c, false),
        "\u{1b}[2m\u{2500}\u{1b}[0m\u{1b}[2m     3\u{1b}[0m\u{1b}[2m Info\u{1b}[0m"
    );
}

#[test]
fn colours_keep_the_text_of_a_line() {
    let line = vec![
        Span { style: Style::Cyan, text: "ab".to_string(), width: 4 },
        Span { style: Style::Plain, text: " m ".to_string(), width: 0 },
        Span { style: Style::WhiteOnRedBold, text: "c".to_string(), width: 0 },
    ];
    colored::control::set_override(true);
    let coloured = render(&line);
    let mut text = String::new();
    let mut inside = false;
    for c in coloured.chars() {
        if inside {
            inside = c != 'm';
        } else if c == '\u{1b}' {
            inside = true;
        } else {
            text.push(c);
        }
    }
    assert_eq!(text, "ab   m c");
    assert_ne!(coloured, text);
}
