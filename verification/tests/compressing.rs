use loglens::compress::{announce, next_action, output_name, Action, Step};
use loglens::discover::{is_gzip_file, is_log_file};
use loglens::paint::{Span, Style};

fn spans(line: &Vec<Span>) -> Vec<(Style, String)> {
    line.iter().map(|s| (s.style, s.text.clone())).collect()
}

#[test]
fn names_of_compressed_files() {
    assert_eq!(output_name("logs/app.log"), "logs/app.log.gz");
    assert_eq!(output_name(""), ".gz");
    assert!(is_gzip_file(&output_name("app")));
    assert!(is_log_file(&output_name("app")));
    assert_ne!(output_name("a"), output_name("b"));
}

#[test]
fn what_is_said_before_compressing() {
    assert_eq!(
        spans(&announce("a.log")),
        [(Style::Plain, "  Compressing a.log -> a.log.gz ... ".to_string())]
    );
}

#[test]
fn steps_that_succeed() {
    assert!(matches!(next_action(Step::Open, None, true), Action::Create));
    assert!(matches!(next_action(Step::Create, None, true), Action::Copy));
    assert!(matches!(next_action(Step::Copy, None, true), Action::Finish));
    for flag in [true, false] {
        match next_action(Step::Finish, None, flag) {
            Action::Complete { remove, line } => {
                assert_eq!(remove, flag);
                assert_eq!(spans(&line), [(Style::Green, "\u{2713}".to_string())]);
            }
            _ => panic!("not complete"),
        }
    }
}

#[test]
fn steps_that_fail() {
    for step in [Step::Open, Step::Create, Step::Copy, Step::Finish] {
        match next_action(step, Some("no space"), true) {
            Action::GiveUp { line } => {
                assert_eq!(spans(&line), [(Style::Red, "ERROR: no space".to_string())]);
            }
            _ => panic!("went on"),
        }
    }
}
