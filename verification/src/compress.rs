//! Compressing a file: what is done after each step, and what is said of it.

use crate::discover::gzip_name;
use crate::paint::{plain, span, span_views, styled, Span, SpanView, Style};
use vstd::prelude::*;
use vstd::string::StringExecFns;

verus! {

/// The name of the compressed file.
pub open spec fn compressed_name(name: Seq<char>) -> Seq<char> {
    name + ".gz"@
}

/// Gives the name of the compressed file.
pub fn output_name(name: &str) -> (r: String)
    ensures
        r@ == compressed_name(name@),
{
    String::from_str(name).concat(".gz")
}

/// What is said before a file is compressed, on a line that the outcome ends.
pub open spec fn announcement(name: Seq<char>) -> Seq<SpanView> {
    seq![plain("  Compressing "@ + name + " -> "@ + compressed_name(name) + " ... "@)]
}

/// Lays out what is said before a file is compressed.
pub fn announce(name: &str) -> (r: Vec<Span>)
    ensures
        span_views(r@) == announcement(name@),
{
    let text = String::from_str("  Compressing ").concat(name).concat(" -> ").concat(
        output_name(name).as_str(),
    ).concat(" ... ");
    let mut r: Vec<Span> = Vec::new();
    r.push(span(Style::Plain, text.as_str()));
    assert(span_views(r@) =~= announcement(name@));
    r
}

/// The steps of compressing a file that can fail.
#[derive(Clone, Copy, Debug, PartialEq, Eq, Structural)]
pub enum Step {
    /// The file is opened.
    Open,
    /// The compressed file is created.
    Create,
    /// The contents of the file are copied into the compressed one.
    Copy,
    /// The compressed file is completed.
    Finish,
}

/// What to do after a step.
pub enum Action {
    /// Create the compressed file.
    Create,
    /// Copy the contents.
    Copy,
    /// Complete the compressed file.
    Finish,
    /// The file is compressed: remove it if `remove` says so, and say `line`.
    Complete { remove: bool, line: Vec<Span> },
    /// Go no further, and say `line`.
    GiveUp { line: Vec<Span> },
}

/// What an `Action` says.
#[verifier::ext_equal]
pub enum ActionView {
    Create,
    Copy,
    Finish,
    Complete { remove: bool, line: Seq<SpanView> },
    GiveUp { line: Seq<SpanView> },
}

impl Action {
    pub open spec fn view(&self) -> ActionView {
        match self {
            Action::Create => ActionView::Create,
            Action::Copy => ActionView::Copy,
            Action::Finish => ActionView::Finish,
            Action::Complete { remove, line } => ActionView::Complete {
                remove: *remove,
                line: span_views(line@),
            },
            Action::GiveUp { line } => ActionView::GiveUp { line: span_views(line@) },
        }
    }
}

/// What to do after `step`, which failed for the reason that `failure` gives,
/// or did not fail.
pub open spec fn action_after(
    step: Step,
    failure: Option<Seq<char>>,
    remove_original: bool,
) -> ActionView {
    match failure {
        Some(reason) => ActionView::GiveUp {
            line: seq![styled(Style::Red, "ERROR: "@ + reason)],
        },
        None => match step {
            Step::Open => ActionView::Create,
            Step::Create => ActionView::Copy,
            Step::Copy => ActionView::Finish,
            Step::Finish => ActionView::Complete {
                remove: remove_original,
                line: seq![styled(Style::Green, "\u{2713}"@)],
            },
        },
    }
}

/// Decides what to do after a step.
pub fn next_action(step: Step, failure: Option<&str>, remove_original: bool) -> (r: Action)
    ensures
        r@ == action_after(
            step,
            match failure {
                Some(reason) => Some(reason@),
                None => None,
            },
            remove_original,
        ),
{
    let mut line: Vec<Span> = Vec::new();
    match failure {
        Some(reason) => {
            let text = String::from_str("ERROR: ").concat(reason);
            line.push(span(Style::Red, text.as_str()));
            assert(span_views(line@) =~= seq![styled(Style::Red, text@)]);
            Action::GiveUp { line }
        },
        None => match step {
            Step::Open => Action::Create,
            Step::Create => Action::Copy,
            Step::Copy => Action::Finish,
            Step::Finish => {
                line.push(span(Style::Green, "\u{2713}"));
                assert(span_views(line@) =~= seq![styled(Style::Green, "\u{2713}"@)]);
                Action::Complete { remove: remove_original, line }
            },
        },
    }
}

/// A compressed file has a name under which it is read as one.
pub proof fn compressed_name_is_gzip_name(name: Seq<char>)
    ensures
        gzip_name(compressed_name(name)),
{
    let all = compressed_name(name);
    assert(all.subrange(all.len() - ".gz"@.len(), all.len() as int) =~= ".gz"@);
}

/// Different files are compressed into different files, and none into itself.
pub proof fn compressed_names_differ(a: Seq<char>, b: Seq<char>)
    ensures
        a != b ==> compressed_name(a) != compressed_name(b),
        compressed_name(a) != a,
{
    reveal_strlit(".gz");
    if compressed_name(a) == compressed_name(b) {
        assert(a =~= compressed_name(a).take(compressed_name(a).len() - 3));
        assert(b =~= compressed_name(b).take(compressed_name(b).len() - 3));
    }
    assert(compressed_name(a).len() == a.len() + 3);
}

/// A file is removed, and said to be compressed, only when the compressed file was
/// completed; it is removed only when that was asked for.
pub proof fn removed_only_when_copied(
    step: Step,
    failure: Option<Seq<char>>,
    remove_original: bool,
)
    requires
        action_after(step, failure, remove_original) is Complete,
    ensures
        step == Step::Finish,
        failure is None,
        action_after(step, failure, remove_original)->remove == remove_original,
{
}

/// The step that an action leads to, where it leads to one.
pub open spec fn step_begun(action: ActionView) -> Option<Step> {
    match action {
        ActionView::Create => Some(Step::Create),
        ActionView::Copy => Some(Step::Copy),
        ActionView::Finish => Some(Step::Finish),
        _ => None,
    }
}

/// The last action of compressing a file from `step` on, where `failures` tells why
/// a step fails.
pub open spec fn outcome_from(
    step: Step,
    failures: spec_fn(Step) -> Option<Seq<char>>,
    remove_original: bool,
) -> ActionView
    decreases steps_left(step),
{
    let action = action_after(step, failures(step), remove_original);
    match step_begun(action) {
        Some(next) => outcome_from(next, failures, remove_original),
        None => action,
    }
}

/// How many steps come after `step`.
pub open spec fn steps_left(step: Step) -> nat {
    match step {
        Step::Open => 3,
        Step::Create => 2,
        Step::Copy => 1,
        Step::Finish => 0,
    }
}

/// A file is compressed, and removed if that was asked for, exactly when no step
/// fails; otherwise the reason of the first step that fails is given, and the file
/// stays.
pub proof fn compressed_when_no_step_fails(
    failures: spec_fn(Step) -> Option<Seq<char>>,
    remove_original: bool,
)
    ensures
        ({
            let end = outcome_from(Step::Open, failures, remove_original);
            let first = if failures(Step::Open) is Some {
                failures(Step::Open)
            } else if failures(Step::Create) is Some {
                failures(Step::Create)
            } else if failures(Step::Copy) is Some {
                failures(Step::Copy)
            } else {
                failures(Step::Finish)
            };
            match first {
                Some(reason) => end == ActionView::GiveUp {
                    line: seq![styled(Style::Red, "ERROR: "@ + reason)],
                },
                None => end == ActionView::Complete {
                    remove: remove_original,
                    line: seq![styled(Style::Green, "\u{2713}"@)],
                },
            }
        }),
{
    reveal_with_fuel(outcome_from, 4);
}

} // verus!
