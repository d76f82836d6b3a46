//! What holds of compressing a file, as it is said and done.

use crate::compress::{announce, next_action, output_name, Action, Step};
use crate::paint::{bare_text, span_views, Span, Style};
use crate::paint_laws::text_of_one;
use vstd::prelude::*;

verus! {

/// The compressed file has the whole name of the file with `.gz` behind it.
pub proof fn compressed_files_are_named(name: &str, r: String)
    requires
        call_ensures(output_name, (name,), r),
    ensures
        r@ == name@ + ".gz"@,
{
}

/// What is said before a file is compressed names both files.
pub proof fn compressing_is_announced(name: &str, r: Vec<Span>)
    requires
        call_ensures(announce, (name,), r),
    ensures
        span_views(r@).len() == 1,
        span_views(r@)[0].style == Style::Plain,
        bare_text(span_views(r@)) == "  Compressing "@ + name@ + " -> "@ + (name@ + ".gz"@)
            + " ... "@,
{
    let line = span_views(r@);
    text_of_one(line[0]);
    assert(line =~= seq![line[0]]);
}

/// Each step that succeeds leads to the next one, the last to the end, and the file
/// is removed there exactly when that was asked for. A step that fails, whichever it
/// is, ends it all: the reason is said, and nothing is removed.
pub proof fn steps_lead_on(step: Step, failure: Option<&str>, remove_original: bool, r: Action)
    requires
        call_ensures(next_action, (step, failure, remove_original), r),
    ensures
        failure matches Some(reason) ==> (r matches Action::GiveUp { line } && bare_text(
            span_views(line@),
        ) == "ERROR: "@ + reason@ && span_views(line@)[0].style == Style::Red),
        failure is None && step == Step::Open ==> r is Create,
        failure is None && step == Step::Create ==> r is Copy,
        failure is None && step == Step::Copy ==> r is Finish,
        failure is None && step == Step::Finish ==> (r matches Action::Complete { remove, line }
            && remove == remove_original && bare_text(span_views(line@)) == "\u{2713}"@
            && span_views(line@)[0].style == Style::Green),
{
    match r {
        Action::GiveUp { line } => {
            let l = span_views(line@);
            text_of_one(l[0]);
            assert(l =~= seq![l[0]]);
        },
        Action::Complete { remove, line } => {
            let l = span_views(line@);
            text_of_one(l[0]);
            assert(l =~= seq![l[0]]);
        },
        _ => {},
    }
}

} // verus!
