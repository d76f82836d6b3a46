//! Styled text, and what a terminal is sent for it.

use crate::text::{filler, pad_end, repeated};
use colored::Colorize;
use vstd::prelude::*;
use vstd::string::StringExecFns;

verus! {

/// How a piece of text is shown.
#[derive(Clone, Copy, Debug, PartialEq, Eq, Structural)]
pub enum Style {
    Plain,
    Dimmed,
    Bold,
    Red,
    Green,
    Yellow,
    Cyan,
    BlueBold,
    CyanDimmed,
    WhiteOnRed,
    WhiteOnRedBold,
}

/// A piece of text in one style, in a column of at least `width` characters.
pub struct Span {
    pub style: Style,
    pub text: String,
    pub width: u16,
}

/// What a `Span` says.
#[verifier::ext_equal]
pub struct SpanView {
    pub style: Style,
    pub text: Seq<char>,
    pub width: nat,
}

impl Span {
    pub open spec fn view(&self) -> SpanView {
        SpanView { style: self.style, text: self.text@, width: self.width as nat }
    }
}

/// Spans as they stand in a line.
pub open spec fn span_views(v: Seq<Span>) -> Seq<SpanView> {
    v.map_values(|s: Span| s@)
}

/// Lines of spans as they stand in a list.
pub open spec fn line_views(v: Seq<Vec<Span>>) -> Seq<Seq<SpanView>> {
    v.map_values(|l: Vec<Span>| span_views(l@))
}

/// A piece of text in one style.
pub open spec fn styled(style: Style, text: Seq<char>) -> SpanView {
    SpanView { style, text, width: 0 }
}

/// Text without a style.
pub open spec fn plain(text: Seq<char>) -> SpanView {
    styled(Style::Plain, text)
}

/// The control sequence that switches a style on.
pub open spec fn switch_on(style: Style) -> Seq<char> {
    match style {
        Style::Plain => Seq::empty(),
        Style::Dimmed => "\u{1b}[2m"@,
        Style::Bold => "\u{1b}[1m"@,
        Style::Red => "\u{1b}[31m"@,
        Style::Green => "\u{1b}[32m"@,
        Style::Yellow => "\u{1b}[33m"@,
        Style::Cyan => "\u{1b}[36m"@,
        Style::BlueBold => "\u{1b}[1;34m"@,
        Style::CyanDimmed => "\u{1b}[2;36m"@,
        Style::WhiteOnRed => "\u{1b}[41;37m"@,
        Style::WhiteOnRedBold => "\u{1b}[1;41;37m"@,
    }
}

/// The control sequence that switches every style off.
pub open spec fn switch_off() -> Seq<char> {
    "\u{1b}[0m"@
}

/// `text` with `on` after every place where it switches styles off.
pub open spec fn kept_on(text: Seq<char>, on: Seq<char>) -> Seq<char>
    decreases text.len(),
{
    if text.len() < 4 {
        text
    } else if text.take(4) == switch_off() {
        switch_off() + on + kept_on(text.skip(4), on)
    } else {
        seq![text[0]] + kept_on(text.skip(1), on)
    }
}

/// What a terminal can be sent for a piece of text: the text by itself, or the
/// text between the control sequences of its style.
pub open spec fn painted(s: SpanView, r: Seq<char>) -> bool {
    ||| r == pad_end(s.text, s.width)
    ||| s.style != Style::Plain && r == switch_on(s.style) + pad_end(
        kept_on(s.text, switch_on(s.style)),
        s.width,
    ) + switch_off()
}

/// The colours and styles of `colored::Colorize`, and the text that a
/// `colored::ColoredString` prints as in a column: the text itself, or the
/// text between the style's control sequences. Which of the two is left
/// unsaid: the environment decides it.
#[verifier::external_body]
pub(crate) fn paint(text: &str, style: Style, width: u16) -> (r: String)
    ensures
        painted(SpanView { style, text: text@, width: width as nat }, r@),
{
    let column = width as usize;
    let shown = match style {
        Style::Plain => text.normal(),
        Style::Dimmed => text.dimmed(),
        Style::Bold => text.bold(),
        Style::Red => text.red(),
        Style::Green => text.green(),
        Style::Yellow => text.yellow(),
        Style::Cyan => text.cyan(),
        Style::BlueBold => text.blue().bold(),
        Style::CyanDimmed => text.cyan().dimmed(),
        Style::WhiteOnRed => text.on_red().white(),
        Style::WhiteOnRedBold => text.on_red().white().bold(),
    };
    format!("{:<column$}", shown)
}

/// `r` is what a terminal can be sent for a line.
pub open spec fn rendering(line: Seq<SpanView>, r: Seq<char>) -> bool
    decreases line.len(),
{
    if line.len() == 0 {
        r.len() == 0
    } else {
        exists|head: Seq<char>, tail: Seq<char>|
            {
                &&& r == #[trigger] (head + tail)
                &&& rendering(line.drop_last(), head)
                &&& painted(line.last(), tail)
            }
    }
}

/// Paints a line.
pub fn render(line: &Vec<Span>) -> (r: String)
    ensures
        rendering(span_views(line@), r@),
{
    let mut r: String = String::new();
    let ghost all = span_views(line@);
    for i in 0..line.len()
        invariant
            all == span_views(line@),
            rendering(all.take(i as int), r@),
    {
        let ghost head = r@;
        let s = &line[i];
        let piece = paint(s.text.as_str(), s.style, s.width);
        r.append(piece.as_str());
        proof {
            assert(all.take(i + 1).drop_last() =~= all.take(i as int));
            assert(all.take(i + 1).last() == s@);
            assert(r@ == head + piece@);
        }
    }
    assert(all.take(all.len() as int) =~= all);
    r
}

/// The text of a line without any style.
pub open spec fn bare_text(line: Seq<SpanView>) -> Seq<char>
    decreases line.len(),
{
    if line.len() == 0 {
        Seq::empty()
    } else {
        bare_text(line.drop_last()) + pad_end(line.last().text, line.last().width)
    }
}

/// A line without styles is sent as it is.
pub proof fn plain_line_is_sent_bare(line: Seq<SpanView>, r: Seq<char>)
    requires
        forall|i: int| 0 <= i < line.len() ==> (#[trigger] line[i]).style == Style::Plain,
        rendering(line, r),
    ensures
        r == bare_text(line),
    decreases line.len(),
{
    if line.len() > 0 {
        let init = line.drop_last();
        assert forall|i: int| 0 <= i < init.len() implies (#[trigger] init[i]).style
            == Style::Plain by {
            assert(line[i].style == Style::Plain);
        }
        let (head, tail) = choose|head: Seq<char>, tail: Seq<char>|
            {
                &&& r == #[trigger] (head + tail)
                &&& rendering(line.drop_last(), head)
                &&& painted(line.last(), tail)
            };
        plain_line_is_sent_bare(init, head);
        assert(line[line.len() - 1].style == Style::Plain);
    } else {
        assert(r =~= bare_text(line));
    }
}

/// A text without its control sequences, each of which goes from an escape to the
/// next `m`; `inside` tells whether the text begins in one.
pub open spec fn without_controls(s: Seq<char>, inside: bool) -> Seq<char>
    decreases s.len(),
{
    if s.len() == 0 {
        Seq::empty()
    } else if inside {
        without_controls(s.skip(1), s[0] != 'm')
    } else if s[0] == '\u{1b}' {
        without_controls(s.skip(1), true)
    } else {
        seq![s[0]] + without_controls(s.skip(1), false)
    }
}

/// No escape stands in a text.
pub open spec fn no_escape(s: Seq<char>) -> bool {
    forall|i: int| 0 <= i < s.len() ==> #[trigger] s[i] != '\u{1b}'
}

/// No escape stands in the text of a line.
pub open spec fn no_escapes(line: Seq<SpanView>) -> bool {
    forall|i: int| 0 <= i < line.len() ==> no_escape((#[trigger] line[i]).text)
}

/// A control sequence.
spec fn is_control(c: Seq<char>) -> bool {
    &&& c.len() >= 2
    &&& c[0] == '\u{1b}'
    &&& c[c.len() - 1] == 'm'
    &&& forall|i: int| 0 < i < c.len() - 1 ==> #[trigger] c[i] != 'm'
}

proof fn text_is_kept(a: Seq<char>, b: Seq<char>)
    requires
        no_escape(a),
    ensures
        without_controls(a + b, false) == a + without_controls(b, false),
    decreases a.len(),
{
    if a.len() == 0 {
        assert(a + b =~= b);
        assert(a + without_controls(b, false) =~= without_controls(b, false));
    } else {
        let rest = a.skip(1);
        assert(no_escape(rest)) by {
            assert forall|i: int| 0 <= i < rest.len() implies #[trigger] rest[i] != '\u{1b}' by {
                assert(a[i + 1] != '\u{1b}');
            }
        }
        assert((a + b).skip(1) =~= rest + b);
        text_is_kept(rest, b);
        assert(a =~= seq![a[0]] + rest);
        assert(without_controls(a + b, false) =~= a + without_controls(b, false));
    }
}

proof fn end_of_control(c: Seq<char>, k: int, b: Seq<char>)
    requires
        is_control(c),
        1 <= k < c.len(),
    ensures
        without_controls(c.skip(k) + b, true) == without_controls(b, false),
    decreases c.len() - k,
{
    let s = c.skip(k) + b;
    assert(s[0] == c[k]);
    if k == c.len() - 1 {
        assert(s.skip(1) =~= b);
    } else {
        assert(s.skip(1) =~= c.skip(k + 1) + b);
        end_of_control(c, k + 1, b);
    }
}

proof fn control_is_dropped(c: Seq<char>, b: Seq<char>)
    requires
        is_control(c),
    ensures
        without_controls(c + b, false) == without_controls(b, false),
{
    assert((c + b)[0] == c[0]);
    assert((c + b).skip(1) =~= c.skip(1) + b);
    end_of_control(c, 1, b);
}

proof fn switches_are_controls(style: Style)
    requires
        style != Style::Plain,
    ensures
        is_control(switch_on(style)),
        is_control(switch_off()),
{
    reveal_strlit("\u{1b}[0m");
    reveal_strlit("\u{1b}[2m");
    reveal_strlit("\u{1b}[1m");
    reveal_strlit("\u{1b}[31m");
    reveal_strlit("\u{1b}[32m");
    reveal_strlit("\u{1b}[33m");
    reveal_strlit("\u{1b}[36m");
    reveal_strlit("\u{1b}[1;34m");
    reveal_strlit("\u{1b}[2;36m");
    reveal_strlit("\u{1b}[41;37m");
    reveal_strlit("\u{1b}[1;41;37m");
}

proof fn nothing_to_keep_on(text: Seq<char>, on: Seq<char>)
    requires
        no_escape(text),
    ensures
        kept_on(text, on) == text,
    decreases text.len(),
{
    reveal_strlit("\u{1b}[0m");
    if text.len() >= 4 {
        assert(text.take(4)[0] == text[0]);
        assert(switch_off()[0] == '\u{1b}');
        let rest = text.skip(1);
        assert(no_escape(rest)) by {
            assert forall|i: int| 0 <= i < rest.len() implies #[trigger] rest[i] != '\u{1b}' by {
                assert(text[i + 1] != '\u{1b}');
            }
        }
        nothing_to_keep_on(rest, on);
        assert(seq![text[0]] + rest =~= text);
    }
}

/// No escape stands in spaces.
pub proof fn spaces_hold_no_escape(n: nat)
    ensures
        no_escape(repeated(seq![' '], n)),
    decreases n,
{
    if n > 0 {
        spaces_hold_no_escape((n - 1) as nat);
    }
}

proof fn padding_holds_no_escape(s: Seq<char>, width: nat)
    requires
        no_escape(s),
    ensures
        no_escape(pad_end(s, width)),
{
    spaces_hold_no_escape(if s.len() < width { (width - s.len()) as nat } else { 0 });
    assert(no_escape(filler(s, width)));
}

proof fn painted_is_text(s: SpanView, r: Seq<char>, b: Seq<char>)
    requires
        no_escape(s.text),
        painted(s, r),
    ensures
        without_controls(r + b, false) == pad_end(s.text, s.width) + without_controls(b, false),
{
    let shown = pad_end(s.text, s.width);
    padding_holds_no_escape(s.text, s.width);
    if r == shown {
        text_is_kept(shown, b);
    } else {
        let on = switch_on(s.style);
        let off = switch_off();
        nothing_to_keep_on(s.text, on);
        switches_are_controls(s.style);
        assert(r + b =~= on + (shown + (off + b)));
        control_is_dropped(on, shown + (off + b));
        text_is_kept(shown, off + b);
        control_is_dropped(off, b);
    }
}

proof fn rendering_is_text(line: Seq<SpanView>, r: Seq<char>, b: Seq<char>)
    requires
        no_escapes(line),
        rendering(line, r),
    ensures
        without_controls(r + b, false) == bare_text(line) + without_controls(b, false),
    decreases line.len(),
{
    if line.len() == 0 {
        assert(r + b =~= b);
        assert(bare_text(line) + without_controls(b, false) =~= without_controls(b, false));
    } else {
        let (head, tail) = choose|head: Seq<char>, tail: Seq<char>|
            {
                &&& r == #[trigger] (head + tail)
                &&& rendering(line.drop_last(), head)
                &&& painted(line.last(), tail)
            };
        let init = line.drop_last();
        assert(no_escapes(init)) by {
            assert forall|i: int| 0 <= i < init.len() implies no_escape(
                (#[trigger] init[i]).text,
            ) by {
                assert(no_escape(line[i].text));
            }
        }
        assert(no_escape(line[line.len() - 1].text));
        assert(r + b =~= head + (tail + b));
        rendering_is_text(init, head, tail + b);
        painted_is_text(line.last(), tail, b);
        assert(without_controls(r + b, false) =~= bare_text(line) + without_controls(b, false));
    }
}

/// Styling adds control sequences only: without them, whatever a terminal is sent
/// for a line is the text of the line.
pub proof fn styling_keeps_the_text(line: Seq<SpanView>, r: Seq<char>)
    requires
        no_escapes(line),
        rendering(line, r),
    ensures
        without_controls(r, false) == bare_text(line),
{
    let none = Seq::<char>::empty();
    rendering_is_text(line, r, none);
    assert(r + none =~= r);
    assert(bare_text(line) + none =~= bare_text(line));
}

/// A span of text in one style.
pub(crate) fn span(style: Style, text: &str) -> (r: Span)
    ensures
        r@ == styled(style, text@),
{
    Span { style, text: String::from_str(text), width: 0 }
}

/// Adds a line of one span.
pub(crate) fn push_span(lines: &mut Vec<Vec<Span>>, style: Style, text: &str)
    ensures
        line_views(final(lines)@) == line_views(old(lines)@).push(seq![styled(style, text@)]),
{
    let ghost before = line_views(lines@);
    let mut l: Vec<Span> = Vec::new();
    l.push(span(style, text));
    assert(span_views(l@) =~= seq![styled(style, text@)]);
    lines.push(l);
    assert(line_views(lines@) =~= before.push(seq![styled(style, text@)]));
}

/// Adds an empty line.
pub(crate) fn push_empty(lines: &mut Vec<Vec<Span>>)
    ensures
        line_views(final(lines)@) == line_views(old(lines)@).push(Seq::empty()),
{
    let ghost before = line_views(lines@);
    let l: Vec<Span> = Vec::new();
    assert(span_views(l@) =~= Seq::<SpanView>::empty());
    lines.push(l);
    assert(line_views(lines@) =~= before.push(Seq::<SpanView>::empty()));
}

} // verus!
