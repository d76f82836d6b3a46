//! What holds of the text of styled lines.

use crate::paint::{
    bare_text, no_escapes, painted, plain_line_is_sent_bare, render, rendering, span_views,
    styling_keeps_the_text, without_controls, Span, SpanView, Style,
};
use crate::text::{filler, pad_end};
use vstd::prelude::*;

verus! {

/// A text in a column of no width stands alone.
pub proof fn no_column_no_filling(s: Seq<char>)
    ensures
        pad_end(s, 0) == s,
{
    assert(filler(s, 0) =~= Seq::<char>::empty());
    assert(pad_end(s, 0) =~= s);
}

/// The text of a line with one more piece is the text of the line and that of the
/// piece in its column.
pub proof fn pieces_follow_each_other(line: Seq<SpanView>, s: SpanView)
    ensures
        bare_text(line.push(s)) == bare_text(line) + pad_end(s.text, s.width),
        s.width == 0 ==> bare_text(line.push(s)) == bare_text(line) + s.text,
{
    assert(line.push(s).drop_last() =~= line);
    no_column_no_filling(s.text);
}

/// The text of two lines put together is that of the one and that of the other.
pub proof fn texts_of_lines_join(a: Seq<SpanView>, b: Seq<SpanView>)
    ensures
        bare_text(a + b) == bare_text(a) + bare_text(b),
    decreases b.len(),
{
    if b.len() == 0 {
        assert(a + b =~= a);
        assert(bare_text(a) + bare_text(b) =~= bare_text(a));
    } else {
        assert((a + b).drop_last() =~= a + b.drop_last());
        texts_of_lines_join(a, b.drop_last());
        assert(bare_text(a + b) =~= bare_text(a) + bare_text(b));
    }
}

/// A terminal is sent a line piece by piece: nothing for an empty line, and for one more
/// piece what can be sent for the line before it and then for the piece.
pub proof fn lines_are_sent_piece_by_piece(line: Seq<SpanView>, s: SpanView, r: Seq<char>)
    ensures
        rendering(Seq::empty(), r) <==> r.len() == 0,
        rendering(line.push(s), r) <==> exists|head: Seq<char>, tail: Seq<char>|
            {
                &&& r == #[trigger] (head + tail)
                &&& rendering(line, head)
                &&& painted(s, tail)
            },
{
    assert(line.push(s).drop_last() =~= line);
}

/// What is sent for a line without escapes is its text, once the control sequences are
/// taken out; a line without styles is sent as it is.
pub proof fn sent_lines_read_as_their_text(line: &Vec<Span>, r: String)
    requires
        call_ensures(render, (line,), r),
    ensures
        no_escapes(span_views(line@)) ==> without_controls(r@, false) == bare_text(
            span_views(line@),
        ),
        (forall|i: int| 0 <= i < line@.len() ==> (#[trigger] line@[i]).style == Style::Plain)
            ==> r@ == bare_text(span_views(line@)),
{
    let views = span_views(line@);
    if no_escapes(views) {
        styling_keeps_the_text(views, r@);
    }
    if forall|i: int| 0 <= i < line@.len() ==> (#[trigger] line@[i]).style == Style::Plain {
        assert forall|i: int| 0 <= i < views.len() implies (#[trigger] views[i]).style
            == Style::Plain by {
            assert(line@[i].style == Style::Plain);
        }
        plain_line_is_sent_bare(views, r@);
    }
}

/// The text of a line of one piece.
pub proof fn text_of_one(a: SpanView)
    requires
        a.width == 0,
    ensures
        bare_text(seq![a]) == a.text,
{
    let none = Seq::<SpanView>::empty();
    pieces_follow_each_other(none, a);
    assert(seq![a] =~= none.push(a));
    assert(bare_text(none) + a.text =~= a.text);
}

/// The text of a line of two pieces.
pub proof fn text_of_two(a: SpanView, b: SpanView)
    requires
        a.width == 0,
        b.width == 0,
    ensures
        bare_text(seq![a, b]) == a.text + b.text,
{
    text_of_one(a);
    pieces_follow_each_other(seq![a], b);
    assert(seq![a, b] =~= seq![a].push(b));
}

/// The text of a line of three pieces.
pub proof fn text_of_three(a: SpanView, b: SpanView, c: SpanView)
    requires
        a.width == 0,
        b.width == 0,
        c.width == 0,
    ensures
        bare_text(seq![a, b, c]) == a.text + b.text + c.text,
{
    text_of_two(a, b);
    pieces_follow_each_other(seq![a, b], c);
    assert(seq![a, b, c] =~= seq![a, b].push(c));
}

/// The text of a line of four pieces.
pub proof fn text_of_four(a: SpanView, b: SpanView, c: SpanView, d: SpanView)
    requires
        a.width == 0,
        b.width == 0,
        c.width == 0,
        d.width == 0,
    ensures
        bare_text(seq![a, b, c, d]) == a.text + b.text + c.text + d.text,
{
    text_of_three(a, b, c);
    pieces_follow_each_other(seq![a, b, c], d);
    assert(seq![a, b, c, d] =~= seq![a, b, c].push(d));
}

/// The text of a line of five pieces.
pub proof fn text_of_five(a: SpanView, b: SpanView, c: SpanView, d: SpanView, e: SpanView)
    requires
        a.width == 0,
        b.width == 0,
        c.width == 0,
        d.width == 0,
        e.width == 0,
    ensures
        bare_text(seq![a, b, c, d, e]) == a.text + b.text + c.text + d.text + e.text,
{
    text_of_four(a, b, c, d);
    pieces_follow_each_other(seq![a, b, c, d], e);
    assert(seq![a, b, c, d, e] =~= seq![a, b, c, d].push(e));
}

} // verus!
