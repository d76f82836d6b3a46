//! What holds of texts, numbers and columns.

use crate::text::{
    contains, decimal, digit, ends_with, filler, has_piece, has_tail, left_column, pad_end, pad_start,
    piece_at, repeat, repeated, right_column, same_text, to_decimal, trim_end, trimmed_end, white_space,
};
use vstd::prelude::*;

verus! {

/// A text ends in `tail` exactly when it is some text with `tail` behind it.
pub proof fn tails_are_ends(s: Seq<char>, tail: Seq<char>)
    ensures
        has_tail(s, tail) <==> exists|front: Seq<char>| s == #[trigger] (front + tail),
{
    let n = s.len() - tail.len();
    if has_tail(s, tail) {
        assert(s =~= s.take(n) + tail);
    }
    if exists|front: Seq<char>| s == #[trigger] (front + tail) {
        let front = choose|front: Seq<char>| s == #[trigger] (front + tail);
        assert(s.subrange(n, n + tail.len()) =~= tail);
    }
}

/// `front`, `piece` and `back`, one after the other.
pub open spec fn around(front: Seq<char>, piece: Seq<char>, back: Seq<char>) -> Seq<char> {
    front + piece + back
}

/// A piece stands in a text exactly when the text is that piece with something
/// before it and something behind it.
pub proof fn pieces_are_within(s: Seq<char>, piece: Seq<char>)
    ensures
        has_piece(s, piece) <==> exists|front: Seq<char>, back: Seq<char>|
            s == #[trigger] around(front, piece, back),
{
    if has_piece(s, piece) {
        let i = choose|i: int| piece_at(s, piece, i);
        assert(s =~= around(s.take(i), piece, s.skip(i + piece.len())));
    }
    if exists|front: Seq<char>, back: Seq<char>| s == #[trigger] around(front, piece, back) {
        let (front, back) = choose|front: Seq<char>, back: Seq<char>|
            s == #[trigger] around(front, piece, back);
        let i = front.len() as int;
        assert(s.subrange(i, i + piece.len()) =~= piece);
        assert(piece_at(s, piece, i));
    }
}

/// What is found in a text is found in every longer text around it, and a text that
/// ends in a piece holds it.
pub proof fn pieces_stay(s: Seq<char>, piece: Seq<char>, front: Seq<char>, back: Seq<char>)
    ensures
        has_piece(s, piece) ==> has_piece(front + s + back, piece),
        has_tail(s, piece) ==> has_piece(s, piece),
        has_tail(s, piece) ==> has_tail(front + s, piece),
        has_piece(s, s),
{
    if has_piece(s, piece) {
        let i = choose|i: int| piece_at(s, piece, i);
        let all = front + s + back;
        let k = front.len() + i;
        assert(all.subrange(k, k + piece.len()) =~= s.subrange(i, i + piece.len()));
        assert(piece_at(all, piece, k));
    }
    if has_tail(s, piece) {
        let i = s.len() - piece.len();
        let all = front + s;
        let k = all.len() - piece.len();
        assert(all.subrange(k, k + piece.len()) =~= s.subrange(i, i + piece.len()));
    }
    assert(s.subrange(0, s.len() as int) =~= s);
    assert(piece_at(s, s, 0));
}

/// The code points of white space.
pub open spec fn space_points() -> Set<int> {
    set![
        9int, 10, 11, 12, 13, 32, 133, 160, 5760, 8192, 8193, 8194, 8195, 8196, 8197, 8198, 8199,
        8200, 8201, 8202, 8232, 8233, 8239, 8287, 12288
    ]
}

/// White space are twenty-five characters: the blanks, line ends and separators of
/// Unicode.
pub proof fn white_space_is_listed(c: char)
    ensures
        white_space(c) <==> space_points().contains(c as int),
{
}

/// A text without the white space at its end is its beginning: what is left out is
/// white space, and what is left does not end in any.
pub proof fn trimming_leaves_no_space(s: Seq<char>)
    ensures
        trimmed_end(s).is_prefix_of(s),
        forall|i: int|
            trimmed_end(s).len() <= i < s.len() ==> white_space(#[trigger] s[i]),
        trimmed_end(s).len() > 0 ==> !white_space(trimmed_end(s).last()),
    decreases s.len(),
{
    if s.len() > 0 && white_space(s.last()) {
        let init = s.drop_last();
        trimming_leaves_no_space(init);
        let t = trimmed_end(s);
        assert(t =~= s.subrange(0, t.len() as int));
        assert forall|i: int| t.len() <= i < s.len() implies white_space(#[trigger] s[i]) by {
            if i < init.len() {
                assert(init[i] == s[i]);
            }
        }
    } else {
        assert(s =~= s.subrange(0, s.len() as int));
    }
}

/// The number that a text of decimal digits stands for.
pub open spec fn value_of(s: Seq<char>) -> nat
    decreases s.len(),
{
    if s.len() == 0 {
        0
    } else {
        10 * value_of(s.drop_last()) + ((s.last() as int) - 48) as nat
    }
}

/// A number is written in digits that stand for it, without zeros in front.
pub proof fn decimals_stand_for_numbers(n: nat)
    ensures
        value_of(decimal(n)) == n,
        decimal(n).len() > 0,
        forall|i: int| 0 <= i < decimal(n).len() ==> 48 <= (#[trigger] decimal(n)[i]) as int <= 57,
        decimal(n).len() > 1 ==> decimal(n)[0] as int != 48,
        n > 0 ==> decimal(n)[0] as int != 48,
    decreases n,
{
    if n < 10 {
        let s = seq![digit(n)];
        assert(s.drop_last().len() == 0);
        assert(s.last() as int == n + 48);
        assert(value_of(s.drop_last()) == 0);
        assert(value_of(s) == n);
    } else {
        let init = decimal(n / 10);
        decimals_stand_for_numbers(n / 10);
        assert(decimal(n).drop_last() =~= init);
        assert(digit(n) as int == n % 10 + 48);
    }
}

/// Two different numbers are written differently.
pub proof fn decimals_differ(a: nat, b: nat)
    requires
        decimal(a) == decimal(b),
    ensures
        a == b,
{
    decimals_stand_for_numbers(a);
    decimals_stand_for_numbers(b);
}

/// A text in a column stands at its left end, and the column is filled with spaces;
/// a text that is too long for it stands alone.
pub proof fn left_columns_are_filled(s: Seq<char>, width: nat)
    ensures
        pad_end(s, width).len() == if s.len() < width { width } else { s.len() },
        s.is_prefix_of(pad_end(s, width)),
        forall|i: int|
            s.len() <= i < pad_end(s, width).len() ==> #[trigger] pad_end(s, width)[i] == ' ',
{
    let n = if s.len() < width { (width - s.len()) as nat } else { 0 };
    copies_follow_each_other(seq![' '], n);
    let all = pad_end(s, width);
    assert(all.subrange(0, s.len() as int) =~= s);
    assert forall|i: int| s.len() <= i < all.len() implies #[trigger] all[i] == ' ' by {
        assert(all[i] == filler(s, width)[i - s.len()]);
    }
}

/// A text in a column stands at its right end, and the column is filled with
/// spaces; a text that is too long for it stands alone.
pub proof fn right_columns_are_filled(s: Seq<char>, width: nat)
    ensures
        pad_start(s, width).len() == if s.len() < width { width } else { s.len() },
        has_tail(pad_start(s, width), s),
        forall|i: int|
            0 <= i < pad_start(s, width).len() - s.len() ==> #[trigger] pad_start(s, width)[i]
                == ' ',
{
    let n = if s.len() < width { (width - s.len()) as nat } else { 0 };
    copies_follow_each_other(seq![' '], n);
    let all = pad_start(s, width);
    let k = all.len() - s.len();
    assert(all.subrange(k, k + s.len()) =~= s);
    assert forall|i: int| 0 <= i < k implies #[trigger] all[i] == ' ' by {
        assert(all[i] == filler(s, width)[i]);
    }
}

/// Copies of a one-character text are that character over and over.
pub proof fn copies_follow_each_other(s: Seq<char>, n: nat)
    requires
        s.len() == 1,
    ensures
        repeated(s, n).len() == n,
        forall|i: int| 0 <= i < n ==> #[trigger] repeated(s, n)[i] == s[0],
    decreases n,
{
    if n > 0 {
        copies_follow_each_other(s, (n - 1) as nat);
    }
}

/// Copies of any text follow each other: none, one, and as many as two numbers of them
/// together.
pub proof fn copies_are_joined(s: Seq<char>, n: nat, m: nat)
    ensures
        repeated(s, 0).len() == 0,
        repeated(s, 1) == s,
        repeated(s, n + m) == repeated(s, n) + repeated(s, m),
    decreases m,
{
    assert(repeated(s, 0) + s =~= s);
    assert(repeated(s, 1) == repeated(s, 0) + s);
    if m == 0 {
        assert(repeated(s, n) + repeated(s, m) =~= repeated(s, n));
    } else {
        copies_are_joined(s, n, (m - 1) as nat);
        assert(repeated(s, n + m) == repeated(s, (n + m - 1) as nat) + s);
        assert(repeated(s, n + m) =~= repeated(s, n) + repeated(s, m));
    }
}

/// What is written: a number by the digits that stand for it, a text over and over, and
/// a text in a column of spaces.
pub proof fn texts_are_written_so(
    n: usize,
    number: String,
    s: &str,
    over: String,
    left: String,
    right: String,
    i: int,
)
    requires
        call_ensures(to_decimal, (n,), number),
        call_ensures(repeat, (s, n), over),
        call_ensures(left_column, (s, n), left),
        call_ensures(right_column, (s, n), right),
    ensures
        value_of(number@) == n,
        over@ == repeated(s@, n as nat),
        left@.len() == if s@.len() < n { n as nat } else { s@.len() },
        right@.len() == left@.len(),
        s@.is_prefix_of(left@),
        has_tail(right@, s@),
        s@.len() <= i < left@.len() ==> left@[i] == ' ',
        0 <= i < right@.len() - s@.len() ==> right@[i] == ' ',
{
    decimals_stand_for_numbers(n as nat);
    left_columns_are_filled(s@, n as nat);
    right_columns_are_filled(s@, n as nat);
}

/// Two texts are told to be the same exactly when they have the same characters, and
/// the white space at the end of a text is cut off, and nothing else.
pub proof fn texts_are_told_apart(a: &str, b: &str, same: bool, cut: &str, i: int)
    requires
        call_ensures(same_text, (a, b), same),
        call_ensures(trim_end, (a,), cut),
    ensures
        same <==> a@ == b@,
        cut@.is_prefix_of(a@),
        cut@.len() <= i < a@.len() ==> white_space(a@[i]),
        cut@.len() > 0 ==> !white_space(cut@.last()),
{
    trimming_leaves_no_space(a@);
}

/// What is said of a text by `ends_with` and `contains`: a text that is some text
/// with `tail` behind it ends in it and holds it, and no other ends in it.
pub proof fn ends_are_recognised(s: &str, tail: &str, ends: bool, holds: bool, front: Seq<char>)
    requires
        call_ensures(ends_with, (s, tail), ends),
        call_ensures(contains, (s, tail), holds),
    ensures
        s@ == front + tail@ ==> ends && holds,
        ends ==> holds && s@ == s@.take(s@.len() - tail@.len()) + tail@,
{
    tails_are_ends(s@, tail@);
    pieces_stay(s@, tail@, Seq::empty(), Seq::empty());
    if s@ == front + tail@ {
        assert(has_tail(s@, tail@));
    }
    if ends {
        assert(s@ =~= s@.take(s@.len() - tail@.len()) + tail@);
    }
}

} // verus!
