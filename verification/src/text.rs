//! Text: the pieces of `str` that the rest of the library reasons about.

use vstd::prelude::*;
use vstd::string::StrSliceExecFns;
use vstd::string::StringExecFns;

verus! {

/// What Unicode lower-casing makes of a text.
pub uninterp spec fn lower(s: Seq<char>) -> Seq<char>;

/// What Unicode upper-casing makes of a text.
pub uninterp spec fn upper(s: Seq<char>) -> Seq<char>;

/// The texts of a list of strings.
pub open spec fn texts(v: Seq<String>) -> Seq<Seq<char>> {
    v.map_values(|s: String| s@)
}

/// `piece` stands in `s` at position `i`.
pub open spec fn piece_at(s: Seq<char>, piece: Seq<char>, i: int) -> bool {
    &&& 0 <= i
    &&& i + piece.len() <= s.len()
    &&& s.subrange(i, i + piece.len()) == piece
}

/// `piece` stands somewhere in `s`.
pub open spec fn has_piece(s: Seq<char>, piece: Seq<char>) -> bool {
    exists|i: int| piece_at(s, piece, i)
}

/// `s` ends in `tail`.
pub open spec fn has_tail(s: Seq<char>, tail: Seq<char>) -> bool {
    piece_at(s, tail, s.len() - tail.len())
}

/// The characters with Unicode's White_Space property.
pub open spec fn white_space(c: char) -> bool {
    let n = c as int;
    ||| 0x09 <= n <= 0x0d
    ||| n == 0x20 || n == 0x85 || n == 0xa0 || n == 0x1680
    ||| 0x2000 <= n <= 0x200a
    ||| n == 0x2028 || n == 0x2029 || n == 0x202f || n == 0x205f || n == 0x3000
}

/// `s` without the white space at its end.
pub open spec fn trimmed_end(s: Seq<char>) -> Seq<char>
    decreases s.len(),
{
    if s.len() > 0 && white_space(s.last()) {
        trimmed_end(s.drop_last())
    } else {
        s
    }
}

/// `str::to_lowercase`: the result is a function of the text alone.
#[verifier::external_body]
pub(crate) fn to_lower(s: &str) -> (r: String)
    ensures
        r@ == lower(s@),
{
    s.to_lowercase()
}

/// `str::to_uppercase`: the result is a function of the text alone.
#[verifier::external_body]
pub(crate) fn to_upper(s: &str) -> (r: String)
    ensures
        r@ == upper(s@),
{
    s.to_uppercase()
}

/// The characters of a text.
pub(crate) fn chars_of(s: &str) -> (r: Vec<char>)
    ensures
        r@ == s@,
{
    let mut r: Vec<char> = Vec::new();
    for c in it: s.chars()
        invariant
            it.seq() == s@,
            r@ == s@.take(it.index()),
    {
        r.push(c);
        assert(r@ =~= s@.take(it.index() + 1));
    }
    assert(s@.take(s@.len() as int) =~= s@);
    r
}

fn stands_at(s: &Vec<char>, piece: &Vec<char>, i: usize) -> (r: bool)
    requires
        i + piece@.len() <= s@.len(),
    ensures
        r == piece_at(s@, piece@, i as int),
{
    let n: usize = s.len();
    for k in 0..piece.len()
        invariant
            n == s@.len(),
            i + piece@.len() <= n,
            forall|m: int| 0 <= m < k ==> s@[i + m] == #[trigger] piece@[m],
    {
        if s[i + k] != piece[k] {
            assert(s@.subrange(i as int, i + piece@.len())[k as int] != piece@[k as int]);
            return false;
        }
    }
    assert(s@.subrange(i as int, i + piece@.len()) =~= piece@);
    true
}

/// Whether `piece` stands somewhere in a text.
pub fn contains(s: &str, piece: &str) -> (r: bool)
    ensures
        r == has_piece(s@, piece@),
{
    let t = chars_of(s);
    let p = chars_of(piece);
    if p.len() > t.len() {
        return false;
    }
    let last: usize = t.len() - p.len();
    let mut i: usize = 0;
    while i < last
        invariant
            t@ == s@,
            p@ == piece@,
            last == t@.len() - p@.len(),
            i <= last,
            forall|k: int| k < i ==> !piece_at(s@, piece@, k),
        decreases last - i,
    {
        if stands_at(&t, &p, i) {
            return true;
        }
        i += 1;
    }
    stands_at(&t, &p, last)
}

/// Whether a text ends in `tail`.
pub fn ends_with(s: &str, tail: &str) -> (r: bool)
    ensures
        r == has_tail(s@, tail@),
{
    let t = chars_of(s);
    let p = chars_of(tail);
    p.len() <= t.len() && stands_at(&t, &p, t.len() - p.len())
}

/// Whether a character is white space.
pub(crate) fn is_space(c: char) -> (r: bool)
    ensures
        r == white_space(c),
{
    let n: u32 = c as u32;
    (0x09 <= n && n <= 0x0d) || n == 0x20 || n == 0x85 || n == 0xa0 || n == 0x1680 || (0x2000 <= n
        && n <= 0x200a) || n == 0x2028 || n == 0x2029 || n == 0x202f || n == 0x205f || n == 0x3000
}

/// A text without the white space at its end.
pub fn trim_end(s: &str) -> (r: &str)
    ensures
        r@ == trimmed_end(s@),
{
    let cs = chars_of(s);
    let mut k: usize = cs.len();
    assert(s@.take(k as int) =~= s@);
    while k > 0
        invariant
            cs@ == s@,
            k <= s@.len(),
            trimmed_end(s@) == trimmed_end(s@.take(k as int)),
        decreases k,
    {
        assert(s@.take(k as int).last() == cs@[k - 1]);
        if !is_space(cs[k - 1]) {
            return s.substring_char(0, k);
        }
        assert(s@.take(k as int).drop_last() =~= s@.take(k - 1));
        k -= 1;
    }
    s.substring_char(0, 0)
}

/// Whether two texts are the same.
pub fn same_text(a: &str, b: &str) -> (r: bool)
    ensures
        r == (a@ == b@),
{
    let x: String = a.to_owned();
    let y: String = b.to_owned();
    x == y
}

/// The ten decimal digits.
pub open spec fn digit(n: nat) -> char {
    ((n % 10) + ('0' as nat)) as char
}

/// `n` written in decimal, without leading zeros.
pub open spec fn decimal(n: nat) -> Seq<char>
    decreases n,
{
    if n < 10 {
        seq![digit(n)]
    } else {
        decimal(n / 10).push(digit(n))
    }
}

fn digit_text(n: usize) -> (r: &'static str)
    requires
        n < 10,
    ensures
        r@ == seq![digit(n as nat)],
{
    proof {
        reveal_strlit("0");
        reveal_strlit("1");
        reveal_strlit("2");
        reveal_strlit("3");
        reveal_strlit("4");
        reveal_strlit("5");
        reveal_strlit("6");
        reveal_strlit("7");
        reveal_strlit("8");
        reveal_strlit("9");
    }
    let r = match n {
        0 => "0",
        1 => "1",
        2 => "2",
        3 => "3",
        4 => "4",
        5 => "5",
        6 => "6",
        7 => "7",
        8 => "8",
        _ => "9",
    };
    assert(r@ =~= seq![digit(n as nat)]);
    r
}

/// Writes a number in decimal.
pub fn to_decimal(n: usize) -> (r: String)
    ensures
        r@ == decimal(n as nat),
    decreases n,
{
    if n < 10 {
        String::from_str(digit_text(n))
    } else {
        let mut r: String = to_decimal(n / 10);
        r.append(digit_text(n % 10));
        assert(r@ =~= decimal(n as nat));
        r
    }
}

/// `n` copies of `s`, one after the other.
pub open spec fn repeated(s: Seq<char>, n: nat) -> Seq<char>
    decreases n,
{
    if n == 0 {
        Seq::empty()
    } else {
        repeated(s, (n - 1) as nat) + s
    }
}

/// Writes `s` `n` times.
pub fn repeat(s: &str, n: usize) -> (r: String)
    ensures
        r@ == repeated(s@, n as nat),
{
    let mut r: String = String::new();
    for i in 0..n
        invariant
            r@ == repeated(s@, i as nat),
    {
        r.append(s);
    }
    r
}

/// The spaces that bring a text up to `width` characters.
pub open spec fn filler(s: Seq<char>, width: nat) -> Seq<char> {
    repeated(seq![' '], if s.len() < width { (width - s.len()) as nat } else { 0 })
}

/// `s` in a column of `width` characters, on the left.
pub open spec fn pad_end(s: Seq<char>, width: nat) -> Seq<char> {
    s + filler(s, width)
}

/// `s` in a column of `width` characters, on the right.
pub open spec fn pad_start(s: Seq<char>, width: nat) -> Seq<char> {
    filler(s, width) + s
}

fn fill(s: &str, width: usize) -> (r: String)
    ensures
        r@ == filler(s@, width as nat),
{
    let n: usize = s.unicode_len();
    proof {
        reveal_strlit(" ");
        assert(" "@ =~= seq![' ']);
    }
    repeat(" ", if n < width { width - n } else { 0 })
}

/// Puts `s` on the left of a column.
pub fn left_column(s: &str, width: usize) -> (r: String)
    ensures
        r@ == pad_end(s@, width as nat),
{
    let mut r: String = String::from_str(s);
    r.append(fill(s, width).as_str());
    r
}

/// Puts `s` on the right of a column.
pub fn right_column(s: &str, width: usize) -> (r: String)
    ensures
        r@ == pad_start(s@, width as nat),
{
    fill(s, width).concat(s)
}

} // verus!
