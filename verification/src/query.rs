//! Whether a line answers a query, and whether it is recent enough.

use crate::json::{held, held_opt, Json};
use crate::text::{
    chars_of, contains, ends_with, has_piece, has_tail, is_space, lower, piece_at,
    to_lower, white_space,
};
use vstd::prelude::*;
use vstd::string::StrSliceExecFns;
use vstd::string::StringExecFns;

verus! {

/// A moment in UTC: whole seconds since the Unix epoch, and the nanoseconds
/// after them.
#[derive(Clone, Copy, Debug, PartialEq, Eq, Structural)]
pub struct Moment {
    pub secs: i64,
    pub nanos: u32,
}

impl Moment {
    /// `self` is `other` or later.
    pub open spec fn not_before(self, other: Moment) -> bool {
        self.secs > other.secs || (self.secs == other.secs && self.nanos >= other.nanos)
    }

    pub fn is_not_before(self, other: Moment) -> (r: bool)
        ensures
            r == self.not_before(other),
    {
        self.secs > other.secs || (self.secs == other.secs && self.nanos >= other.nanos)
    }
}

/// Why a query cannot be answered.
#[derive(Debug)]
pub enum QueryError {
    /// The part of the query that is malformed.
    InvalidFormat(String),
}

impl QueryError {
    /// The message shown to the user.
    pub open spec fn shown(self) -> Seq<char> {
        match self {
            QueryError::InvalidFormat(q) => "Invalid query format: '"@ + q@ + "'"@,
        }
    }

    pub fn message(&self) -> (r: String)
        ensures
            r@ == self.shown(),
    {
        match self {
            QueryError::InvalidFormat(q) => {
                String::from_str("Invalid query format: '").concat(q.as_str()).concat("'")
            },
        }
    }
}

// ---------------------------------------------------------------------------
// Time texts
// ---------------------------------------------------------------------------

/// The whole seconds of a duration such as `15m` or `2days 3h`, where the text
/// is one.
pub uninterp spec fn span_secs(s: Seq<char>) -> Option<nat>;

/// The moment that a time text gives, where `now` is what is read off the clock
/// for it, if anything is.
pub uninterp spec fn time_at(s: Seq<char>, now: Option<Moment>) -> Option<Moment>;

/// The moment that a time text gives where the clock is not asked: the one that it
/// names as an RFC 3339 timestamp.
pub open spec fn fixed_moment(s: Seq<char>) -> Option<Moment> {
    time_at(s, None)
}

/// The moment that an entry was logged at: its `timestamp`, `ts` or
/// `@timestamp`.
pub uninterp spec fn entry_moment(j: Json) -> Option<Moment>;

/// The longest span that can be taken off the current time: from the earliest
/// moment that UTC timestamps reach to the Unix epoch, in seconds.
pub const LONGEST_SPAN: u64 = 8_334_601_228_799;

/// The digits of numbers in units of a second or longer with which no duration
/// comes near the largest number of seconds.
pub const MOST_DIGITS: usize = 11;

/// The characters with which no duration comes near the largest number of seconds
/// by fractions and by units below the second.
pub const MOST_CHARS: usize = 100_000_000;

pub open spec fn ascii_digit(c: char) -> bool {
    '0' <= c <= '9'
}

/// A character at which no duration goes on: ASCII other than letters, digits,
/// white space and the decimal point.
pub open spec fn ends_span(c: char) -> bool {
    &&& (c as int) < 0x80
    &&& !ascii_digit(c)
    &&& !('a' <= c <= 'z')
    &&& !('A' <= c <= 'Z')
    &&& c != '.'
    &&& !white_space(c)
}

/// The text before the first character at which no duration goes on.
pub open spec fn lead(s: Seq<char>) -> Seq<char>
    decreases s.len(),
{
    if s.len() == 0 || ends_span(s[0]) {
        Seq::empty()
    } else {
        seq![s[0]] + lead(s.skip(1))
    }
}

/// The text starts with a digit, white space aside.
pub open spec fn opens_number(s: Seq<char>) -> bool
    decreases s.len(),
{
    s.len() > 0 && (ascii_digit(s[0]) || (white_space(s[0]) && opens_number(s.skip(1))))
}

/// The text may name a unit below the second, or a fraction.
pub open spec fn has_fine_unit(s: Seq<char>) -> bool {
    ||| has_piece(s, "."@)
    ||| has_piece(s, "ms"@)
    ||| has_piece(s, "us"@)
    ||| has_piece(s, "ns"@)
    ||| has_piece(s, "nanos"@)
    ||| has_piece(s, "millis"@)
    ||| has_piece(s, "\u{b5}"@)
}

/// The letters of units.
pub open spec fn unit_letter(c: char) -> bool {
    'a' <= c <= 'z' || 'A' <= c <= 'Z' || c == '\u{b5}'
}

/// A unit begins at `i`, and it is not one of those below the second: these
/// begin in `n`, `u` or `\u{b5}`, or are called `ms`, `msec` or `millis`.
pub open spec fn opens_long_unit(s: Seq<char>, i: int) -> bool {
    &&& 0 <= i < s.len()
    &&& unit_letter(s[i])
    &&& i == 0 || !unit_letter(s[i - 1])
    &&& s[i] != 'n' && s[i] != 'u' && s[i] != '\u{b5}'
    &&& !(s[i] == 'm' && i + 1 < s.len() && (s[i + 1] == 's' || (s[i + 1] == 'i' && i + 2 < s.len()
        && s[i + 2] == 'l')))
}

/// Where a number stands: among the zeros that it begins with, among its other
/// digits, or behind its decimal point.
#[derive(Clone, Copy, Debug, PartialEq, Eq, Structural)]
pub enum NumberPart {
    Zeros,
    Digits,
    Fraction,
}

/// The digits from `i` on of the numbers in units of a second or longer, leading
/// zeros and fractions aside; `run` of them were met already in the number that
/// goes on at `i`.
pub open spec fn long_digits(s: Seq<char>, i: int, run: nat, part: NumberPart) -> nat
    decreases s.len() - i,
{
    if i < 0 || i >= s.len() {
        0
    } else if unit_letter(s[i]) {
        (if opens_long_unit(s, i) {
            run
        } else {
            0
        }) + long_digits(s, i + 1, 0, NumberPart::Zeros)
    } else if s[i] == '.' {
        long_digits(s, i + 1, run, NumberPart::Fraction)
    } else if ascii_digit(s[i]) && part != NumberPart::Fraction && !(s[i] == '0' && part
        == NumberPart::Zeros) {
        long_digits(s, i + 1, run + 1, NumberPart::Digits)
    } else {
        long_digits(s, i + 1, run, part)
    }
}

/// A text whose nanoseconds, if it is a duration, cannot run over together
/// with its seconds: it is no number to begin with, names no unit below the
/// second and no fraction, or has few digits in units of a second or longer.
pub open spec fn countable(s: Seq<char>) -> bool {
    ||| !opens_number(s)
    ||| !has_fine_unit(lead(s))
    ||| long_digits(lead(s), 0, 0, NumberPart::Zeros) <= MOST_DIGITS && lead(s).len() <= MOST_CHARS
}

/// A text without the ` ago` at its end.
pub open spec fn without_ago(s: Seq<char>) -> Seq<char> {
    if has_tail(s, " ago"@) {
        s.take(s.len() - 4)
    } else {
        s
    }
}

/// If `s` is a duration, it reaches back from the current time to a moment
/// that there is.
pub open spec fn within_reach(s: Seq<char>) -> bool {
    &&& countable(s)
    &&& span_secs(s) matches Some(n) ==> n <= LONGEST_SPAN
}

/// `humantime::parse_duration`: the whole seconds of the duration, nothing
/// where the text is none. They depend on the text alone.
///
/// The function panics where the seconds add up to `u64::MAX` and the
/// nanoseconds to one second. It stops at the first character that it rejects.
/// Without a unit below the second and without a fraction there are no
/// nanoseconds. Otherwise no sum comes near: eleven digits make less than two to
/// the sixty-second seconds in any unit, a number in a unit below the second less
/// than two to the thirty-fifth, and a fraction less than a year.
#[verifier::external_body]
pub(crate) fn parse_span(s: &str) -> (r: Option<u64>)
    requires
        countable(s@),
    ensures
        r is Some <==> span_secs(s@) is Some,
        r matches Some(n) ==> span_secs(s@) == Some(n as nat),
{
    match humantime::parse_duration(s) {
        Ok(d) => Some(d.as_secs()),
        Err(_) => None,
    }
}

/// A time text can be read as `t` where `now` is what is read off the clock for it.
/// The clock is asked for `now`, which is the moment itself, and for a duration,
/// which reaches back from it by as many seconds, a part of a second aside.
pub open spec fn reads_as(s: Seq<char>, now: Option<Moment>, t: Option<Moment>) -> bool {
    &&& now is Some <==> asks_clock(s)
    &&& now matches Some(n) ==> {
        &&& t is Some
        &&& lower(s) == "now"@ ==> t == now
        &&& lower(s) != "now"@ ==> n.secs - span_secs(without_ago(s))->0 - 1 <= t->0.secs
            <= n.secs - span_secs(without_ago(s))->0
    }
}

/// `now` can be what is read off the clock for a time text.
pub open spec fn possible_now(s: Seq<char>, now: Option<Moment>) -> bool {
    reads_as(s, now, time_at(s, now))
}

/// What can come of a time text.
pub open spec fn time_reading(s: Seq<char>, r: Option<Moment>) -> bool {
    exists|now: Option<Moment>| possible_now(s, now) && r == #[trigger] time_at(s, now)
}

/// `loglens_core::time::parse_time_string`: `now`, a duration before now, or a
/// timestamp. `None` stands for its error. What it gives depends on the text and
/// on what it reads off the clock; it reads the clock once, and only for `now` and
/// for durations.
///
/// A duration that reaches back beyond the timestamps that there are makes it
/// panic. The clock is taken to stand between the Unix epoch and the last year
/// of UTC timestamps, and `std::time::SystemTime` to count seconds in 64 bits:
/// where it counts steps of 100 nanoseconds, as on Windows, the function panics
/// beyond some 29,000 years.
#[verifier::external_body]
pub(crate) fn read_time(s: &str) -> (r: Option<Moment>)
    requires
        within_reach(without_ago(s@)),
    ensures
        exists|now: Option<Moment>| r == #[trigger] time_at(s@, now) && reads_as(s@, now, r),
{
    match loglens_core::time::parse_time_string(s) {
        Ok(t) => Some(Moment { secs: t.timestamp(), nanos: t.timestamp_subsec_nanos() }),
        Err(_) => None,
    }
}

/// The keys under which an entry's time is looked up.
pub open spec fn has_time_key(j: Json) -> bool {
    ||| j.member("timestamp"@) is Some
    ||| j.member("ts"@) is Some
    ||| j.member("@timestamp"@) is Some
}

/// `loglens_core::time::extract_and_parse_timestamp`: the moment depends on
/// the entry alone, and an entry without any of the three keys has none.
#[verifier::external_body]
pub(crate) fn read_entry_moment(v: &serde_json::Value) -> (r: Option<Moment>)
    ensures
        r == entry_moment(held(*v)),
        !has_time_key(held(*v)) ==> r is None,
{
    match loglens_core::time::extract_and_parse_timestamp(v) {
        Some(t) => Some(Moment { secs: t.timestamp(), nanos: t.timestamp_subsec_nanos() }),
        None => None,
    }
}

fn is_lead(c: char) -> (r: bool)
    ensures
        r == !ends_span(c),
{
    let n: u32 = c as u32;
    n >= 0x80 || ('0' <= c && c <= '9') || ('a' <= c && c <= 'z') || ('A' <= c && c <= 'Z') || c
        == '.' || (0x09 <= n && n <= 0x0d) || n == 0x20
}

/// The text before the first character at which no duration goes on.
fn lead_of(s: &str) -> (r: &str)
    ensures
        r@ == lead(s@),
{
    let n: usize = s.unicode_len();
    let mut k: usize = 0;
    assert(s@.take(0) + lead(s@.skip(0)) =~= lead(s@)) by {
        assert(s@.skip(0) =~= s@);
    }
    for c in it: s.chars()
        invariant
            it.seq() == s@,
            n == s@.len(),
            k == it.index(),
            s@.take(k as int) + lead(s@.skip(k as int)) == lead(s@),
    {
        if !is_lead(c) {
            assert(s@.skip(k as int)[0] == c);
            assert(s@.take(k as int) =~= lead(s@));
            return s.substring_char(0, k);
        }
        proof {
            let rest = s@.skip(k as int);
            assert(rest[0] == c);
            assert(rest.skip(1) =~= s@.skip(k + 1));
            assert(s@.take(k + 1) =~= s@.take(k as int) + seq![c]);
            assert(s@.take(k + 1) + lead(s@.skip(k + 1)) =~= s@.take(k as int) + lead(rest));
        }
        k += 1;
    }
    assert(s@.take(k as int) + lead(s@.skip(k as int)) =~= s@);
    s
}

fn few_long_digits(s: &str) -> (r: bool)
    ensures
        r == (long_digits(s@, 0, 0, NumberPart::Zeros) <= MOST_DIGITS),
{
    let cs = chars_of(s);
    let n: usize = cs.len();
    let mut total: usize = 0;
    let mut run: usize = 0;
    let mut part = NumberPart::Zeros;
    for i in 0..n
        invariant
            cs@ == s@,
            n == s@.len(),
            total + run <= i,
            long_digits(s@, 0, 0, NumberPart::Zeros) == total + long_digits(
                s@,
                i as int,
                run as nat,
                part,
            ),
    {
        let c = cs[i];
        if is_unit_letter(c) {
            if begins_long_unit(&cs, i) {
                total = total + run;
            }
            run = 0;
            part = NumberPart::Zeros;
        } else if c == '.' {
            part = NumberPart::Fraction;
        } else if '0' <= c && c <= '9' && part != NumberPart::Fraction && !(c == '0' && part
            == NumberPart::Zeros) {
            run = run + 1;
            part = NumberPart::Digits;
        }
    }
    total <= MOST_DIGITS
}

fn starts_number(s: &str) -> (r: bool)
    ensures
        r == opens_number(s@),
{
    assert(s@.skip(0) =~= s@);
    for c in it: s.chars()
        invariant
            it.seq() == s@,
            opens_number(s@) == opens_number(s@.skip(it.index())),
    {
        let ghost i = it.index();
        assert(s@.skip(i)[0] == c);
        assert(s@.skip(i).skip(1) =~= s@.skip(i + 1));
        if '0' <= c && c <= '9' {
            return true;
        }
        if !is_space(c) {
            return false;
        }
    }
    false
}

fn names_fine_unit(s: &str) -> (r: bool)
    ensures
        r == has_fine_unit(s@),
{
    contains(s, ".") || contains(s, "ms") || contains(s, "us") || contains(s, "ns") || contains(
        s,
        "nanos",
    ) || contains(s, "millis") || contains(s, "\u{b5}")
}

fn is_unit_letter(c: char) -> (r: bool)
    ensures
        r == unit_letter(c),
{
    ('a' <= c && c <= 'z') || ('A' <= c && c <= 'Z') || c == '\u{b5}'
}

fn begins_long_unit(cs: &Vec<char>, i: usize) -> (r: bool)
    requires
        i < cs@.len(),
    ensures
        r == opens_long_unit(cs@, i as int),
{
    let n: usize = cs.len();
    let c = cs[i];
    let first: bool = is_unit_letter(c) && (i == 0 || !is_unit_letter(cs[i - 1]));
    let milli: bool = c == 'm' && n - i > 1 && (cs[i + 1] == 's' || (cs[i + 1] == 'i' && n - i > 2
        && cs[i + 2] == 'l'));
    first && c != 'n' && c != 'u' && c != '\u{b5}' && !milli
}

fn is_countable(s: &str) -> (r: bool)
    ensures
        r == countable(s@),
{
    if !starts_number(s) {
        return true;
    }
    let head = lead_of(s);
    !names_fine_unit(head) || (few_long_digits(head) && head.unicode_len() <= MOST_CHARS)
}

/// Whether a text, if it is a duration, reaches back to a moment that there
/// is.
pub fn is_within_reach(s: &str) -> (r: bool)
    ensures
        r == within_reach(s@),
{
    if !is_countable(s) {
        return false;
    }
    match parse_span(s) {
        Some(n) => n <= LONGEST_SPAN,
        None => true,
    }
}

// ---------------------------------------------------------------------------
// Queries
// ---------------------------------------------------------------------------

/// `query` stands in `raw`, upper and lower case taken as one.
pub open spec fn text_hit(raw: Seq<char>, query: Seq<char>) -> bool {
    has_piece(lower(raw), lower(query))
}

/// Nothing but white space.
pub open spec fn blank(q: Seq<char>) -> bool {
    forall|i: int| 0 <= i < q.len() ==> white_space(#[trigger] q[i])
}

/// A query without an operator: words to look for in the line.
pub open spec fn plain_words(q: Seq<char>) -> bool {
    &&& !has_piece(q, "contains"@)
    &&& !has_piece(q, "between"@)
    &&& !has_piece(q, "exists"@)
    &&& !has_piece(q, "is"@)
    &&& !has_piece(q, "~="@)
    &&& !has_piece(q, "=="@)
    &&& !has_piece(q, "!="@)
    &&& !has_piece(q, ">"@)
    &&& !has_piece(q, "<"@)
}

/// Whether a line answers a query of plain words: a `!` in front asks for the
/// lines without them.
pub open spec fn words_hit(raw: Seq<char>, q: Seq<char>) -> bool {
    if q.len() > 0 && q[0] == '!' {
        !text_hit(raw, q.skip(1))
    } else {
        text_hit(raw, q)
    }
}

/// A text that goes from one condition of a query into the next.
pub open spec fn joins_conditions(s: Seq<char>) -> bool {
    ||| has_piece(s, " and "@)
    ||| has_piece(s, " AND "@)
    ||| has_piece(s, " or "@)
    ||| has_piece(s, " OR "@)
}

/// If a piece of a query is a duration, it reaches back to a moment that there
/// is.
pub open spec fn harmless(s: Seq<char>) -> bool {
    joins_conditions(s) || within_reach(s)
}

/// White space and the quotes around a value.
pub open spec fn wraps_value(c: char) -> bool {
    white_space(c) || c == '"' || c == '\''
}

/// What stands between a field and the end of an operator's name.
pub open spec fn follows_field(c: char) -> bool {
    white_space(c) || c == ')' || c == '!' || c == '~' || c == '<' || c == '>' || c == '='
}

/// `s` without the white space and quotes at its end.
pub open spec fn before_value(s: Seq<char>) -> Seq<char>
    decreases s.len(),
{
    if s.len() > 0 && wraps_value(s.last()) {
        before_value(s.drop_last())
    } else {
        s
    }
}

/// `s` up to the field at its end.
pub open spec fn up_to_field(s: Seq<char>) -> Seq<char>
    decreases s.len(),
{
    if s.len() > 0 && follows_field(s.last()) {
        up_to_field(s.drop_last())
    } else {
        s
    }
}

/// A field may begin after `c`.
pub open spec fn opens_field(c: char) -> bool {
    white_space(c) || c == '(' || c == '&' || c == '|'
}

/// `s` ends in the field `field`.
pub open spec fn ends_in_field(s: Seq<char>, field: Seq<char>) -> bool {
    &&& has_tail(s, field)
    &&& s.len() == field.len() || opens_field(s[s.len() - field.len() - 1])
}

/// `s` ends in one of the time fields.
pub open spec fn ends_in_time_field(s: Seq<char>) -> bool {
    ||| ends_in_field(s, "timestamp"@)
    ||| ends_in_field(s, "ts"@)
    ||| ends_in_field(s, "@timestamp"@)
}

/// `s` ends in a time field and an operator that ends in `op`.
pub open spec fn compares_time(s: Seq<char>, op: Seq<char>) -> bool {
    has_tail(s, op) && ends_in_time_field(up_to_field(s.take(s.len() - op.len())))
}

/// `s` ends in the dots of a range of times, or may.
pub open spec fn ranges_time(s: Seq<char>) -> bool {
    &&& has_tail(s, ".."@)
    &&& exists|k: int| 0 <= k <= s.len() && compares_time(#[trigger] s.take(k), "between"@)
}

/// A time text may begin after `s`: `s` ends in a time field and an operator,
/// or in the dots of a range.
pub open spec fn opens_time(s: Seq<char>) -> bool {
    let t = before_value(s);
    ||| compares_time(t, "contains+"@)
    ||| compares_time(t, "contains-"@)
    ||| compares_time(t, "contains"@)
    ||| compares_time(t, "between"@)
    ||| compares_time(t, "isnot"@)
    ||| compares_time(t, "is"@)
    ||| compares_time(t, "="@)
    ||| compares_time(t, ">"@)
    ||| compares_time(t, "<"@)
    ||| ranges_time(t)
}

/// A time text may end in front of `c`.
pub open spec fn ends_time(c: char) -> bool {
    wraps_value(c) || c == '&' || c == '|' || c == '.'
}

/// The piece of a query from `i` to `j` may be read as a time.
pub open spec fn time_text(q: Seq<char>, i: int, j: int) -> bool {
    &&& 0 <= i < j <= q.len()
    &&& opens_time(q.take(i))
    &&& j == q.len() || ends_time(q[j])
}

/// A text that is read off the clock: `now`, or a duration.
pub open spec fn asks_clock(s: Seq<char>) -> bool {
    lower(s) == "now"@ || span_secs(without_ago(s)) is Some
}

/// A query whose answer does not depend on the clock: wherever it may compare
/// times, it names a fixed one or none.
pub open spec fn settled(q: Seq<char>) -> bool {
    forall|i: int, j: int| #[trigger]
        time_text(q, i, j) ==> joins_conditions(q.subrange(i, j)) || !asks_clock(q.subrange(i, j))
}

/// A query that can be put to any entry: wherever it may compare times, a
/// duration reaches back to a moment that there is.
pub open spec fn answerable(q: Seq<char>) -> bool {
    forall|i: int, j: int| #[trigger] time_text(q, i, j) ==> harmless(q.subrange(i, j))
}

/// The answer to a query, for an entry and its line, where `clock` is what is read
/// off the clock for it, in this order; an error is given by the malformed part of
/// the query.
pub uninterp spec fn evaluated_at(
    j: Json,
    raw: Seq<char>,
    q: Seq<char>,
    clock: Seq<Moment>,
) -> Result<bool, Seq<char>>;

/// The answer to a query where the clock is not asked.
pub open spec fn evaluated(j: Json, raw: Seq<char>, q: Seq<char>) -> Result<bool, Seq<char>> {
    evaluated_at(j, raw, q, Seq::empty())
}

/// An answer, with an error given by the malformed part of the query.
pub open spec fn answer_view(r: Result<bool, QueryError>) -> Result<bool, Seq<char>> {
    match r {
        Ok(b) => Ok(b),
        Err(QueryError::InvalidFormat(q)) => Err(q@),
    }
}

/// The answer `b`.
pub open spec fn answered(b: bool) -> Result<bool, Seq<char>> {
    Ok(b)
}

/// A query can be answered `a` where `clock` is what is read off the clock for it:
/// nothing, unless the entry has a moment that the query may compare with a time
/// relative to the clock. Whatever it is, an empty query accepts every entry, and
/// plain words are looked for in the line.
pub open spec fn answers_as(
    j: Json,
    raw: Seq<char>,
    q: Seq<char>,
    clock: Seq<Moment>,
    a: Result<bool, Seq<char>>,
) -> bool {
    &&& blank(q) ==> a == answered(true)
    &&& !blank(q) && plain_words(q) ==> a == answered(words_hit(raw, q))
    &&& settled(q) || entry_moment(j) is None ==> clock == Seq::<Moment>::empty()
}

/// `clock` can be what is read off the clock where a query is put to an entry.
pub open spec fn possible_clock(
    j: Json,
    raw: Seq<char>,
    q: Seq<char>,
    clock: Seq<Moment>,
) -> bool {
    answers_as(j, raw, q, clock, evaluated_at(j, raw, q, clock))
}

/// `loglens_core::query::evaluate`: the answer depends on the entry, the line, the
/// query and what is read off the clock; see `answers_as`.
///
/// It compares the moment of an entry with a time text through
/// `loglens_core::time::parse_time_string`, and panics with that function; of an
/// entry without a moment it reads no time text. Such a text is a piece of the
/// query within one condition: it stands behind a time field and an operator, or
/// behind the dots of a range, and ends with the condition, at a quote, white
/// space or dots. Through nothing else does it ask the clock.
#[verifier::external_body]
pub(crate) fn evaluate(v: &serde_json::Value, raw: &str, q: &str) -> (r: Result<bool, QueryError>)
    requires
        answerable(q@) || entry_moment(held(*v)) is None,
    ensures
        exists|clock: Seq<Moment>|
            answer_view(r) == #[trigger] evaluated_at(held(*v), raw@, q@, clock) && answers_as(
                held(*v),
                raw@,
                q@,
                clock,
                answer_view(r),
            ),
{
    match loglens_core::query::evaluate(v, raw, q) {
        Ok(b) => Ok(b),
        Err(loglens_core::query::QueryError::InvalidFormat(part)) => {
            Err(QueryError::InvalidFormat(part))
        },
    }
}

fn crosses_conditions(s: &str) -> (r: bool)
    ensures
        r == joins_conditions(s@),
{
    contains(s, " and ") || contains(s, " AND ") || contains(s, " or ") || contains(s, " OR ")
}

fn value_opening(s: &str) -> (r: &str)
    ensures
        r@ == before_value(s@),
{
    let mut k: usize = s.unicode_len();
    assert(s@.take(k as int) =~= s@);
    while k > 0
        invariant
            k <= s@.len(),
            before_value(s@) == before_value(s@.take(k as int)),
        decreases k,
    {
        let c = s.get_char(k - 1);
        assert(s@.take(k as int).last() == c);
        if !(is_space(c) || c == '"' || c == '\'') {
            return s.substring_char(0, k);
        }
        assert(s@.take(k as int).drop_last() =~= s@.take(k - 1));
        k -= 1;
    }
    s.substring_char(0, 0)
}

fn field_opening(s: &str) -> (r: &str)
    ensures
        r@ == up_to_field(s@),
{
    let mut k: usize = s.unicode_len();
    assert(s@.take(k as int) =~= s@);
    while k > 0
        invariant
            k <= s@.len(),
            up_to_field(s@) == up_to_field(s@.take(k as int)),
        decreases k,
    {
        let c = s.get_char(k - 1);
        assert(s@.take(k as int).last() == c);
        if !(is_space(c) || c == ')' || c == '!' || c == '~' || c == '<' || c == '>' || c == '=') {
            return s.substring_char(0, k);
        }
        assert(s@.take(k as int).drop_last() =~= s@.take(k - 1));
        k -= 1;
    }
    s.substring_char(0, 0)
}

fn is_field_at_end(s: &str, field: &str) -> (r: bool)
    ensures
        r == ends_in_field(s@, field@),
{
    if !ends_with(s, field) {
        return false;
    }
    let n: usize = s.unicode_len() - field.unicode_len();
    if n == 0 {
        return true;
    }
    let c = s.get_char(n - 1);
    is_space(c) || c == '(' || c == '&' || c == '|'
}

fn is_time_comparison(s: &str, op: &str) -> (r: bool)
    ensures
        r == compares_time(s@, op@),
{
    if !ends_with(s, op) {
        return false;
    }
    let n: usize = s.unicode_len() - op.unicode_len();
    let t = field_opening(s.substring_char(0, n));
    is_field_at_end(t, "timestamp") || is_field_at_end(t, "ts") || is_field_at_end(t, "@timestamp")
}

fn is_time_range(s: &str) -> (r: bool)
    ensures
        r == ranges_time(s@),
{
    if !ends_with(s, "..") {
        return false;
    }
    let n: usize = s.unicode_len();
    let mut k: usize = 0;
    while k < n
        invariant
            n == s@.len(),
            k <= n,
            has_tail(s@, ".."@),
            forall|i: int| 0 <= i < k ==> !compares_time(#[trigger] s@.take(i), "between"@),
        decreases n - k,
    {
        assert(s@.subrange(0, k as int) =~= s@.take(k as int));
        if is_time_comparison(s.substring_char(0, k), "between") {
            return true;
        }
        k += 1;
    }
    assert(s@.take(n as int) =~= s@);
    is_time_comparison(s, "between")
}

fn may_open_time(s: &str) -> (r: bool)
    ensures
        r == opens_time(s@),
{
    let t = value_opening(s);
    is_time_comparison(t, "contains+") || is_time_comparison(t, "contains-") || is_time_comparison(
        t,
        "contains",
    ) || is_time_comparison(t, "between") || is_time_comparison(t, "isnot") || is_time_comparison(
        t,
        "is",
    ) || is_time_comparison(t, "=") || is_time_comparison(t, ">") || is_time_comparison(t, "<")
        || is_time_range(t)
}

fn may_end_time(c: char) -> (r: bool)
    ensures
        r == ends_time(c),
{
    is_space(c) || c == '"' || c == '\'' || c == '&' || c == '|' || c == '.'
}

fn is_answerable(q: &str) -> (r: bool)
    ensures
        r == answerable(q@),
{
    let n: usize = q.unicode_len();
    let mut i: usize = 0;
    while i < n
        invariant
            n == q@.len(),
            i <= n,
            forall|a: int, b: int|
                a < i && #[trigger] time_text(q@, a, b) ==> harmless(q@.subrange(a, b)),
        decreases n - i,
    {
        if may_open_time(q.substring_char(0, i)) {
            let mut j: usize = i;
            while j < n
                invariant
                    n == q@.len(),
                    i <= j <= n,
                    i < n,
                    opens_time(q@.take(i as int)),
                    forall|b: int|
                        b <= j && #[trigger] time_text(q@, i as int, b) ==> harmless(
                            q@.subrange(i as int, b),
                        ),
                decreases n - j,
            {
                j += 1;
                if j == n || may_end_time(q.get_char(j)) {
                    assert(time_text(q@, i as int, j as int));
                    let piece = q.substring_char(i, j);
                    if !crosses_conditions(piece) && !is_within_reach(piece) {
                        return false;
                    }
                }
            }
        }
        i += 1;
    }
    true
}

/// A query.
pub struct Query {
    text: String,
    answerable: bool,
}

impl Query {
    /// The query as it was given.
    pub closed spec fn view(&self) -> Seq<char> {
        self.text@
    }

    #[verifier::type_invariant]
    spec fn inv(self) -> bool {
        self.answerable == answerable(self.text@)
    }

    /// Takes a query.
    pub fn new(text: &str) -> (r: Query)
        ensures
            r@ == text@,
    {
        Query { text: String::from_str(text), answerable: is_answerable(text) }
    }

    /// The text of the query.
    pub fn text(&self) -> (r: &str)
        ensures
            r@ == self@,
    {
        self.text.as_str()
    }

    /// Whether the query can be put to any entry.
    pub fn is_answerable(&self) -> (r: bool)
        ensures
            r == answerable(self@),
    {
        proof {
            use_type_invariant(self);
        }
        self.answerable
    }
}

/// A text that says since when entries are wanted. One that names no time at
/// all wants every entry.
pub struct Since {
    text: String,
    readable: bool,
}

/// A text that can be read as a time: it is no duration that reaches back beyond
/// every moment.
pub open spec fn readable(s: Seq<char>) -> bool {
    within_reach(without_ago(s))
}

impl Since {
    /// The text as it was given.
    pub closed spec fn view(&self) -> Seq<char> {
        self.text@
    }

    #[verifier::type_invariant]
    spec fn inv(self) -> bool {
        self.readable == readable(self.text@)
    }

    /// Takes a text.
    pub fn new(text: &str) -> (r: Since)
        ensures
            r@ == text@,
    {
        proof {
            reveal_strlit(" ago");
        }
        let fits = if ends_with(text, " ago") {
            let n: usize = text.unicode_len();
            is_within_reach(text.substring_char(0, n - 4))
        } else {
            is_within_reach(text)
        };
        Since { text: String::from_str(text), readable: fits }
    }

    /// Whether the text can be read as a time.
    pub fn is_readable(&self) -> (r: bool)
        ensures
            r == readable(self@),
    {
        proof {
            use_type_invariant(self);
        }
        self.readable
    }

    /// The moment from which entries are wanted, read off the clock where the
    /// text is relative to it.
    pub fn start(&self) -> (r: Option<Moment>)
        requires
            readable(self@),
        ensures
            time_reading(self@, r),
    {
        read_time(self.text.as_str())
    }
}

/// The text of an optional time filter.
pub open spec fn since_view(since: Option<Since>) -> Option<Seq<char>> {
    match since {
        Some(s) => Some(s@),
        None => None,
    }
}

// ---------------------------------------------------------------------------
// Judging a line
// ---------------------------------------------------------------------------

/// Whether a line is accepted, and what was wrong with the query if it could
/// not be answered.
pub struct Judgement {
    pub accepted: bool,
    pub failure: Option<QueryError>,
}

/// The message of an optional error.
pub open spec fn failure_view(failure: Option<QueryError>) -> Option<Seq<char>> {
    match failure {
        Some(e) => Some(e.shown()),
        None => None,
    }
}

/// An entry is recent enough: only an entry logged before a known start is
/// not.
pub open spec fn since_holds(start: Option<Moment>, at: Option<Moment>) -> bool {
    match (start, at) {
        (Some(start), Some(at)) => at.not_before(start),
        _ => true,
    }
}

/// Judges an entry by the answer to the query, the moment from which entries
/// are wanted and the moment of the entry.
pub fn weigh(
    answer: Result<bool, QueryError>,
    start: Option<Moment>,
    at: Option<Moment>,
) -> (r: Judgement)
    ensures
        r.accepted == (answer == Ok::<bool, QueryError>(true) && since_holds(start, at)),
        r.failure == (match answer {
            Ok(_) => None::<QueryError>,
            Err(e) => Some(e),
        }),
{
    let recent = match (start, at) {
        (Some(start), Some(at)) => at.is_not_before(start),
        _ => true,
    };
    match answer {
        Ok(m) => Judgement { accepted: m && recent, failure: None },
        Err(e) => Judgement { accepted: false, failure: Some(e) },
    }
}

/// The message for the malformed part of a query.
pub open spec fn shown_part(part: Seq<char>) -> Seq<char> {
    "Invalid query format: '"@ + part + "'"@
}

/// Whether a line is accepted, given the answer to the query and the moment that
/// the time filter starts at.
pub open spec fn accepts(
    parsed: Option<Json>,
    raw: Seq<char>,
    q: Seq<char>,
    answer: Result<bool, Seq<char>>,
    start: Option<Moment>,
) -> bool {
    match parsed {
        Some(j) => answer == answered(true) && since_holds(start, entry_moment(j)),
        None => text_hit(raw, q),
    }
}

/// What is said of a query, given the answer to it.
pub open spec fn complaint(
    parsed: Option<Json>,
    answer: Result<bool, Seq<char>>,
) -> Option<Seq<char>> {
    match (parsed, answer) {
        (Some(_), Err(part)) => Some(shown_part(part)),
        _ => None,
    }
}

/// What is read off the clock to judge a line: by the query, and by the time filter.
#[verifier::ext_equal]
pub struct Reading {
    pub clock: Seq<Moment>,
    pub now: Option<Moment>,
}

/// Nothing is read off the clock.
pub open spec fn nothing_read() -> Reading {
    Reading { clock: Seq::empty(), now: None }
}

/// `reading` can be what is read off the clock to judge a line.
pub open spec fn possible_reading(
    raw: Seq<char>,
    parsed: Option<Json>,
    q: Seq<char>,
    since: Option<Seq<char>>,
    reading: Reading,
) -> bool {
    match parsed {
        None => reading == nothing_read(),
        Some(j) => {
            &&& possible_clock(j, raw, q, reading.clock)
            &&& match since {
                Some(s) => possible_now(s, reading.now),
                None => reading.now is None,
            }
        },
    }
}

/// The answer to the query at a reading; none is needed for plain text.
pub open spec fn answer_at(
    parsed: Option<Json>,
    raw: Seq<char>,
    q: Seq<char>,
    reading: Reading,
) -> Result<bool, Seq<char>> {
    match parsed {
        Some(j) => evaluated_at(j, raw, q, reading.clock),
        None => answered(false),
    }
}

/// The moment that a time filter starts at, at a reading.
pub open spec fn start_at(since: Option<Seq<char>>, now: Option<Moment>) -> Option<Moment> {
    match since {
        Some(s) => time_at(s, now),
        None => None,
    }
}

/// Whether a line is accepted at a reading.
pub open spec fn accepted_at(
    raw: Seq<char>,
    parsed: Option<Json>,
    q: Seq<char>,
    since: Option<Seq<char>>,
    reading: Reading,
) -> bool {
    accepts(parsed, raw, q, answer_at(parsed, raw, q, reading), start_at(since, reading.now))
}

/// What is said of the query at a reading.
pub open spec fn failure_at(
    raw: Seq<char>,
    parsed: Option<Json>,
    q: Seq<char>,
    reading: Reading,
) -> Option<Seq<char>> {
    complaint(parsed, answer_at(parsed, raw, q, reading))
}

/// What can come of judging a line. Plain text is searched for the query; a
/// structured entry is put to the query and held against the time filter, both as
/// the clock stands.
pub open spec fn possible_judgement(
    raw: Seq<char>,
    parsed: Option<Json>,
    q: Seq<char>,
    since: Option<Seq<char>>,
    accepted: bool,
    failure: Option<Seq<char>>,
) -> bool {
    exists|reading: Reading|
        {
            &&& #[trigger] possible_reading(raw, parsed, q, since, reading)
            &&& accepted == accepted_at(raw, parsed, q, since, reading)
            &&& failure == failure_at(raw, parsed, q, reading)
        }
}

/// A line can be judged: a structured entry by a query and a time filter that
/// reach back to moments that there are, as far as they are read for it.
pub open spec fn judgeable(
    parsed: Option<Json>,
    q: Seq<char>,
    since: Option<Seq<char>>,
) -> bool {
    match parsed {
        None => true,
        Some(j) => {
            &&& answerable(q) || entry_moment(j) is None
            &&& since matches Some(s) ==> readable(s)
        },
    }
}

/// Judges a line, if it can be judged: puts a structured entry to the query and
/// holds it against the time filter, and searches plain text for the query.
pub fn judge_line(
    raw: &str,
    parsed: &Option<serde_json::Value>,
    query: &Query,
    since: &Option<Since>,
) -> (r: Option<Judgement>)
    ensures
        r is Some <==> judgeable(held_opt(*parsed), query@, since_view(*since)),
        r matches Some(g) ==> possible_judgement(
            raw@,
            held_opt(*parsed),
            query@,
            since_view(*since),
            g.accepted,
            failure_view(g.failure),
        ),
        (r matches Some(g) && held_opt(*parsed) matches Some(j) && !has_time_key(j))
            ==> possible_judgement(
            raw@,
            held_opt(*parsed),
            query@,
            None,
            r->0.accepted,
            failure_view(r->0.failure),
        ),
{
    match parsed {
        Some(v) => {
            let at = read_entry_moment(v);
            if !query.is_answerable() && at.is_some() {
                return None;
            }
            let start = match since {
                Some(s) => {
                    if !s.is_readable() {
                        return None;
                    }
                    s.start()
                },
                None => None,
            };
            let answer = evaluate(v, raw, query.text.as_str());
            let ghost a = answer_view(answer);
            let r = weigh(answer, start, at);
            proof {
                let j = held(*v);
                let clock = choose|clock: Seq<Moment>|
                    possible_clock(j, raw@, query@, clock) && a == #[trigger] evaluated_at(
                        j,
                        raw@,
                        query@,
                        clock,
                    );
                let now = match since_view(*since) {
                    Some(s) => choose|now: Option<Moment>|
                        possible_now(s, now) && start == #[trigger] time_at(s, now),
                    None => None,
                };
                let reading = Reading { clock, now };
                assert(possible_reading(raw@, Some(j), query@, since_view(*since), reading));
                if !has_time_key(j) {
                    let unfiltered = Reading { clock, now: None };
                    assert(possible_reading(raw@, Some(j), query@, None, unfiltered));
                }
            }
            Some(r)
        },
        None => {
            let needle = to_lower(query.text.as_str());
            assert(possible_reading(raw@, None, query@, since_view(*since), nothing_read()));
            Some(
                Judgement {
                    accepted: contains(to_lower(raw).as_str(), needle.as_str()),
                    failure: None,
                },
            )
        },
    }
}

// ---------------------------------------------------------------------------
// Laws
// ---------------------------------------------------------------------------

/// Words without an operator and without a `!` in front are looked for in a
/// structured entry's line just as in plain text: parsing makes no difference.
pub proof fn plain_words_ignore_structure(
    raw: Seq<char>,
    parsed: Option<Json>,
    q: Seq<char>,
    accepted: bool,
    failure: Option<Seq<char>>,
)
    requires
        !blank(q),
        plain_words(q),
        q[0] != '!',
        possible_judgement(raw, parsed, q, None, accepted, failure),
    ensures
        accepted == text_hit(raw, q),
        failure is None,
{
}

/// A structured entry is accepted by an empty query whatever it holds.
pub proof fn empty_query_accepts_entries(
    raw: Seq<char>,
    j: Json,
    q: Seq<char>,
    accepted: bool,
    failure: Option<Seq<char>>,
)
    requires
        blank(q),
        possible_judgement(raw, Some(j), q, None, accepted, failure),
    ensures
        accepted,
        failure is None,
{
}

/// An entry whose moment is not known passes every time filter: it is judged
/// as it is without one.
pub proof fn unknown_moment_passes(
    raw: Seq<char>,
    j: Json,
    q: Seq<char>,
    since: Option<Seq<char>>,
    accepted: bool,
    failure: Option<Seq<char>>,
)
    requires
        entry_moment(j) is None,
        possible_judgement(raw, Some(j), q, since, accepted, failure),
    ensures
        possible_judgement(raw, Some(j), q, None, accepted, failure),
{
    let reading = choose|reading: Reading|
        {
            &&& #[trigger] possible_reading(raw, Some(j), q, since, reading)
            &&& accepted == accepted_at(raw, Some(j), q, since, reading)
            &&& failure == failure_at(raw, Some(j), q, reading)
        };
    let unfiltered = Reading { clock: reading.clock, now: None };
    assert(possible_reading(raw, Some(j), q, None, unfiltered));
}

/// A time filter that names no time, neither a duration nor a timestamp,
/// leaves every judgement as it is without one.
pub proof fn unreadable_filter_passes(
    raw: Seq<char>,
    j: Json,
    q: Seq<char>,
    since: Seq<char>,
    accepted: bool,
    failure: Option<Seq<char>>,
)
    requires
        !asks_clock(since),
        fixed_moment(since) is None,
        possible_judgement(raw, Some(j), q, Some(since), accepted, failure),
    ensures
        possible_judgement(raw, Some(j), q, None, accepted, failure),
{
    let reading = choose|reading: Reading|
        {
            &&& #[trigger] possible_reading(raw, Some(j), q, Some(since), reading)
            &&& accepted == accepted_at(raw, Some(j), q, Some(since), reading)
            &&& failure == failure_at(raw, Some(j), q, reading)
        };
    assert(possible_reading(raw, Some(j), q, None, reading));
}

/// A time filter only ever takes lines away: what it accepts is accepted
/// without it.
pub proof fn filter_only_removes(
    raw: Seq<char>,
    parsed: Option<Json>,
    q: Seq<char>,
    since: Option<Seq<char>>,
    failure: Option<Seq<char>>,
)
    requires
        possible_judgement(raw, parsed, q, since, true, failure),
    ensures
        possible_judgement(raw, parsed, q, None, true, failure),
{
    let reading = choose|reading: Reading|
        {
            &&& #[trigger] possible_reading(raw, parsed, q, since, reading)
            &&& accepted_at(raw, parsed, q, since, reading)
            &&& failure == failure_at(raw, parsed, q, reading)
        };
    let unfiltered = Reading { clock: reading.clock, now: None };
    assert(possible_reading(raw, parsed, q, None, unfiltered));
}

/// A time filter that does not ask the clock.
pub open spec fn settled_since(since: Option<Seq<char>>) -> bool {
    since matches Some(s) ==> !asks_clock(s)
}

/// Where neither the query nor the time filter asks the clock, nothing is read off
/// it.
pub proof fn settled_reads_nothing(
    raw: Seq<char>,
    parsed: Option<Json>,
    q: Seq<char>,
    since: Option<Seq<char>>,
    reading: Reading,
)
    requires
        settled(q),
        settled_since(since),
        possible_reading(raw, parsed, q, since, reading),
    ensures
        reading == nothing_read(),
{
    assert(reading =~= nothing_read());
}

/// Where neither the query nor the time filter asks the clock, the judgement of a
/// line is settled: plain text is searched, and an entry is accepted exactly when
/// the query's answer is yes and the entry was not logged before the start.
pub proof fn judgement_is_settled(
    raw: Seq<char>,
    parsed: Option<Json>,
    q: Seq<char>,
    since: Option<Seq<char>>,
    accepted: bool,
    failure: Option<Seq<char>>,
)
    requires
        settled(q),
        settled_since(since),
        possible_judgement(raw, parsed, q, since, accepted, failure),
    ensures
        accepted == accepted_at(raw, parsed, q, since, nothing_read()),
        failure == failure_at(raw, parsed, q, nothing_read()),
{
    let reading = choose|reading: Reading|
        {
            &&& #[trigger] possible_reading(raw, parsed, q, since, reading)
            &&& accepted == accepted_at(raw, parsed, q, since, reading)
            &&& failure == failure_at(raw, parsed, q, reading)
        };
    settled_reads_nothing(raw, parsed, q, since, reading);
}

/// A duration is read as a moment that far back: of two durations read at one time,
/// the one that is longer by more than a second gives the earlier moment.
pub proof fn longer_spans_reach_further_back(
    a: Seq<char>,
    b: Seq<char>,
    now: Option<Moment>,
)
    requires
        possible_now(a, now),
        possible_now(b, now),
        lower(a) != "now"@,
        lower(b) != "now"@,
        span_secs(without_ago(a)) is Some,
        span_secs(without_ago(b)) is Some,
        span_secs(without_ago(a))->0 + 1 < span_secs(without_ago(b))->0,
    ensures
        time_at(b, now)->0.secs < time_at(a, now)->0.secs,
{
}

proof fn trimming_shortens(s: Seq<char>)
    ensures
        before_value(s).len() <= s.len(),
        before_value(s) == s.take(before_value(s).len() as int),
        up_to_field(s).len() <= s.len(),
        up_to_field(s) == s.take(up_to_field(s).len() as int),
    decreases s.len(),
{
    assert(s.take(s.len() as int) =~= s);
    if s.len() > 0 {
        let t = s.drop_last();
        trimming_shortens(t);
        assert(t.take(before_value(t).len() as int) =~= s.take(before_value(t).len() as int));
        assert(t.take(up_to_field(t).len() as int) =~= s.take(up_to_field(t).len() as int));
    }
}

proof fn piece_of_beginning(s: Seq<char>, n: int, piece: Seq<char>)
    requires
        0 <= n <= s.len(),
        has_piece(s.take(n), piece),
    ensures
        has_piece(s, piece),
{
    let i = choose|i: int| piece_at(s.take(n), piece, i);
    assert(s.take(n).subrange(i, i + piece.len()) =~= s.subrange(i, i + piece.len()));
    assert(piece_at(s, piece, i));
}

/// A query that holds neither `ts` nor `timestamp` is settled and can be put to
/// any entry.
pub proof fn query_without_time_fields_is_settled(q: Seq<char>)
    requires
        !has_piece(q, "ts"@),
        !has_piece(q, "timestamp"@),
    ensures
        settled(q),
        answerable(q),
{
    assert forall|i: int, j: int| !#[trigger] time_text(q, i, j) by {
        if time_text(q, i, j) {
            let s = q.take(i);
            let t = before_value(s);
            trimming_shortens(s);
            let n = t.len() as int;
            assert(t =~= q.take(n));
            no_comparison(q, n, "contains+"@);
            no_comparison(q, n, "contains-"@);
            no_comparison(q, n, "contains"@);
            no_comparison(q, n, "between"@);
            no_comparison(q, n, "isnot"@);
            no_comparison(q, n, "is"@);
            no_comparison(q, n, "="@);
            no_comparison(q, n, ">"@);
            no_comparison(q, n, "<"@);
            assert(ranges_time(t));
            let k = choose|k: int|
                0 <= k <= t.len() && compares_time(#[trigger] t.take(k), "between"@);
            assert(t.take(k) =~= q.take(k));
            no_comparison(q, k, "between"@);
        }
    }
}

proof fn no_comparison(q: Seq<char>, n: int, op: Seq<char>)
    requires
        !has_piece(q, "ts"@),
        !has_piece(q, "timestamp"@),
        0 <= n <= q.len(),
    ensures
        !compares_time(q.take(n), op),
{
    let t = q.take(n);
    if compares_time(t, op) {
        let s = t.take(t.len() - op.len());
        let f = up_to_field(s);
        trimming_shortens(s);
        let m = f.len() as int;
        assert(f =~= q.take(m));
        if has_tail(f, "ts"@) {
            piece_of_beginning(q, m, "ts"@);
        } else if has_tail(f, "timestamp"@) {
            piece_of_beginning(q, m, "timestamp"@);
        } else {
            reveal_strlit("@timestamp");
            reveal_strlit("timestamp");
            let a = m - 10;
            assert(f.subrange(a, a + 10) =~= "@timestamp"@);
            assert(f.subrange(m - 9, m) =~= "@timestamp"@.subrange(1, 10));
            assert("@timestamp"@.subrange(1, 10) =~= "timestamp"@);
            assert(has_tail(f, "timestamp"@));
        }
    }
}

} // verus!
