//! What holds of moments, time filters and judgements.

use crate::json::{held_opt, Json};
use crate::query::{
    accepted_at, answerable, asks_clock, before_value, blank, compares_time, countable, ends_in_field,
    ends_in_time_field, ends_span, entry_moment, evaluated_at, failure_at, failure_view, follows_field,
    harmless, is_within_reach, joins_conditions, judge_line, judgeable, lead, long_digits, opens_field,
    opens_long_unit, opens_time, possible_now, possible_reading, ranges_time, readable, since_holds, since_view, span_secs, text_hit,
    time_at, time_text, unit_letter, up_to_field, weigh, within_reach, without_ago, words_hit, wraps_value, Judgement,
    Moment, NumberPart, Query, QueryError, Reading, Since,
};
use crate::text::{has_piece, has_tail, lower, piece_at, white_space};
use crate::text_laws::{around, pieces_are_within, pieces_stay, tails_are_ends};
use vstd::prelude::*;

verus! {

// ---------------------------------------------------------------------------
// Moments
// ---------------------------------------------------------------------------

/// The nanoseconds from the Unix epoch to a moment.
pub open spec fn nanos_of(m: Moment) -> int {
    m.secs * 1_000_000_000 + m.nanos
}

/// The nanoseconds of a moment are a part of a second.
pub open spec fn proper(m: Moment) -> bool {
    m.nanos < 1_000_000_000
}

/// Moments are compared by time: one is not before another exactly when as many
/// nanoseconds or more lie between the epoch and it.
pub proof fn moments_are_ordered_by_time(a: Moment, b: Moment, r: bool)
    requires
        proper(a),
        proper(b),
        call_ensures(Moment::is_not_before, (a, b), r),
    ensures
        r <==> nanos_of(a) >= nanos_of(b),
        a.not_before(b) <==> nanos_of(a) >= nanos_of(b),
{
}

/// The order of moments: of two moments one is not before the other, both ways only
/// if they are the same, and a moment that is not before one that is not before a
/// third is not before the third.
pub proof fn moments_are_in_a_total_order(a: Moment, b: Moment, c: Moment)
    ensures
        a.not_before(b) || b.not_before(a),
        a.not_before(b) && b.not_before(a) ==> a == b,
        a.not_before(b) && b.not_before(c) ==> a.not_before(c),
{
}

/// An entry is too old exactly when both its moment and the start are known, and
/// its moment lies before the start.
pub proof fn only_earlier_entries_are_too_old(start: Option<Moment>, at: Option<Moment>)
    requires
        start matches Some(s) ==> proper(s),
        at matches Some(m) ==> proper(m),
    ensures
        !since_holds(start, at) <==> start is Some && at is Some && nanos_of(at->0) < nanos_of(
            start->0,
        ),
{
}

/// A later start lets no more entries pass, and a later entry passes wherever an
/// earlier one does.
pub proof fn later_starts_let_fewer_pass(
    start: Moment,
    later: Moment,
    at: Moment,
    newer: Moment,
)
    requires
        later.not_before(start),
        newer.not_before(at),
    ensures
        since_holds(Some(later), Some(at)) ==> since_holds(Some(start), Some(at)),
        since_holds(Some(start), Some(at)) ==> since_holds(Some(start), Some(newer)),
        since_holds(Some(start), Some(start)),
        since_holds(None, Some(at)),
        since_holds(Some(start), None),
{
}

/// A judgement weighs the answer and the time: an entry is accepted exactly when the
/// answer is yes and the entry is not known to be from before the start, and what was
/// wrong with the query is passed on.
pub proof fn answers_and_times_are_weighed(
    answer: Result<bool, QueryError>,
    start: Option<Moment>,
    at: Option<Moment>,
    r: Judgement,
)
    requires
        start matches Some(s) ==> proper(s),
        at matches Some(m) ==> proper(m),
        call_ensures(weigh, (answer, start, at), r),
    ensures
        r.accepted ==> answer is Ok && answer->Ok_0,
        r.accepted && start is Some && at is Some ==> nanos_of(at->0) >= nanos_of(start->0),
        answer is Ok && answer->Ok_0 && (start is None || at is None || nanos_of(at->0)
            >= nanos_of(start->0)) ==> r.accepted,
        r.failure is Some <==> answer is Err,
        answer is Err ==> r.failure->0 == answer->Err_0,
{
}

// ---------------------------------------------------------------------------
// Judgements
// ---------------------------------------------------------------------------

/// Plain text is accepted exactly when the query is a piece of it, upper and lower
/// case taken as one, whatever the time filter; nothing is said of the query.
pub proof fn plain_text_is_searched(
    raw: Seq<char>,
    q: Seq<char>,
    since: Option<Seq<char>>,
    reading: Reading,
)
    ensures
        accepted_at(raw, None, q, since, reading) <==> exists|front: Seq<char>, back: Seq<char>|
            lower(raw) == #[trigger] around(front, lower(q), back),
        failure_at(raw, None, q, reading) is None,
{
    pieces_are_within(lower(raw), lower(q));
}

/// An entry is accepted exactly when the query's answer for it is yes and it is not
/// known to be from before the start of the time filter.
pub proof fn entries_are_put_to_the_query(
    raw: Seq<char>,
    j: Json,
    q: Seq<char>,
    since: Option<Seq<char>>,
    reading: Reading,
)
    requires
        entry_moment(j) matches Some(m) ==> proper(m),
        since matches Some(s) ==> (time_at(s, reading.now) matches Some(t) ==> proper(t)),
    ensures
        accepted_at(raw, Some(j), q, since, reading) ==> evaluated_at(j, raw, q, reading.clock) is Ok
            && evaluated_at(j, raw, q, reading.clock)->Ok_0,
        accepted_at(raw, Some(j), q, since, reading) && since is Some && time_at(
            since->0,
            reading.now,
        ) is Some && entry_moment(j) is Some ==> nanos_of(entry_moment(j)->0) >= nanos_of(
            time_at(since->0, reading.now)->0,
        ),
        evaluated_at(j, raw, q, reading.clock) is Ok && evaluated_at(
            j,
            raw,
            q,
            reading.clock,
        )->Ok_0 && (since is None || time_at(since->0, reading.now) is None || entry_moment(
            j,
        ) is None || nanos_of(entry_moment(j)->0) >= nanos_of(
            time_at(since->0, reading.now)->0,
        )) ==> accepted_at(raw, Some(j), q, since, reading),
{
}

/// What is said of a query names the malformed part, and is said exactly when the
/// query has no answer.
pub proof fn malformed_queries_are_named(raw: Seq<char>, j: Json, q: Seq<char>, reading: Reading)
    ensures
        failure_at(raw, Some(j), q, reading) is Some <==> evaluated_at(
            j,
            raw,
            q,
            reading.clock,
        ) is Err,
        evaluated_at(j, raw, q, reading.clock) is Err ==> failure_at(raw, Some(j), q, reading)->0
            == around("Invalid query format: '"@, evaluated_at(j, raw, q, reading.clock)->Err_0, "'"@),
{
}

/// The message of an error names the malformed part.
pub proof fn messages_name_the_part(e: QueryError, r: String)
    requires
        call_ensures(QueryError::message, (&e,), r),
    ensures
        e matches QueryError::InvalidFormat(part) ==> r@ == around(
            "Invalid query format: '"@,
            part@,
            "'"@,
        ),
{
}

/// Words are found in a line however much stands around them, and a `!` in front of
/// words that do not begin with one turns the answer round.
pub proof fn words_are_found_or_not(raw: Seq<char>, words: Seq<char>)
    requires
        words.len() > 0,
        words[0] != '!',
    ensures
        words_hit(raw, words) <==> has_piece(lower(raw), lower(words)),
        words_hit(raw, seq!['!'] + words) <==> !words_hit(raw, words),
        text_hit(words, words),
{
    let negated = seq!['!'] + words;
    assert(negated.skip(1) =~= words);
    pieces_stay(lower(words), lower(words), Seq::empty(), Seq::empty());
}

/// A query is blank exactly when both its parts are, wherever it is cut.
pub proof fn blanks_are_all_space(a: Seq<char>, b: Seq<char>)
    ensures
        blank(a + b) <==> blank(a) && blank(b),
        a.len() == 0 ==> blank(a),
        a.len() == 1 ==> (blank(a) <==> white_space(a[0])),
{
    if blank(a + b) {
        assert forall|i: int| 0 <= i < a.len() implies white_space(#[trigger] a[i]) by {
            assert(white_space((a + b)[i]));
        }
        assert forall|i: int| 0 <= i < b.len() implies white_space(#[trigger] b[i]) by {
            assert(white_space((a + b)[a.len() + i]));
        }
    }
}

/// What is judged of a line: plain text is always judged, and accepted exactly when
/// the query stands in it; an entry is judged as it is put to the query and held
/// against the time filter at some reading of the clock, and is left unjudged only
/// where a duration in them may reach back too far.
pub proof fn lines_are_judged_so(
    raw: &str,
    parsed: &Option<serde_json::Value>,
    query: &Query,
    since: &Option<Since>,
    r: Option<Judgement>,
)
    requires
        call_ensures(judge_line, (raw, parsed, query, since), r),
    ensures
        *parsed is None ==> {
            &&& r is Some
            &&& r->0.failure is None
            &&& r->0.accepted <==> exists|front: Seq<char>, back: Seq<char>|
                lower(raw@) == #[trigger] around(front, lower(query@), back)
        },
        held_opt(*parsed) matches Some(j) ==> {
            &&& r is None <==> !answerable(query@) && entry_moment(j) is Some || (since_view(
                *since,
            ) is Some && !readable(since_view(*since)->0))
            &&& r is Some ==> exists|reading: Reading|
                {
                    &&& #[trigger] possible_reading(
                        raw@,
                        Some(j),
                        query@,
                        since_view(*since),
                        reading,
                    )
                    &&& r->0.accepted ==> evaluated_at(j, raw@, query@, reading.clock) is Ok
                        && evaluated_at(j, raw@, query@, reading.clock)->Ok_0
                    &&& r->0.failure is Some <==> evaluated_at(
                        j,
                        raw@,
                        query@,
                        reading.clock,
                    ) is Err
                    &&& since_view(*since) is None || entry_moment(j) is None ==> (r->0.accepted
                        <==> evaluated_at(j, raw@, query@, reading.clock) is Ok && evaluated_at(
                        j,
                        raw@,
                        query@,
                        reading.clock,
                    )->Ok_0)
                    &&& since_view(*since) is Some && r->0.accepted ==> since_holds(
                        time_at(since_view(*since)->0, reading.now),
                        entry_moment(j),
                    )
                }
        },
{
    pieces_are_within(lower(raw@), lower(query@));
    if let Some(j) = held_opt(*parsed) {
        if let Some(g) = r {
            let reading = choose|reading: Reading|
                {
                    &&& #[trigger] possible_reading(
                        raw@,
                        Some(j),
                        query@,
                        since_view(*since),
                        reading,
                    )
                    &&& g.accepted == accepted_at(
                        raw@,
                        Some(j),
                        query@,
                        since_view(*since),
                        reading,
                    )
                    &&& failure_view(g.failure) == failure_at(raw@, Some(j), query@, reading)
                };
            assert(possible_reading(raw@, Some(j), query@, since_view(*since), reading));
        }
    }
}

// ---------------------------------------------------------------------------
// Time texts
// ---------------------------------------------------------------------------

/// ` ago` behind a text makes no difference, and a text without it is left alone.
pub proof fn ago_makes_no_difference(s: Seq<char>)
    ensures
        without_ago(s + " ago"@) == s,
        (forall|front: Seq<char>| s != #[trigger] (front + " ago"@)) ==> without_ago(s) == s,
        readable(s + " ago"@) <==> within_reach(s),
{
    reveal_strlit(" ago");
    let t = s + " ago"@;
    tails_are_ends(t, " ago"@);
    tails_are_ends(s, " ago"@);
    assert(has_tail(t, " ago"@));
    assert(t.take(t.len() - 4) =~= s);
}

proof fn few_characters_have_few_digits(s: Seq<char>, i: int, run: nat, part: NumberPart)
    requires
        0 <= i <= s.len(),
    ensures
        long_digits(s, i, run, part) <= run + s.len() - i,
    decreases s.len() - i,
{
    if i < s.len() {
        few_characters_have_few_digits(s, i + 1, 0, NumberPart::Zeros);
        few_characters_have_few_digits(s, i + 1, run, NumberPart::Fraction);
        few_characters_have_few_digits(s, i + 1, run + 1, NumberPart::Digits);
        few_characters_have_few_digits(s, i + 1, run, part);
    }
}

proof fn lead_is_shorter(s: Seq<char>)
    ensures
        lead(s).len() <= s.len(),
    decreases s.len(),
{
    if s.len() > 0 {
        lead_is_shorter(s.skip(1));
    }
}

/// A short text can be read as a time unless it is a duration of more than two
/// hundred and sixty thousand years; so can one that does not begin in a digit and
/// is no duration.
pub proof fn short_times_are_readable(s: Seq<char>)
    requires
        s.len() <= 11 || (s.len() > 0 && !('0' <= s[0] <= '9') && !white_space(s[0])),
        span_secs(s) matches Some(n) ==> n <= 8_204_976_000_000,
    ensures
        countable(s),
        within_reach(s),
{
    lead_is_shorter(s);
    few_characters_have_few_digits(lead(s), 0, 0, NumberPart::Zeros);
}

/// What is said of a duration: a short one reaches back far enough exactly when it is
/// no longer than there are moments before the Unix epoch.
pub proof fn short_spans_are_measured(s: &str, r: bool)
    requires
        s@.len() <= 11,
        call_ensures(is_within_reach, (s,), r),
    ensures
        span_secs(s@) is None ==> r,
        span_secs(s@) matches Some(n) ==> (r <==> n <= 8_334_601_228_799),
{
    lead_is_shorter(s@);
    few_characters_have_few_digits(lead(s@), 0, 0, NumberPart::Zeros);
}

/// The digits of a text from `i` on.
pub open spec fn digits_from(s: Seq<char>, i: int) -> nat
    decreases s.len() - i,
{
    if i < 0 || i >= s.len() {
        0
    } else {
        digits_from(s, i + 1) + if '0' <= s[i] <= '9' { 1nat } else { 0 }
    }
}

proof fn no_more_than_the_digits(s: Seq<char>, i: int, run: nat, part: NumberPart)
    requires
        0 <= i <= s.len(),
    ensures
        long_digits(s, i, run, part) <= run + digits_from(s, i),
    decreases s.len() - i,
{
    if i < s.len() {
        no_more_than_the_digits(s, i + 1, 0, NumberPart::Zeros);
        no_more_than_the_digits(s, i + 1, run, NumberPart::Fraction);
        no_more_than_the_digits(s, i + 1, run + 1, NumberPart::Digits);
        no_more_than_the_digits(s, i + 1, run, part);
    }
}

proof fn beginnings_have_fewer_digits(s: Seq<char>, n: int, i: int)
    requires
        0 <= i,
        0 <= n <= s.len(),
    ensures
        digits_from(s.take(n), i) <= digits_from(s, i),
    decreases s.len() - i,
{
    if i < s.len() {
        beginnings_have_fewer_digits(s, n, i + 1);
    }
}

/// A text with at most eleven digits, and not of a hundred million characters, can be
/// counted; it can be read as a time unless it is a duration longer than there are
/// moments before the Unix epoch, with or without ` ago` behind it.
pub proof fn few_digits_are_countable(s: Seq<char>)
    requires
        s.len() <= 100_000_000,
        digits_from(s, 0) <= 11,
    ensures
        countable(s),
        within_reach(s) <==> span_secs(s) is None || span_secs(s)->0 <= 8_334_601_228_799,
        readable(s + " ago"@) <==> span_secs(s) is None || span_secs(s)->0 <= 8_334_601_228_799,
{
    let l = lead(s);
    lead_is_a_beginning(s);
    beginnings_have_fewer_digits(s, l.len() as int, 0);
    no_more_than_the_digits(l, 0, 0, NumberPart::Zeros);
    ago_makes_no_difference(s);
}

/// A text that can be counted and does not end in ` ago` can be read as a time exactly
/// when it is no duration, or one that is no longer than there are moments before the
/// Unix epoch.
pub proof fn countable_texts_are_readable(s: Seq<char>)
    requires
        countable(s),
        !has_tail(s, " ago"@),
    ensures
        readable(s) <==> span_secs(s) is None || span_secs(s)->0 <= 8_334_601_228_799,
{
}

/// Queries and time filters keep their text, and say of it what holds of it.
pub proof fn queries_and_filters_keep_their_text(
    text: &str,
    query: Query,
    since: Since,
    shown: &str,
    answered: bool,
    read: bool,
)
    requires
        call_ensures(Query::new, (text,), query),
        call_ensures(Since::new, (text,), since),
        call_ensures(Query::text, (&query,), shown),
        call_ensures(Query::is_answerable, (&query,), answered),
        call_ensures(Since::is_readable, (&since,), read),
    ensures
        query@ == text@,
        since@ == text@,
        shown@ == text@,
        answered <==> answerable(text@),
        read <==> readable(text@),
{
}

/// A text in which no unit below the second and no fraction can be named is counted,
/// however long it is.
pub proof fn whole_spans_are_countable(s: Seq<char>)
    requires
        !has_piece(s, "."@),
        !has_piece(s, "ms"@),
        !has_piece(s, "us"@),
        !has_piece(s, "ns"@),
        !has_piece(s, "nanos"@),
        !has_piece(s, "millis"@),
        !has_piece(s, "\u{b5}"@),
    ensures
        countable(s),
{
    let l = lead(s);
    lead_is_a_beginning(s);
    let none = Seq::<char>::empty();
    let rest = s.skip(l.len() as int);
    assert(none + l + rest =~= s);
    pieces_stay(l, "."@, none, rest);
    pieces_stay(l, "ms"@, none, rest);
    pieces_stay(l, "us"@, none, rest);
    pieces_stay(l, "ns"@, none, rest);
    pieces_stay(l, "nanos"@, none, rest);
    pieces_stay(l, "millis"@, none, rest);
    pieces_stay(l, "\u{b5}"@, none, rest);
}

proof fn lead_is_a_beginning(s: Seq<char>)
    ensures
        lead(s).len() <= s.len(),
        lead(s) == s.take(lead(s).len() as int),
    decreases s.len(),
{
    if s.len() > 0 && !ends_span(s[0]) {
        let rest = s.skip(1);
        lead_is_a_beginning(rest);
        assert(lead(s) =~= s.take(lead(s).len() as int));
    } else {
        assert(lead(s) =~= s.take(0));
    }
}

/// All characters are decimal digits.
pub open spec fn all_digits(s: Seq<char>) -> bool {
    forall|i: int| 0 <= i < s.len() ==> '0' <= #[trigger] s[i] <= '9'
}

/// All characters are small letters.
pub open spec fn all_letters(s: Seq<char>) -> bool {
    forall|i: int| 0 <= i < s.len() ==> 'a' <= #[trigger] s[i] <= 'z'
}

proof fn nothing_ends_the_span(s: Seq<char>)
    requires
        forall|i: int| 0 <= i < s.len() ==> !ends_span(#[trigger] s[i]),
    ensures
        lead(s) == s,
    decreases s.len(),
{
    if s.len() > 0 {
        let rest = s.skip(1);
        assert forall|i: int| 0 <= i < rest.len() implies !ends_span(#[trigger] rest[i]) by {
            assert(!ends_span(s[i + 1]));
        }
        nothing_ends_the_span(rest);
        assert(!ends_span(s[0]));
        assert(seq![s[0]] + rest =~= s);
    } else {
        assert(lead(s) =~= s);
    }
}

proof fn letters_add_no_digits(s: Seq<char>, i: int)
    requires
        0 < i <= s.len(),
        unit_letter(s[i - 1]),
        forall|k: int| i <= k < s.len() ==> 'a' <= #[trigger] s[k] <= 'z',
    ensures
        long_digits(s, i, 0, NumberPart::Zeros) == 0,
    decreases s.len() - i,
{
    if i < s.len() {
        assert('a' <= s[i] <= 'z');
        letters_add_no_digits(s, i + 1);
    }
}

proof fn short_units_take_no_digits(s: Seq<char>, i: int, k: int, run: nat, part: NumberPart)
    requires
        0 <= i <= k < s.len(),
        forall|m: int| i <= m < k ==> '0' <= #[trigger] s[m] <= '9',
        forall|m: int| k <= m < s.len() ==> 'a' <= #[trigger] s[m] <= 'z',
        !opens_long_unit(s, k),
    ensures
        long_digits(s, i, run, part) == 0,
    decreases k - i,
{
    if i < k {
        assert('0' <= s[i] <= '9');
        short_units_take_no_digits(s, i + 1, k, run + 1, NumberPart::Digits);
        short_units_take_no_digits(s, i + 1, k, run, part);
    } else {
        assert('a' <= s[k] <= 'z');
        letters_add_no_digits(s, k + 1);
    }
}

/// A number of any length in a unit below the second can be counted: one that begins in
/// `n`, in `u` or in `ms`.
pub proof fn spans_below_the_second_are_countable(digits: Seq<char>, unit: Seq<char>)
    requires
        all_digits(digits),
        all_letters(unit),
        unit.len() > 0,
        unit[0] == 'n' || unit[0] == 'u' || (unit.len() > 1 && unit[0] == 'm' && unit[1] == 's'),
        digits.len() + unit.len() <= 100_000_000,
    ensures
        countable(digits + unit),
{
    let s = digits + unit;
    let k = digits.len() as int;
    assert forall|i: int| 0 <= i < s.len() implies !ends_span(#[trigger] s[i]) by {
        if i < k {
            assert(s[i] == digits[i]);
        } else {
            assert(s[i] == unit[i - k]);
        }
    }
    nothing_ends_the_span(s);
    assert forall|m: int| 0 <= m < k implies '0' <= #[trigger] s[m] <= '9' by {
        assert(s[m] == digits[m]);
    }
    assert forall|m: int| k <= m < s.len() implies 'a' <= #[trigger] s[m] <= 'z' by {
        assert(s[m] == unit[m - k]);
    }
    assert(s[k] == unit[0]);
    if unit.len() > 1 {
        assert(s[k + 1] == unit[1]);
    }
    short_units_take_no_digits(s, 0, k, 0, NumberPart::Zeros);
}

proof fn digits_run_on(s: Seq<char>, i: int, k: int, run: nat)
    requires
        0 <= i <= k < s.len(),
        forall|m: int| i <= m < k ==> '0' <= #[trigger] s[m] <= '9',
    ensures
        long_digits(s, i, run, NumberPart::Digits) == long_digits(
            s,
            k,
            (run + k - i) as nat,
            NumberPart::Digits,
        ),
    decreases k - i,
{
    if i < k {
        assert('0' <= s[i] <= '9');
        digits_run_on(s, i + 1, k, run + 1);
    }
}

/// Seconds with milliseconds behind them can be counted exactly when the seconds have no
/// more than eleven digits.
pub proof fn eleven_digits_are_counted(digits: Seq<char>)
    requires
        all_digits(digits),
        digits.len() > 0,
        digits[0] != '0',
    ensures
        countable(digits + "s 1ms"@) <==> digits.len() <= 11,
{
    reveal_strlit("s 1ms");
    reveal_strlit("ms");
    let tail = "s 1ms"@;
    let s = digits + tail;
    let k = digits.len() as int;
    assert forall|i: int| 0 <= i < s.len() implies !ends_span(#[trigger] s[i]) by {
        if i < k {
            assert(s[i] == digits[i]);
        } else {
            assert(s[i] == tail[i - k]);
        }
    }
    nothing_ends_the_span(s);
    assert(s.subrange(k + 3, k + 5) =~= "ms"@);
    assert(piece_at(s, "ms"@, k + 3));
    assert forall|m: int| 0 <= m < k implies '0' <= #[trigger] s[m] <= '9' by {
        assert(s[m] == digits[m]);
    }
    assert(s[0] == digits[0]);
    assert(s[k] == 's' && s[k + 1] == ' ' && s[k + 2] == '1' && s[k + 3] == 'm' && s[k + 4] == 's');
    assert('0' <= digits[0] <= '9');
    assert(long_digits(s, 0, 0, NumberPart::Zeros) == long_digits(s, 1, 1, NumberPart::Digits));
    digits_run_on(s, 1, k, 1);
    assert('0' <= s[k - 1] <= '9');
    assert(long_digits(s, k + 5, 0, NumberPart::Zeros) == 0);
    assert(long_digits(s, k + 4, 0, NumberPart::Zeros) == 0);
    assert(long_digits(s, k + 3, 1, NumberPart::Digits) == 0);
    assert(long_digits(s, k + 2, 0, NumberPart::Zeros) == 0);
    assert(long_digits(s, k + 1, 0, NumberPart::Zeros) == 0);
    assert(long_digits(s, k, k as nat, NumberPart::Digits) == k);
}

/// A text of more than a hundred million characters that may be a duration with
/// milliseconds in it is not counted.
pub proof fn endless_spans_are_not_counted(s: Seq<char>)
    requires
        s.len() > 100_000_000,
        '0' <= s[0] <= '9',
        forall|i: int| 0 <= i < s.len() ==> !ends_span(#[trigger] s[i]),
        has_piece(s, "ms"@),
    ensures
        !countable(s),
{
    nothing_ends_the_span(s);
}

/// A query can be put to any entry where no piece of it is a duration that reaches
/// back too far.
pub proof fn queries_without_long_spans_are_answerable(q: Seq<char>)
    requires
        forall|i: int, j: int|
            0 <= i < j <= q.len() ==> within_reach(#[trigger] q.subrange(i, j)),
    ensures
        answerable(q),
{
    assert forall|i: int, j: int| #[trigger] time_text(q, i, j) implies harmless(
        q.subrange(i, j),
    ) by {
        assert(within_reach(q.subrange(i, j)));
    }
}

/// Nothing but white space and quotes.
pub open spec fn only_wraps(w: Seq<char>) -> bool {
    forall|i: int|
        0 <= i < w.len() ==> white_space(#[trigger] w[i]) || w[i] == '"' || w[i] == '\''
}

proof fn value_wrapping_is_trimmed(s: Seq<char>, w: Seq<char>)
    requires
        only_wraps(w),
    ensures
        before_value(s + w) == before_value(s),
        blank(w) ==> up_to_field(s + w) == up_to_field(s),
    decreases w.len(),
{
    if w.len() == 0 {
        assert(s + w =~= s);
    } else {
        let init = w.drop_last();
        assert((s + w).drop_last() =~= s + init);
        assert((s + w).last() == w[w.len() - 1]);
        assert(only_wraps(init)) by {
            assert forall|i: int| 0 <= i < init.len() implies white_space(#[trigger] init[i])
                || init[i] == '"' || init[i] == '\'' by {
                assert(init[i] == w[i]);
            }
        }
        if blank(w) {
            assert(blank(init)) by {
                assert forall|i: int| 0 <= i < init.len() implies white_space(
                    #[trigger] init[i],
                ) by {
                    assert(white_space(w[i]));
                }
            }
        }
        value_wrapping_is_trimmed(s, init);
    }
}

/// The fields that hold the time of an entry.
pub open spec fn time_fields() -> Set<Seq<char>> {
    set!["timestamp"@, "ts"@, "@timestamp"@]
}

/// The operators that a time can stand behind.
pub open spec fn time_operators() -> Set<Seq<char>> {
    set![
        "contains"@,
        "contains+"@,
        "contains-"@,
        "between"@,
        "is"@,
        "isnot"@,
        "=="@,
        "!="@,
        "~="@,
        ">="@,
        "<="@,
        ">"@,
        "<"@
    ]
}

/// A name, and not a sign.
spec fn named_operator(op: Seq<char>) -> bool {
    op == "contains"@ || op == "contains+"@ || op == "contains-"@ || op == "between"@ || op == "is"@
        || op == "isnot"@
}

proof fn operators_end_so(op: Seq<char>)
    requires
        time_operators().contains(op),
    ensures
        op.len() > 0,
        !wraps_value(op.last()),
        !named_operator(op) ==> op.last() == '=' || op.last() == '>' || op.last() == '<',
        !named_operator(op) ==> op.len() <= 2 && (op.len() == 2 ==> follows_field(op[0])),
{
    reveal_strlit("contains");
    reveal_strlit("contains+");
    reveal_strlit("contains-");
    reveal_strlit("between");
    reveal_strlit("is");
    reveal_strlit("isnot");
    reveal_strlit("==");
    reveal_strlit("!=");
    reveal_strlit("~=");
    reveal_strlit(">=");
    reveal_strlit("<=");
    reveal_strlit(">");
    reveal_strlit("<");
}

proof fn fields_end_so(field: Seq<char>)
    requires
        time_fields().contains(field),
    ensures
        field.len() > 0,
        !follows_field(field.last()),
{
    reveal_strlit("timestamp");
    reveal_strlit("ts");
    reveal_strlit("@timestamp");
}

proof fn field_at_end(pre: Seq<char>, field: Seq<char>)
    requires
        time_fields().contains(field),
        pre.len() == 0 || opens_field(pre.last()),
    ensures
        ends_in_time_field(pre + field),
        up_to_field(pre + field) == pre + field,
{
    let s = pre + field;
    let n = pre.len() as int;
    fields_end_so(field);
    assert(s.subrange(n, n + field.len()) =~= field);
    assert(s.last() == field.last());
    if n > 0 {
        assert(s[n - 1] == pre.last());
    }
    assert(ends_in_field(s, field));
}

/// The condition goes on after a time, or ends there.
pub open spec fn goes_on(rest: Seq<char>) -> bool {
    rest.len() == 0 || white_space(rest[0]) || rest[0] == '"' || rest[0] == '\'' || rest[0] == '&'
        || rest[0] == '|' || rest[0] == '.'
}

/// A time that stands behind a time field and an operator is held to what can be read:
/// a query with a duration there that reaches back too far is put to no entry that
/// has a time.
pub proof fn long_spans_behind_time_fields_are_refused(
    pre: Seq<char>,
    field: Seq<char>,
    gap: Seq<char>,
    op: Seq<char>,
    space: Seq<char>,
    span: Seq<char>,
    rest: Seq<char>,
)
    requires
        pre.len() == 0 || white_space(pre.last()) || pre.last() == '(' || pre.last() == '&'
            || pre.last() == '|',
        time_fields().contains(field),
        blank(gap),
        time_operators().contains(op),
        only_wraps(space),
        span.len() > 0,
        !joins_conditions(span),
        !within_reach(span),
        goes_on(rest),
    ensures
        !answerable(pre + field + gap + op + space + span + rest),
{
    let q = pre + field + gap + op + space + span + rest;
    let f = pre + field;
    let g = f + gap;
    let t = g + op;
    let s = t + space;
    let i = s.len() as int;
    let j = i + span.len();
    operators_end_so(op);
    assert(q.take(i) =~= s);
    assert(q.subrange(i, j) =~= span);
    value_wrapping_is_trimmed(t, space);
    assert(t.last() == op.last());
    assert(before_value(t) == t);
    comparison_opens_time(pre, field, gap, op);
    assert(opens_time(s));
    if rest.len() > 0 {
        assert(q[j] == rest[0]);
    }
    assert(time_text(q, i, j));
    assert(!harmless(q.subrange(i, j)));
}

/// The same holds of the time behind the dots of a range.
pub proof fn long_spans_behind_ranges_are_refused(
    pre: Seq<char>,
    field: Seq<char>,
    gap: Seq<char>,
    from: Seq<char>,
    space: Seq<char>,
    span: Seq<char>,
    rest: Seq<char>,
)
    requires
        pre.len() == 0 || white_space(pre.last()) || pre.last() == '(' || pre.last() == '&'
            || pre.last() == '|',
        time_fields().contains(field),
        blank(gap),
        only_wraps(space),
        span.len() > 0,
        !joins_conditions(span),
        !within_reach(span),
        goes_on(rest),
    ensures
        !answerable(pre + field + gap + "between"@ + from + ".."@ + space + span + rest),
{
    reveal_strlit("..");
    let c = pre + field + gap + "between"@;
    let t = c + from + ".."@;
    let s = t + space;
    let q = s + span + rest;
    let i = s.len() as int;
    let j = i + span.len();
    assert(q =~= pre + field + gap + "between"@ + from + ".."@ + space + span + rest);
    assert(q.take(i) =~= s);
    assert(q.subrange(i, j) =~= span);
    value_wrapping_is_trimmed(t, space);
    assert(t.last() == '.');
    assert(before_value(t) == t);
    comparison_opens_time(pre, field, gap, "between"@);
    let k = c.len() as int;
    assert(t.take(k) =~= c);
    assert(compares_time(t.take(k), "between"@));
    assert(t.subrange(t.len() - 2, t.len() as int) =~= ".."@);
    assert(ranges_time(t));
    assert(opens_time(s));
    if rest.len() > 0 {
        assert(q[j] == rest[0]);
    }
    assert(time_text(q, i, j));
    assert(!harmless(q.subrange(i, j)));
}

/// A time field and an operator open a time.
proof fn comparison_opens_time(pre: Seq<char>, field: Seq<char>, gap: Seq<char>, op: Seq<char>)
    requires
        pre.len() == 0 || opens_field(pre.last()),
        time_fields().contains(field),
        blank(gap),
        time_operators().contains(op),
    ensures
        ({
            let t = pre + field + gap + op;
            &&& named_operator(op) ==> compares_time(t, op)
            &&& !named_operator(op) ==> compares_time(t, "="@) || compares_time(t, ">"@)
                || compares_time(t, "<"@)
        }),
{
    let f = pre + field;
    let g = f + gap;
    let t = g + op;
    operators_end_so(op);
    field_at_end(pre, field);
    assert(only_wraps(gap));
    value_wrapping_is_trimmed(f, gap);
    if named_operator(op) {
        ends_behind_a_field(g, op);
    } else {
        let sign = seq![op.last()];
        let lead = op.drop_last();
        assert(t =~= (g + lead) + sign);
        if op.len() == 2 {
            assert((g + lead).last() == op[0]);
            assert((g + lead).drop_last() =~= g);
            assert(up_to_field(g + lead) == up_to_field(g));
        } else {
            assert(g + lead =~= g);
        }
        reveal_strlit("=");
        reveal_strlit(">");
        reveal_strlit("<");
        assert("="@ =~= seq!['=']);
        assert(">"@ =~= seq!['>']);
        assert("<"@ =~= seq!['<']);
        ends_behind_a_field(g + lead, sign);
    }
}

proof fn ends_behind_a_field(g: Seq<char>, op: Seq<char>)
    requires
        ends_in_time_field(up_to_field(g)),
    ensures
        compares_time(g + op, op),
{
    let t = g + op;
    let n = g.len() as int;
    assert(t.subrange(n, n + op.len()) =~= op);
    assert(t.take(t.len() - op.len()) =~= g);
}

/// Whatever the query and the time filter, plain text is judged; and an entry is
/// judged unless a duration in them may reach back too far.
pub proof fn lines_are_judged(j: Json, q: Seq<char>, since: Option<Seq<char>>)
    ensures
        judgeable(None, q, since),
        answerable(q) && (since is None || readable(since->0)) ==> judgeable(Some(j), q, since),
        entry_moment(j) is None && since is None ==> judgeable(Some(j), q, since),
        judgeable(Some(j), q, since) && since is Some ==> judgeable(Some(j), q, None) && readable(
            since->0,
        ),
        judgeable(Some(j), q, None) && entry_moment(j) is Some ==> answerable(q),
{
}

/// A start that is read off a time text belongs to the text: `now` is the moment that
/// the clock gives, and a duration lies that many seconds back.
pub proof fn starts_are_read_off_the_clock(since: &Since, r: Option<Moment>)
    requires
        readable(since@),
        call_ensures(Since::start, (since,), r),
    ensures
        asks_clock(since@) ==> exists|now: Moment|
            {
                &&& r == #[trigger] time_at(since@, Some(now))
                &&& r is Some
                &&& lower(since@) == "now"@ ==> r->0 == now
                &&& lower(since@) != "now"@ ==> 0 <= now.secs - r->0.secs - span_secs(
                    without_ago(since@),
                )->0 <= 1
            },
        !asks_clock(since@) ==> r == time_at(since@, None),
{
    let now = choose|now: Option<Moment>|
        possible_now(since@, now) && r == #[trigger] time_at(since@, now);
    if asks_clock(since@) {
        assert(now == Some(now->0));
        assert(r == time_at(since@, Some(now->0)));
    }
}

/// The clock is read for an entry only where the query or the filter asks it, and
/// never for plain text.
pub proof fn clock_is_read_where_asked(
    raw: Seq<char>,
    parsed: Option<Json>,
    q: Seq<char>,
    since: Option<Seq<char>>,
    reading: Reading,
)
    requires
        possible_reading(raw, parsed, q, since, reading),
    ensures
        parsed is None ==> reading.clock.len() == 0 && reading.now is None,
        parsed is Some ==> (reading.now is Some <==> since is Some && asks_clock(since->0)),
        parsed is Some && entry_moment(parsed->0) is None ==> reading.clock.len() == 0,
{
}

} // verus!
