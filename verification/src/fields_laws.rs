//! What holds of a survey of fields.

use crate::fields::{
    discover_fields, distinct_fields, entries_with, entry_count, field_count, field_place_is_right,
    field_total, field_totals, format_row, kind_count, kind_name, kinds_text, lines_read, looked_at,
    row_views, survey_head, FieldRow, FieldSurvey, FieldView,
};
use crate::json::{held_opt, parsed_line, Json, Kind};
use crate::order::count_ranking;
use crate::order_laws::{descends, rankings_descend};
use crate::paint::{bare_text, line_views, span_views, Span, Style};
use crate::paint_laws::{pieces_follow_each_other, text_of_one, text_of_two};
use crate::search::line_view;
use crate::search_laws::smaller;
use crate::tally::{count_of, count_sum};
use crate::text::{decimal, pad_end};
use crate::text_laws::copies_follow_each_other;
use vstd::prelude::*;

verus! {

/// How the kinds of values are called, each by a name of its own.
pub proof fn kinds_have_their_names(j: Json, k: Kind)
    ensures
        j is Text ==> kind_name(j.kind()) == "string"@,
        j is Number ==> kind_name(j.kind()) == "number"@,
        j is Bool ==> kind_name(j.kind()) == "boolean"@,
        j is Array ==> kind_name(j.kind()) == "array"@,
        j is Object ==> kind_name(j.kind()) == "object"@,
        j is Null ==> kind_name(j.kind()) == "null"@,
        kind_name(j.kind()) == kind_name(k) ==> j.kind() == k,
{
    reveal_strlit("string");
    reveal_strlit("number");
    reveal_strlit("boolean");
    reveal_strlit("array");
    reveal_strlit("object");
    reveal_strlit("null");
    let a = kind_name(j.kind());
    let b = kind_name(k);
    if a == b {
        assert(a.len() == b.len() && a[0] == b[0] && a[1] == b[1]);
        assert("string"@.len() == 6 && "string"@[0] == 's');
        assert("number"@.len() == 6 && "number"@[0] == 'n');
        assert("boolean"@.len() == 7 && "boolean"@[0] == 'b');
        assert("array"@.len() == 5 && "array"@[0] == 'a');
        assert("object"@.len() == 6 && "object"@[0] == 'o');
        assert("null"@.len() == 4 && "null"@[0] == 'n');
    }
}

// ---------------------------------------------------------------------------
// Counting
// ---------------------------------------------------------------------------

/// What a line adds to the count of entries, of entries with a field, and of entries
/// with a field of a kind: one where it parses to such an entry, and nothing
/// otherwise.
pub proof fn one_line_counts_once(line: Option<Seq<char>>, name: Seq<char>, kind: Seq<char>)
    ensures
        ({
            let one = seq![line];
            let entry = match line {
                Some(l) => parsed_line(l),
                None => None,
            };
            &&& entry_count(one) == if entry is Some { 1nat } else { 0 }
            &&& entries_with(one, name) == if entry matches Some(Json::Object(m))
                && m.dom().contains(name) {
                1nat
            } else {
                0
            }
            &&& kind_count(one, name, kind) == if entry matches Some(Json::Object(m))
                && m.dom().contains(name) && kind_name(m[name].kind()) == kind {
                1nat
            } else {
                0
            }
        }),
{
    let one = seq![line];
    let none = one.drop_last();
    assert(none.len() == 0);
    assert(one.last() == line);
    assert(entry_count(none) == 0);
    assert(entries_with(none, name) == 0);
    assert(kind_count(none, name, kind) == 0);
}

/// What is counted in two runs of lines is added up.
pub proof fn runs_of_lines_add_up(
    a: Seq<Option<Seq<char>>>,
    b: Seq<Option<Seq<char>>>,
    name: Seq<char>,
    kind: Seq<char>,
)
    ensures
        entry_count(a + b) == entry_count(a) + entry_count(b),
        entries_with(a + b, name) == entries_with(a, name) + entries_with(b, name),
        kind_count(a + b, name, kind) == kind_count(a, name, kind) + kind_count(b, name, kind),
        entry_count(Seq::empty()) == 0,
        entries_with(Seq::empty(), name) == 0,
        kind_count(Seq::empty(), name, kind) == 0,
    decreases b.len(),
{
    if b.len() == 0 {
        assert(a + b =~= a);
    } else {
        assert((a + b).drop_last() =~= a + b.drop_last());
        runs_of_lines_add_up(a, b.drop_last(), name, kind);
    }
}

/// A sample of zero is the whole file; any other is as many of its first lines, or
/// all where there are fewer.
pub proof fn samples_are_beginnings(n: nat, sample: nat)
    ensures
        sample == 0 ==> looked_at(n, sample) == n,
        sample > 0 ==> looked_at(n, sample) == smaller(n, sample),
{
}

/// A survey looks at the sample and no further, and counts in it every entry, every
/// field and every kind.
pub proof fn surveys_count_the_sample(
    lines: &Vec<Option<String>>,
    sample: usize,
    r: FieldSurvey,
    name: Seq<char>,
    kind: Seq<char>,
)
    requires
        call_ensures(discover_fields, (lines, sample), r),
    ensures
        ({
            let n = if sample == 0 {
                lines@.len()
            } else {
                smaller(lines@.len(), sample as nat)
            };
            let seen = Seq::new(n, |i: int| line_view(lines@[i]));
            &&& r@.total_lines == n
            &&& r@.total_parsed == entry_count(seen)
            &&& field_total(r@.fields, name) == entries_with(seen, name)
            &&& field_count(r@.fields, name, kind) == kind_count(seen, name, kind)
        }),
{
    let n = looked_at(lines@.len(), sample as nat);
    let seen = Seq::new(n, |i: int| line_view(lines@[i]));
    assert(lines_read(lines@).take(n as int) =~= seen);
}

/// A survey begins with nothing counted, and is not over.
pub proof fn surveys_begin_empty(sample: usize, r: FieldSurvey)
    requires
        call_ensures(FieldSurvey::new, (sample,), r),
    ensures
        r@.sample == sample,
        r@.total_lines == 0,
        r@.total_parsed == 0,
        r@.fields.len() == 0,
        !r@.stopped,
{
}

/// An entry that is taken in is counted once, and so is each of its members, under
/// its own kind; a line that is no entry is counted as a line only. A survey whose
/// sample is complete is over, and takes in nothing more.
pub proof fn surveyed_entries_are_counted(
    survey: &mut FieldSurvey,
    parsed: &Option<serde_json::Value>,
    name: Seq<char>,
    kind: Seq<char>,
)
    requires
        call_ensures(FieldSurvey::count_entry, (survey, parsed), ()),
    ensures
        ({
            let s = old(survey)@;
            let t = final(survey)@;
            &&& s.stopped ==> t == s
            &&& !s.stopped ==> {
                &&& t.sample == s.sample
                &&& t.total_lines == s.total_lines + 1
                &&& t.stopped <==> s.sample > 0 && t.total_lines >= s.sample
                &&& *parsed is None ==> t.fields == s.fields && t.total_parsed == s.total_parsed
                &&& held_opt(*parsed) matches Some(Json::Object(m)) ==> {
                    let there = m.dom().contains(name);
                    &&& t.total_parsed == s.total_parsed + 1
                    &&& field_total(t.fields, name) == field_total(s.fields, name) + if there {
                        1nat
                    } else {
                        0
                    }
                    &&& field_count(t.fields, name, kind) == field_count(s.fields, name, kind)
                        + if there && kind_name(m[name].kind()) == kind {
                        1nat
                    } else {
                        0
                    }
                }
            }
        }),
{
}

/// What can be asked of a survey on the way is what it has come to.
pub proof fn surveys_say_what_they_hold(
    survey: &FieldSurvey,
    stopped: bool,
    lines: usize,
    entries: usize,
)
    requires
        call_ensures(FieldSurvey::is_stopped, (survey,), stopped),
        call_ensures(FieldSurvey::lines_read, (survey,), lines),
        call_ensures(FieldSurvey::entries_parsed, (survey,), entries),
    ensures
        stopped == survey@.stopped,
        lines == survey@.total_lines,
        entries == survey@.total_parsed,
{
}

/// A line that is fed to a survey is taken in as what it parses to.
pub proof fn surveyed_lines_are_parsed(
    survey: &mut FieldSurvey,
    line: Option<&str>,
    name: Seq<char>,
)
    requires
        call_ensures(FieldSurvey::feed, (survey, line), ()),
    ensures
        ({
            let s = old(survey)@;
            let t = final(survey)@;
            let entry = match line {
                Some(l) => parsed_line(l@),
                None => None,
            };
            &&& s.stopped ==> t == s
            &&& !s.stopped ==> {
                &&& t.total_lines == s.total_lines + 1
                &&& t.stopped <==> s.sample > 0 && t.total_lines >= s.sample
                &&& entry is None ==> t.fields == s.fields && t.total_parsed == s.total_parsed
                &&& entry is Some ==> t.total_parsed == s.total_parsed + 1
                &&& entry matches Some(Json::Object(m)) ==> field_total(t.fields, name)
                    == field_total(s.fields, name) + if m.dom().contains(name) {
                    1nat
                } else {
                    0
                }
            }
        }),
{
}

/// What is known of a field is what stands beside its name, and nothing where it
/// does not stand in the list.
pub proof fn fields_are_looked_up_by_name(
    v: Seq<FieldView>,
    name: Seq<char>,
    kind: Seq<char>,
    i: int,
)
    requires
        distinct_fields(v),
    ensures
        0 <= i < v.len() && v[i].name == name ==> field_total(v, name) == count_sum(v[i].kinds)
            && field_count(v, name, kind) == count_of(v[i].kinds, kind),
        (forall|k: int| 0 <= k < v.len() ==> (#[trigger] v[k]).name != name) ==> field_total(
            v,
            name,
        ) == 0 && field_count(v, name, kind) == 0,
{
    field_place_is_right(v, name);
}

// ---------------------------------------------------------------------------
// The list
// ---------------------------------------------------------------------------

/// A kind is listed by its name, with its count in brackets unless the field is
/// always of it; several are listed one after the other with commas between them.
pub proof fn kinds_are_listed_so(kinds: Seq<(Seq<char>, nat)>, total: nat)
    ensures
        kinds.len() == 0 ==> kinds_text(kinds, total).len() == 0,
        kinds.len() == 1 && kinds[0].1 == total ==> kinds_text(kinds, total) == kinds[0].0,
        kinds.len() == 1 && kinds[0].1 != total ==> kinds_text(kinds, total) == kinds[0].0 + "("@
            + decimal(kinds[0].1) + ")"@,
        kinds.len() > 1 ==> kinds_text(kinds, total) == kinds_text(kinds.drop_last(), total)
            + ", "@ + kinds_text(seq![kinds.last()], total),
{
    if kinds.len() > 1 {
        let one = seq![kinds.last()];
        assert(one.last() == kinds.last());
    }
}

/// A list of fields is a list of all of them by how often they came up, the most
/// frequent first and equals as they stand, each with its name, its total and its
/// kinds.
pub proof fn fields_are_listed(survey: &FieldSurvey, r: Vec<FieldRow>, i: int)
    requires
        survey.well_formed(),
        call_ensures(FieldSurvey::rows, (survey,), r),
    ensures
        ({
            let fields = survey@.fields;
            let totals = fields.map_values(|f: FieldView| count_sum(f.kinds));
            let order = count_ranking(totals);
            &&& r@.len() == fields.len()
            &&& descends(totals, order)
            &&& 0 <= i < r@.len() ==> {
                let f = fields[order[i] as int];
                &&& r@[i].name@ == f.name
                &&& r@[i].total == count_sum(f.kinds)
                &&& r@[i].types@ == kinds_text(f.kinds, count_sum(f.kinds))
            }
        }),
{
    let fields = survey@.fields;
    let totals = fields.map_values(|f: FieldView| count_sum(f.kinds));
    assert(totals =~= field_totals(fields));
    rankings_descend(totals);
    if 0 <= i < r@.len() {
        assert(row_views(r@)[i] == r@[i]@);
    }
}

/// The line of a field reads as its name, its kinds, its total and the share of
/// entries that have it, in columns, with the name in cyan.
pub proof fn field_lines_read_so(row: &FieldRow, coverage: usize, r: Vec<Span>)
    requires
        call_ensures(format_row, (row, coverage), r),
    ensures
        bare_text(span_views(r@)) == "  "@ + pad_end(row.name@, 26) + (" "@ + pad_end(row.types@, 30)
            + " "@ + decimal(row.total as nat) + " ("@ + decimal(coverage as nat) + "%)"@),
        span_views(r@)[1].style == Style::Cyan,
{
    let l = span_views(r@);
    text_of_one(l[0]);
    pieces_follow_each_other(seq![l[0]], l[1]);
    pieces_follow_each_other(seq![l[0]].push(l[1]), l[2]);
    assert(l =~= seq![l[0]].push(l[1]).push(l[2]));
}

/// What is said before the fields: how many lines were read and how many entries
/// were parsed, between empty lines, and then a title, or that there are no fields.
pub proof fn surveys_are_headed_so(survey: &FieldSurvey, r: Vec<Vec<Span>>, i: int)
    requires
        call_ensures(FieldSurvey::head, (survey,), r),
    ensures
        ({
            let out = line_views(r@);
            &&& out[0].len() == 0
            &&& bare_text(out[1]) == "\u{1f4ca} "@ + decimal(survey@.total_lines)
                + " lines read, "@ + decimal(survey@.total_parsed) + " structured entries parsed"@
            &&& out[1][0].style == Style::Bold
            &&& out[1][1].style == Style::Plain
            &&& out[2].len() == 0
            &&& survey@.fields.len() == 0 ==> out.len() == 4 && bare_text(out[3])
                == "No structured fields found."@ && out[3][0].style == Style::Yellow
            &&& survey@.fields.len() > 0 ==> {
                &&& out.len() == 5
                &&& bare_text(out[3])
                    == "  Field                    Type(s)                        Count"@
                &&& out[3][0].style == Style::Bold
                &&& out[4][0].style == Style::Dimmed
                &&& bare_text(out[4]).len() == 66
                &&& 2 <= i < 66 ==> bare_text(out[4])[i] == '\u{2500}'
            }
        }),
{
    let out = line_views(r@);
    assert(out == survey_head(survey@));
    text_of_two(out[1][0], out[1][1]);
    assert(out[1] =~= seq![out[1][0], out[1][1]]);
    reveal_strlit("\u{1f4ca}");
    reveal_strlit("\u{1f4ca} ");
    reveal_strlit(" ");
    reveal_strlit("  ");
    reveal_strlit("\u{2500}");
    assert(bare_text(out[1]) =~= "\u{1f4ca} "@ + decimal(survey@.total_lines) + " lines read, "@
        + decimal(survey@.total_parsed) + " structured entries parsed"@);
    text_of_one(out[3][0]);
    assert(out[3] =~= seq![out[3][0]]);
    if survey@.fields.len() > 0 {
        text_of_one(out[4][0]);
        assert(out[4] =~= seq![out[4][0]]);
        copies_follow_each_other("\u{2500}"@, 64);
    }
}

} // verus!
