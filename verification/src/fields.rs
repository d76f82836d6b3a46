//! Which fields the entries of a file have, and of what kind they are.

use crate::json::{held, held_opt, keys, kind, member, parse_log_line, parsed_line, Json, Kind};
use crate::order::{
    count_ranking, count_ranking_exists, count_ranking_is, largest_first, largest_first_positions,
};
use crate::paint::{
    line_views, plain, push_empty, push_span, span, span_views, styled, Span, SpanView, Style,
};
use crate::search::line_view;
use crate::tally::{
    count_of, count_sum, count_within_sum, counted, counted_adds, distinct_names, place_is_right,
    sum_grows, Tally,
};
use crate::text::{
    decimal, left_column, pad_end, repeat, repeated, same_text, texts, to_decimal,
};
use vstd::prelude::*;
use vstd::string::StringExecFns;

verus! {

/// How a kind of JSON value is called.
pub open spec fn kind_name(k: Kind) -> Seq<char> {
    match k {
        Kind::Text => "string"@,
        Kind::Number => "number"@,
        Kind::Bool => "boolean"@,
        Kind::Array => "array"@,
        Kind::Object => "object"@,
        Kind::Null => "null"@,
    }
}

fn name_of_kind(k: Kind) -> (r: &'static str)
    ensures
        r@ == kind_name(k),
{
    match k {
        Kind::Text => "string",
        Kind::Number => "number",
        Kind::Bool => "boolean",
        Kind::Array => "array",
        Kind::Object => "object",
        Kind::Null => "null",
    }
}

/// A field and how often it was of each kind.
struct Field {
    name: String,
    kinds: Tally,
}

/// What is known of a field.
#[verifier::ext_equal]
pub struct FieldView {
    pub name: Seq<char>,
    pub kinds: Seq<(Seq<char>, nat)>,
}

impl Field {
    spec fn view(&self) -> FieldView {
        FieldView { name: self.name@, kinds: self.kinds@ }
    }
}

spec fn field_views(v: Seq<Field>) -> Seq<FieldView> {
    v.map_values(|f: Field| f@)
}

/// No field stands twice.
pub open spec fn distinct_fields(v: Seq<FieldView>) -> bool {
    forall|i: int, j: int| 0 <= i < j < v.len() ==> (#[trigger] v[i]).name != (#[trigger] v[j]).name
}

/// The kinds of a field: at least one, each counted at least once, none with two
/// counts.
pub open spec fn proper_kinds(kinds: Seq<(Seq<char>, nat)>) -> bool {
    &&& kinds.len() > 0
    &&& distinct_names(kinds)
    &&& forall|i: int| 0 <= i < kinds.len() ==> (#[trigger] kinds[i]).1 > 0
}

/// Every field was counted, and none more than `n` times.
pub open spec fn fields_within(v: Seq<FieldView>, n: nat) -> bool {
    forall|i: int|
        0 <= i < v.len() ==> count_sum((#[trigger] v[i]).kinds) <= n && proper_kinds(v[i].kinds)
}

proof fn counted_is_proper(kinds: Seq<(Seq<char>, nat)>, kind: Seq<char>)
    requires
        kinds.len() == 0 || proper_kinds(kinds),
    ensures
        proper_kinds(counted(kinds, kind, 1)),
{
    counted_adds(kinds, kind, 1);
    place_is_right(kinds, kind);
}

/// Where the field stands in the list, or -1.
pub open spec fn field_place(v: Seq<FieldView>, name: Seq<char>) -> int
    decreases v.len(),
{
    if v.len() == 0 {
        -1
    } else if v.last().name == name {
        v.len() - 1
    } else {
        field_place(v.drop_last(), name)
    }
}

/// How often the field was of each kind.
pub open spec fn kinds_of(v: Seq<FieldView>, name: Seq<char>) -> Seq<(Seq<char>, nat)> {
    if field_place(v, name) >= 0 {
        v[field_place(v, name)].kinds
    } else {
        Seq::empty()
    }
}

/// How often the field was of the kind.
pub open spec fn field_count(v: Seq<FieldView>, name: Seq<char>, kind: Seq<char>) -> nat {
    count_of(kinds_of(v, name), kind)
}

/// How often the field came up, of whatever kind.
pub open spec fn field_total(v: Seq<FieldView>, name: Seq<char>) -> nat {
    count_sum(kinds_of(v, name))
}

/// A field has a place exactly where it stands in the list.
pub proof fn field_place_is_right(v: Seq<FieldView>, name: Seq<char>)
    ensures
        -1 <= field_place(v, name) < v.len(),
        field_place(v, name) >= 0 ==> v[field_place(v, name)].name == name,
        field_place(v, name) < 0 ==> forall|i: int|
            0 <= i < v.len() ==> (#[trigger] v[i]).name != name,
    decreases v.len(),
{
    if v.len() > 0 && v.last().name != name {
        field_place_is_right(v.drop_last(), name);
        if field_place(v, name) < 0 {
            assert forall|i: int| 0 <= i < v.len() implies (#[trigger] v[i]).name != name by {
                if i < v.len() - 1 {
                    assert(v.drop_last()[i].name != name);
                }
            }
        }
    }
}

proof fn field_place_from_index(v: Seq<FieldView>, i: int)
    requires
        distinct_fields(v),
        0 <= i < v.len(),
    ensures
        field_place(v, v[i].name) == i,
{
    field_place_is_right(v, v[i].name);
}

/// The list with one more of a kind for a field, which takes a place at the end
/// when it comes up for the first time.
pub open spec fn field_counted(
    v: Seq<FieldView>,
    name: Seq<char>,
    kind: Seq<char>,
) -> Seq<FieldView> {
    let i = field_place(v, name);
    if i >= 0 {
        v.update(i, FieldView { name, kinds: counted(v[i].kinds, kind, 1) })
    } else {
        v.push(FieldView { name, kinds: counted(Seq::empty(), kind, 1) })
    }
}

/// Counting one kind of one field adds to that count and to no other.
pub proof fn field_counted_adds(v: Seq<FieldView>, name: Seq<char>, kind: Seq<char>, n: nat)
    requires
        distinct_fields(v),
        fields_within(v, n),
    ensures
        distinct_fields(field_counted(v, name, kind)),
        forall|f: Seq<char>, k: Seq<char>| #[trigger]
            field_count(field_counted(v, name, kind), f, k) == field_count(v, f, k) + (if f == name
                && k == kind {
                1nat
            } else {
                0
            }),
        forall|f: Seq<char>| #[trigger]
            field_total(field_counted(v, name, kind), f) == field_total(v, f) + (if f == name {
                1nat
            } else {
                0
            }),
        fields_within(field_counted(v, name, kind), n + 1),
{
    let w = field_counted(v, name, kind);
    let p = field_place(v, name);
    field_place_is_right(v, name);
    assert(distinct_fields(w));
    let old_kinds = kinds_of(v, name);
    assert(distinct_names(old_kinds));
    counted_adds(old_kinds, kind, 1);
    counted_is_proper(old_kinds, kind);
    let q = if p >= 0 { p } else { v.len() as int };
    assert(w[q].kinds == counted(old_kinds, kind, 1));
    field_place_from_index(w, q);
    assert forall|f: Seq<char>| f != name implies #[trigger] kinds_of(w, f) == kinds_of(v, f) by {
        field_place_is_right(v, f);
        field_place_is_right(w, f);
        let a = field_place(v, f);
        let b = field_place(w, f);
        if a >= 0 {
            assert(w[a].name == f);
            field_place_from_index(w, a);
        } else if b >= 0 && b < v.len() {
            assert(v[b].name == f);
        }
    }
    assert forall|i: int| 0 <= i < w.len() implies count_sum((#[trigger] w[i]).kinds) <= n + 1
        && proper_kinds(w[i].kinds) by {
        if i != q {
            assert(w[i] == v[i]);
        } else if p >= 0 {
            assert(v[p].kinds == old_kinds);
        } else {
            assert(count_sum(old_kinds) == 0);
        }
    }
}

/// Whether an entry has the field, with a value of the kind.
pub open spec fn has_field(j: Json, name: Seq<char>, kind: Seq<char>) -> bool {
    j.member(name) matches Some(m) && kind_name(m.kind()) == kind
}

/// The entries among `lines`.
pub open spec fn entry_count(lines: Seq<Option<Seq<char>>>) -> nat
    decreases lines.len(),
{
    if lines.len() == 0 {
        0
    } else {
        entry_count(lines.drop_last()) + if lines.last() matches Some(l) && parsed_line(l) is Some {
            1nat
        } else {
            0
        }
    }
}

/// The entries among `lines` that have the field, with a value of the kind.
pub open spec fn kind_count(
    lines: Seq<Option<Seq<char>>>,
    name: Seq<char>,
    kind: Seq<char>,
) -> nat
    decreases lines.len(),
{
    if lines.len() == 0 {
        0
    } else {
        kind_count(lines.drop_last(), name, kind) + if lines.last() matches Some(l) && parsed_line(
            l,
        ) matches Some(j) && has_field(j, name, kind) {
            1nat
        } else {
            0
        }
    }
}

/// The entries among `lines` that have the field.
pub open spec fn entries_with(lines: Seq<Option<Seq<char>>>, name: Seq<char>) -> nat
    decreases lines.len(),
{
    if lines.len() == 0 {
        0
    } else {
        entries_with(lines.drop_last(), name) + if lines.last() matches Some(l) && parsed_line(
            l,
        ) matches Some(j) && j.member(name) is Some {
            1nat
        } else {
            0
        }
    }
}

/// A survey of the fields of a file.
pub struct FieldSurvey {
    sample: usize,
    total_lines: usize,
    total_parsed: usize,
    fields: Vec<Field>,
    stopped: bool,
}

/// What a survey has come to.
#[verifier::ext_equal]
pub struct SurveyView {
    /// The most lines that are looked at; zero for all of them.
    pub sample: nat,
    pub total_lines: nat,
    pub total_parsed: nat,
    pub fields: Seq<FieldView>,
    /// The sample is complete.
    pub stopped: bool,
}

/// The fields of `after` are those of `before` with every member of `j`
/// counted once.
pub open spec fn entry_counted(
    before: Seq<FieldView>,
    j: Json,
    after: Seq<FieldView>,
) -> bool {
    &&& forall|name: Seq<char>, kind: Seq<char>| #[trigger]
        field_count(after, name, kind) == field_count(before, name, kind) + (if has_field(
            j,
            name,
            kind,
        ) {
            1nat
        } else {
            0
        })
    &&& forall|name: Seq<char>| #[trigger]
        field_total(after, name) == field_total(before, name) + (if j.member(name) is Some {
            1nat
        } else {
            0
        })
}

/// The sample is complete with `n` lines.
pub open spec fn sample_complete(sample: nat, n: nat) -> bool {
    sample > 0 && n >= sample
}

/// `after` is what a survey comes to with one more line, which parses to `entry`.
pub open spec fn entry_step(
    before: SurveyView,
    entry: Option<Json>,
    after: SurveyView,
) -> bool {
    if before.stopped {
        after == before
    } else {
        &&& after.sample == before.sample
        &&& after.total_lines == before.total_lines + 1
        &&& after.stopped == sample_complete(before.sample, after.total_lines)
        &&& match entry {
            Some(j) => after.total_parsed == before.total_parsed + 1 && entry_counted(
                before.fields,
                j,
                after.fields,
            ),
            None => after.fields == before.fields && after.total_parsed == before.total_parsed,
        }
    }
}

/// What a line parses to; nothing where it cannot be read or is plain text.
pub open spec fn entry_of(line: Option<Seq<char>>) -> Option<Json> {
    match line {
        Some(l) => parsed_line(l),
        None => None,
    }
}

/// `after` is what a survey comes to with one more line.
pub open spec fn survey_step(
    before: SurveyView,
    line: Option<Seq<char>>,
    after: SurveyView,
) -> bool {
    entry_step(before, entry_of(line), after)
}

impl FieldSurvey {
    pub closed spec fn view(&self) -> SurveyView {
        SurveyView {
            sample: self.sample as nat,
            total_lines: self.total_lines as nat,
            total_parsed: self.total_parsed as nat,
            fields: field_views(self.fields@),
            stopped: self.stopped,
        }
    }

    /// Each field stands once, and no field was counted more often than there
    /// were entries.
    pub open spec fn well_formed(&self) -> bool {
        &&& self@.total_parsed <= self@.total_lines
        &&& distinct_fields(self@.fields)
        &&& fields_within(self@.fields, self@.total_parsed)
    }

    /// A survey of the first `sample` lines of a file, or of all its lines
    /// where that is zero.
    pub fn new(sample: usize) -> (r: FieldSurvey)
        ensures
            r.well_formed(),
            r@ == (SurveyView {
                sample: sample as nat,
                total_lines: 0,
                total_parsed: 0,
                fields: Seq::empty(),
                stopped: false,
            }),
    {
        let r = FieldSurvey {
            sample,
            total_lines: 0,
            total_parsed: 0,
            fields: Vec::new(),
            stopped: false,
        };
        assert(r@.fields =~= Seq::<FieldView>::empty());
        r
    }

    /// Whether the sample is complete.
    pub fn is_stopped(&self) -> (r: bool)
        ensures
            r == self@.stopped,
    {
        self.stopped
    }

    /// The lines that were read.
    pub fn lines_read(&self) -> (r: usize)
        ensures
            r == self@.total_lines,
    {
        self.total_lines
    }

    /// The entries among the lines that were read.
    pub fn entries_parsed(&self) -> (r: usize)
        ensures
            r == self@.total_parsed,
    {
        self.total_parsed
    }

    fn find(&self, name: &str) -> (r: Option<usize>)
        requires
            distinct_fields(self@.fields),
        ensures
            r is Some <==> field_place(self@.fields, name@) >= 0,
            r matches Some(i) ==> field_place(self@.fields, name@) == i && i < self@.fields.len(),
    {
        proof {
            field_place_is_right(self@.fields, name@);
        }
        let n: usize = self.fields.len();
        for i in 0..n
            invariant
                n == self.fields@.len(),
                self@.fields.len() == n,
                distinct_fields(self@.fields),
                forall|k: int| 0 <= k < i ==> (#[trigger] self@.fields[k]).name != name@,
        {
            assert(self@.fields[i as int].name == self.fields@[i as int].name@);
            if same_text(self.fields[i].name.as_str(), name) {
                proof {
                    field_place_from_index(self@.fields, i as int);
                }
                return Some(i);
            }
        }
        None
    }

    fn count_field(&mut self, name: &str, kind: &str)
        requires
            distinct_fields(old(self)@.fields),
            field_total(old(self)@.fields, name@) < usize::MAX,
        ensures
            final(self)@ == (SurveyView {
                fields: field_counted(old(self)@.fields, name@, kind@),
                ..old(self)@
            }),
    {
        let ghost before = self@;
        match self.find(name) {
            Some(i) => {
                proof {
                    count_within_sum(before.fields[i as int].kinds, kind@);
                    field_place_is_right(before.fields, name@);
                }
                self.fields[i].kinds.add(kind, 1);
                assert(field_views(self.fields@) =~= field_counted(before.fields, name@, kind@));
            },
            None => {
                let mut kinds = Tally::new();
                kinds.add(kind, 1);
                self.fields.push(Field { name: String::from_str(name), kinds });
                assert(field_views(self.fields@) =~= field_counted(before.fields, name@, kind@));
            },
        }
        assert(self@ =~= (SurveyView {
            fields: field_counted(before.fields, name@, kind@),
            ..before
        }));
    }

    fn count_members(&mut self, v: &serde_json::Value)
        requires
            old(self).well_formed(),
            old(self)@.total_parsed < usize::MAX,
        ensures
            distinct_fields(final(self)@.fields),
            fields_within(final(self)@.fields, old(self)@.total_parsed + 1),
            final(self)@ == (SurveyView { fields: final(self)@.fields, ..old(self)@ }),
            entry_counted(old(self)@.fields, held(*v), final(self)@.fields),
    {
        let ghost before = self@;
        let ghost j = held(*v);
        match keys(v) {
            None => {
                assert(self@ =~= (SurveyView { fields: self@.fields, ..before }));
            },
            Some(names) => {
                let ghost ns = texts(names@);
                assert forall|k: int| 0 <= k < ns.len() implies field_total(
                    self@.fields,
                    #[trigger] ns[k],
                ) <= before.total_parsed by {
                    field_place_is_right(self@.fields, ns[k]);
                }
                for i in 0..names.len()
                    invariant
                        ns == texts(names@),
                        ns.no_duplicates(),
                        j == held(*v),
                        j is Object,
                        ns.to_set() == j->Object_0.dom(),
                        before.total_parsed < usize::MAX,
                        self@ == (SurveyView { fields: self@.fields, ..before }),
                        distinct_fields(self@.fields),
                        fields_within(self@.fields, before.total_parsed + 1),
                        forall|k: int|
                            i <= k < ns.len() ==> field_total(self@.fields, #[trigger] ns[k])
                                <= before.total_parsed,
                        forall|name: Seq<char>| #[trigger]
                            field_total(self@.fields, name) == field_total(before.fields, name) + (
                            if ns.take(i as int).contains(name) {
                                1nat
                            } else {
                                0
                            }),
                        forall|name: Seq<char>, kind: Seq<char>| #[trigger]
                            field_count(self@.fields, name, kind) == field_count(
                                before.fields,
                                name,
                                kind,
                            ) + (if ns.take(i as int).contains(name) && has_field(j, name, kind) {
                                1nat
                            } else {
                                0
                            }),
                {
                    let name = names[i].as_str();
                    let ghost so_far = self@.fields;
                    proof {
                        assert(ns[i as int] == name@);
                        assert(ns.to_set().contains(name@));
                    }
                    match member(v, name) {
                        Some(m) => {
                            let kind = name_of_kind(kind(m));
                            proof {
                                field_counted_adds(
                                    so_far,
                                    name@,
                                    kind@,
                                    before.total_parsed + 1,
                                );
                                counted_within(
                                    so_far,
                                    name@,
                                    kind@,
                                    before.total_parsed,
                                );
                            }
                            self.count_field(name, kind);
                            proof {
                                assert(ns.take(i + 1) =~= ns.take(i as int).push(name@));
                                assert forall|f: Seq<char>, k: Seq<char>| #[trigger]
                                    field_count(self@.fields, f, k) == field_count(
                                        before.fields,
                                        f,
                                        k,
                                    ) + (if ns.take(i + 1).contains(f) && has_field(j, f, k) {
                                        1nat
                                    } else {
                                        0
                                    }) by {
                                    assert(field_count(self@.fields, f, k) == field_count(
                                        so_far,
                                        f,
                                        k,
                                    ) + (if f == name@ && k == kind@ {
                                        1nat
                                    } else {
                                        0
                                    }));
                                    take_push_contains(ns, i as int, f);
                                }
                                assert forall|f: Seq<char>| #[trigger]
                                    field_total(self@.fields, f) == field_total(before.fields, f)
                                        + (if ns.take(i + 1).contains(f) {
                                        1nat
                                    } else {
                                        0
                                    }) by {
                                    assert(field_total(self@.fields, f) == field_total(so_far, f)
                                        + (if f == name@ {
                                        1nat
                                    } else {
                                        0
                                    }));
                                    take_push_contains(ns, i as int, f);
                                }
                                assert forall|k: int| i + 1 <= k < ns.len() implies field_total(
                                    self@.fields,
                                    #[trigger] ns[k],
                                ) <= before.total_parsed by {
                                    assert(ns[k] != ns[i as int]);
                                }
                            }
                        },
                        None => {
                            assert(j->Object_0.dom().contains(name@));
                        },
                    }
                }
                proof {
                    assert(ns.take(ns.len() as int) =~= ns);
                    assert forall|f: Seq<char>, k: Seq<char>| #[trigger]
                        field_count(self@.fields, f, k) == field_count(before.fields, f, k) + (
                        if has_field(j, f, k) {
                            1nat
                        } else {
                            0
                        }) by {
                        if has_field(j, f, k) {
                            assert(ns.to_set().contains(f));
                        }
                    }
                    assert forall|f: Seq<char>| #[trigger]
                        field_total(self@.fields, f) == field_total(before.fields, f) + (
                        if j.member(f) is Some {
                            1nat
                        } else {
                            0
                        }) by {
                        assert(ns.to_set().contains(f) <==> j.member(f) is Some);
                    }
                }
            },
        }
    }

    /// Takes in the next line of the file, parsed already; `None` stands for one that
    /// cannot be read or is plain text.
    pub fn count_entry(&mut self, parsed: &Option<serde_json::Value>)
        requires
            old(self).well_formed(),
            old(self)@.total_lines < usize::MAX,
        ensures
            final(self).well_formed(),
            entry_step(old(self)@, held_opt(*parsed), final(self)@),
    {
        if self.stopped {
            return ;
        }
        self.total_lines = self.total_lines + 1;
        if self.sample > 0 && self.total_lines >= self.sample {
            self.stopped = true;
        }
        if let Some(v) = parsed {
            self.count_members(v);
            self.total_parsed = self.total_parsed + 1;
        }
    }

    /// Takes in the next line of the file; `None` stands for one that cannot be
    /// read.
    pub fn feed(&mut self, line: Option<&str>)
        requires
            old(self).well_formed(),
            old(self)@.total_lines < usize::MAX,
        ensures
            final(self).well_formed(),
            survey_step(
                old(self)@,
                match line {
                    Some(l) => Some(l@),
                    None => None,
                },
                final(self)@,
            ),
    {
        let parsed = match line {
            Some(l) => parse_log_line(l),
            None => None,
        };
        self.count_entry(&parsed);
    }
}

/// How many of `n` lines are looked at.
pub open spec fn looked_at(n: nat, sample: nat) -> nat {
    if sample > 0 && n > sample {
        sample
    } else {
        n
    }
}

/// The texts of lines, where they could be read.
pub open spec fn lines_read(lines: Seq<Option<String>>) -> Seq<Option<Seq<char>>> {
    lines.map_values(|l: Option<String>| line_view(l))
}

/// Surveys the fields of a file: every field of every entry in the sample is
/// counted once, under its kind.
pub fn discover_fields(lines: &Vec<Option<String>>, sample: usize) -> (r: FieldSurvey)
    ensures
        r.well_formed(),
        r@.total_lines == looked_at(lines@.len(), sample as nat),
        r@.total_parsed == entry_count(
            lines_read(lines@).take(looked_at(lines@.len(), sample as nat) as int),
        ),
        forall|name: Seq<char>, kind: Seq<char>| #[trigger]
            field_count(r@.fields, name, kind) == kind_count(
                lines_read(lines@).take(looked_at(lines@.len(), sample as nat) as int),
                name,
                kind,
            ),
        forall|name: Seq<char>| #[trigger]
            field_total(r@.fields, name) == entries_with(
                lines_read(lines@).take(looked_at(lines@.len(), sample as nat) as int),
                name,
            ),
{
    let mut survey = FieldSurvey::new(sample);
    let mut i: usize = 0;
    let ghost all = lines_read(lines@);
    proof {
        assert(all.take(0).len() == 0);
        assert forall|name: Seq<char>, kind: Seq<char>| #[trigger]
            field_count(survey@.fields, name, kind) == 0 by {
            assert(kinds_of(survey@.fields, name).len() == 0);
        }
        assert forall|name: Seq<char>| #[trigger] field_total(survey@.fields, name) == 0 by {
            assert(kinds_of(survey@.fields, name).len() == 0);
        }
    }
    while i < lines.len() && !survey.is_stopped()
        invariant
            i <= lines@.len(),
            all == lines_read(lines@),
            survey.well_formed(),
            survey@.sample == sample,
            survey@.total_lines == i,
            survey@.stopped <==> sample_complete(sample as nat, i as nat),
            sample > 0 ==> i <= sample,
            survey@.total_parsed == entry_count(
                all.take(i as int),
            ),
            forall|name: Seq<char>, kind: Seq<char>| #[trigger]
                field_count(survey@.fields, name, kind) == kind_count(
                    all.take(i as int),
                    name,
                    kind,
                ),
            forall|name: Seq<char>| #[trigger]
                field_total(survey@.fields, name) == entries_with(
                    all.take(i as int),
                    name,
                ),
        decreases lines@.len() - i,
    {
        let ghost before = survey@;
        let line = match &lines[i] {
            Some(l) => Some(l.as_str()),
            None => None,
        };
        survey.feed(line);
        proof {
            assert(all[i as int] == line_view(lines@[i as int]));
            assert(all.take(i + 1).drop_last() =~= all.take(i as int));
            assert forall|name: Seq<char>, kind: Seq<char>| #[trigger]
                field_count(survey@.fields, name, kind) == kind_count(
                    all.take(i + 1),
                    name,
                    kind,
                ) by {
                assert(field_count(before.fields, name, kind) == kind_count(
                    all.take(i as int),
                    name,
                    kind,
                ));
            }
            assert forall|name: Seq<char>| #[trigger]
                field_total(survey@.fields, name) == entries_with(all.take(i + 1), name) by {
                assert(field_total(before.fields, name) == entries_with(all.take(i as int), name));
            }
        }
        i += 1;
    }
    survey
}

proof fn take_push_contains(ns: Seq<Seq<char>>, i: int, f: Seq<char>)
    requires
        0 <= i < ns.len(),
        ns.no_duplicates(),
    ensures
        ns.take(i + 1).contains(f) <==> ns.take(i).contains(f) || f == ns[i],
        ns.take(i).contains(f) ==> f != ns[i],
{
    let a = ns.take(i);
    let b = ns.take(i + 1);
    if a.contains(f) {
        let k = a.index_of(f);
        assert(b[k] == f);
        assert(ns[k] == f);
    }
    assert(b[i] == ns[i]);
    if b.contains(f) && f != ns[i] {
        let k = b.index_of(f);
        assert(a[k] == f);
    }
}

proof fn counted_within(v: Seq<FieldView>, name: Seq<char>, kind: Seq<char>, n: nat)
    requires
        distinct_fields(v),
        fields_within(v, n + 1),
        field_total(v, name) <= n,
    ensures
        fields_within(field_counted(v, name, kind), n + 1),
{
    let w = field_counted(v, name, kind);
    let p = field_place(v, name);
    field_place_is_right(v, name);
    let old_kinds = kinds_of(v, name);
    counted_adds(old_kinds, kind, 1);
    counted_is_proper(old_kinds, kind);
    assert forall|i: int| 0 <= i < w.len() implies count_sum((#[trigger] w[i]).kinds) <= n + 1
        && proper_kinds(w[i].kinds) by {
        let q = if p >= 0 { p } else { v.len() as int };
        if i != q {
            assert(w[i] == v[i]);
        } else {
            assert(w[i].kinds == counted(old_kinds, kind, 1));
        }
    }
}

// ---------------------------------------------------------------------------
// The report
// ---------------------------------------------------------------------------

/// A field as it is listed.
pub struct FieldRow {
    pub name: String,
    pub types: String,
    pub total: usize,
}

/// What a `FieldRow` says.
#[verifier::ext_equal]
pub struct RowView {
    pub name: Seq<char>,
    pub types: Seq<char>,
    pub total: nat,
}

impl FieldRow {
    pub open spec fn view(&self) -> RowView {
        RowView { name: self.name@, types: self.types@, total: self.total as nat }
    }
}

/// Rows as they stand in a list.
pub open spec fn row_views(v: Seq<FieldRow>) -> Seq<RowView> {
    v.map_values(|r: FieldRow| r@)
}

/// A kind as it is listed: with its count, unless the field is always of it.
pub open spec fn kind_text(kind: Seq<char>, count: nat, total: nat) -> Seq<char> {
    if count == total {
        kind
    } else {
        kind + "("@ + decimal(count) + ")"@
    }
}

/// The kinds of a field as they are listed.
pub open spec fn kinds_text(kinds: Seq<(Seq<char>, nat)>, total: nat) -> Seq<char>
    decreases kinds.len(),
{
    if kinds.len() == 0 {
        Seq::empty()
    } else {
        let last = kind_text(kinds.last().0, kinds.last().1, total);
        if kinds.len() == 1 {
            last
        } else {
            kinds_text(kinds.drop_last(), total) + ", "@ + last
        }
    }
}

/// A field as it is listed.
pub open spec fn field_row(f: FieldView) -> RowView {
    RowView {
        name: f.name,
        types: kinds_text(f.kinds, count_sum(f.kinds)),
        total: count_sum(f.kinds),
    }
}

/// How often each field came up.
pub open spec fn field_totals(fields: Seq<FieldView>) -> Seq<nat> {
    fields.map_values(|f: FieldView| count_sum(f.kinds))
}

/// The fields as they are listed: the most frequent first.
pub open spec fn field_rows(fields: Seq<FieldView>) -> Seq<RowView> {
    count_ranking(field_totals(fields)).map_values(|i: usize| field_row(fields[i as int]))
}

fn sum_of(kinds: &Tally) -> (r: usize)
    requires
        count_sum(kinds@) <= usize::MAX,
    ensures
        r == count_sum(kinds@),
{
    let mut r: usize = 0;
    let n: usize = kinds.len();
    for i in 0..n
        invariant
            n == kinds@.len(),
            count_sum(kinds@) <= usize::MAX,
            r == count_sum(kinds@.take(i as int)),
    {
        proof {
            assert(kinds@.take(i + 1).drop_last() =~= kinds@.take(i as int));
            sum_grows(kinds@, i + 1);
        }
        r = r + kinds.count(i);
    }
    assert(kinds@.take(n as int) =~= kinds@);
    r
}

fn list_kinds(kinds: &Tally, total: usize) -> (r: String)
    ensures
        r@ == kinds_text(kinds@, total as nat),
{
    let mut r: String = String::new();
    let n: usize = kinds.len();
    for i in 0..n
        invariant
            n == kinds@.len(),
            r@ == kinds_text(kinds@.take(i as int), total as nat),
    {
        assert(kinds@.take(i + 1).drop_last() =~= kinds@.take(i as int));
        if i > 0 {
            r.append(", ");
        }
        r.append(kinds.name(i));
        let count: usize = kinds.count(i);
        if count != total {
            r.append("(");
            r.append(to_decimal(count).as_str());
            r.append(")");
        }
        assert(r@ =~= kinds_text(kinds@.take(i + 1), total as nat));
    }
    assert(kinds@.take(n as int) =~= kinds@);
    r
}

/// A title, as it stands above the list of fields.
pub open spec fn fields_title() -> Seq<Seq<SpanView>> {
    seq![
        seq![
            styled(
                Style::Bold,
                "  Field                    Type(s)                        Count"@,
            ),
        ],
        seq![styled(Style::Dimmed, "  "@ + repeated("\u{2500}"@, 64))],
    ]
}

/// What is said of a survey before its fields are listed.
pub open spec fn survey_head(s: SurveyView) -> Seq<Seq<SpanView>> {
    seq![
        Seq::empty(),
        seq![
            styled(Style::Bold, "\u{1f4ca}"@),
            plain(
                " "@ + decimal(s.total_lines) + " lines read, "@ + decimal(s.total_parsed)
                    + " structured entries parsed"@,
            ),
        ],
        Seq::empty(),
    ] + (if s.fields.len() == 0 {
        seq![seq![styled(Style::Yellow, "No structured fields found."@)]]
    } else {
        fields_title()
    })
}

/// The line of a field; `coverage` is the share of entries that have it.
pub open spec fn row_line(row: RowView, coverage: nat) -> Seq<SpanView> {
    seq![
        plain("  "@),
        SpanView { style: Style::Cyan, text: row.name, width: 26 },
        plain(
            " "@ + pad_end(row.types, 30) + " "@ + decimal(row.total) + " ("@ + decimal(coverage)
                + "%)"@,
        ),
    ]
}

impl FieldSurvey {
    /// The fields as they are listed: the most frequent first, each with its
    /// kinds and how often it came up.
    pub fn rows(&self) -> (r: Vec<FieldRow>)
        requires
            self.well_formed(),
        ensures
            row_views(r@) == field_rows(self@.fields),
            r@.len() == self@.fields.len(),
            self@.fields.len() <= usize::MAX,
    {
        let ghost fields = self@.fields;
        let mut totals: Vec<usize> = Vec::new();
        for i in 0..self.fields.len()
            invariant
                self.well_formed(),
                fields == self@.fields,
                fields.len() == self.fields@.len(),
                totals@.len() == i,
                forall|k: int|
                    0 <= k < i ==> totals@[k] == count_sum((#[trigger] fields[k]).kinds),
        {
            assert(fields[i as int] == self.fields@[i as int]@);
            totals.push(sum_of(&self.fields[i].kinds));
        }
        let order = largest_first_positions(&totals);
        proof {
            assert(totals@.map_values(|c: usize| c as nat) =~= field_totals(fields));
            count_ranking_is(field_totals(fields), order@);
        }
        let mut r: Vec<FieldRow> = Vec::new();
        for k in 0..order.len()
            invariant
                fields == self@.fields,
                fields.len() == self.fields@.len(),
                totals@.len() == fields.len(),
                largest_first(field_totals(fields), order@),
                forall|i: int|
                    0 <= i < fields.len() ==> totals@[i] == count_sum((#[trigger] fields[i]).kinds),
                r@.len() == k,
                forall|p: int|
                    0 <= p < k ==> (#[trigger] r@[p])@ == field_row(fields[order@[p] as int]),
        {
            let i: usize = order[k];
            let f = &self.fields[i];
            assert(fields[i as int] == f@);
            let total: usize = totals[i];
            let row = FieldRow {
                name: f.name.clone(),
                types: list_kinds(&f.kinds, total),
                total,
            };
            assert(row@ =~= field_row(fields[i as int]));
            r.push(row);
        }
        assert(row_views(r@) =~= field_rows(fields));
        r
    }

    /// What is said before the fields are listed: how much was read and parsed,
    /// and a title, or that there are no fields.
    pub fn head(&self) -> (r: Vec<Vec<Span>>)
        ensures
            line_views(r@) == survey_head(self@),
    {
        let mut r: Vec<Vec<Span>> = Vec::new();
        push_empty(&mut r);
        let mut l: Vec<Span> = Vec::new();
        l.push(span(Style::Bold, "\u{1f4ca}"));
        let text = String::from_str(" ").concat(to_decimal(self.total_lines).as_str()).concat(
            " lines read, ",
        ).concat(to_decimal(self.total_parsed).as_str()).concat(" structured entries parsed");
        l.push(span(Style::Plain, text.as_str()));
        let ghost so_far = line_views(r@);
        let ghost l_view = span_views(l@);
        r.push(l);
        assert(line_views(r@) =~= so_far.push(l_view));
        push_empty(&mut r);
        if self.fields.len() == 0 {
            push_span(&mut r, Style::Yellow, "No structured fields found.");
        } else {
            push_span(
                &mut r,
                Style::Bold,
                "  Field                    Type(s)                        Count",
            );
            push_span(
                &mut r,
                Style::Dimmed,
                String::from_str("  ").concat(repeat("\u{2500}", 64).as_str()).as_str(),
            );
        }
        proof {
            let s = self@;
            assert(l_view =~= survey_head(s)[1]);
            assert(line_views(r@) =~= survey_head(s));
        }
        r
    }
}

/// Lays out the line of a field.
pub fn format_row(row: &FieldRow, coverage: usize) -> (r: Vec<Span>)
    ensures
        span_views(r@) == row_line(row@, coverage as nat),
{
    let mut r: Vec<Span> = Vec::new();
    r.push(span(Style::Plain, "  "));
    r.push(Span { style: Style::Cyan, text: row.name.clone(), width: 26 });
    let text = String::from_str(" ").concat(left_column(row.types.as_str(), 30).as_str()).concat(
        " ",
    ).concat(to_decimal(row.total).as_str()).concat(" (").concat(
        to_decimal(coverage).as_str(),
    ).concat("%)");
    r.push(span(Style::Plain, text.as_str()));
    assert(span_views(r@) =~= row_line(row@, coverage as nat));
    r
}

/// Every field is listed once, under its name, with its total.
pub proof fn every_field_is_listed(fields: Seq<FieldView>)
    requires
        distinct_fields(fields),
        fields.len() <= usize::MAX,
    ensures
        field_rows(fields).len() == fields.len(),
        forall|i: int, j: int|
            0 <= i < j < fields.len() ==> (#[trigger] field_rows(fields)[i]).name != (
            #[trigger] field_rows(fields)[j]).name,
        forall|k: int|
            0 <= k < fields.len() ==> (#[trigger] field_rows(fields)[k]).total == field_total(
                fields,
                field_rows(fields)[k].name,
            ),
{
    let totals = field_totals(fields);
    let order = count_ranking(totals);
    count_ranking_exists(totals);
    assert forall|k: int| 0 <= k < fields.len() implies (#[trigger] field_rows(fields)[k]).total
        == field_total(fields, field_rows(fields)[k].name) by {
        field_place_from_index(fields, order[k] as int);
    }
}

/// The fields are listed by how often they came up, the most frequent first.
pub proof fn fields_are_listed_by_total(fields: Seq<FieldView>, i: int, j: int)
    requires
        fields.len() <= usize::MAX,
        0 <= i < j < fields.len(),
    ensures
        field_rows(fields)[i].total >= field_rows(fields)[j].total,
{
    let totals = field_totals(fields);
    count_ranking_exists(totals);
    let order = count_ranking(totals);
    assert(totals[order[i] as int] == field_rows(fields)[i].total);
    assert(totals[order[j] as int] == field_rows(fields)[j].total);
}

} // verus!
