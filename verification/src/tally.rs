//! Counting by name.

use crate::order::{largest_first, largest_first_positions};
use crate::text::same_text;
use vstd::prelude::*;
use vstd::string::StringExecFns;

verus! {

/// A name and how often it was counted.
struct Count {
    name: String,
    count: usize,
}

impl Count {
    spec fn view(&self) -> (Seq<char>, nat) {
        (self.name@, self.count as nat)
    }
}

/// Names and counts as they stand in a list.
spec fn count_views(v: Seq<Count>) -> Seq<(Seq<char>, nat)> {
    v.map_values(|c: Count| c@)
}

/// Where `name` stands in the list, or -1.
pub open spec fn place_of(v: Seq<(Seq<char>, nat)>, name: Seq<char>) -> int
    decreases v.len(),
{
    if v.len() == 0 {
        -1
    } else if v.last().0 == name {
        v.len() - 1
    } else {
        place_of(v.drop_last(), name)
    }
}

/// The count of `name`: zero where it was never counted.
pub open spec fn count_of(v: Seq<(Seq<char>, nat)>, name: Seq<char>) -> nat {
    if place_of(v, name) >= 0 {
        v[place_of(v, name)].1
    } else {
        0
    }
}

/// The counts with `n` more for `name`, which takes a place at the end when it
/// is counted for the first time.
pub open spec fn counted(
    v: Seq<(Seq<char>, nat)>,
    name: Seq<char>,
    n: nat,
) -> Seq<(Seq<char>, nat)> {
    let i = place_of(v, name);
    if i >= 0 {
        v.update(i, (name, v[i].1 + n))
    } else {
        v.push((name, n))
    }
}

/// No name has two counts.
pub open spec fn distinct_names(v: Seq<(Seq<char>, nat)>) -> bool {
    forall|i: int, j: int| 0 <= i < j < v.len() ==> (#[trigger] v[i]).0 != (#[trigger] v[j]).0
}

/// The sum of all counts.
pub open spec fn count_sum(v: Seq<(Seq<char>, nat)>) -> nat
    decreases v.len(),
{
    if v.len() == 0 {
        0
    } else {
        count_sum(v.drop_last()) + v.last().1
    }
}

/// A name has a place exactly where it stands in the list.
pub proof fn place_is_right(v: Seq<(Seq<char>, nat)>, name: Seq<char>)
    ensures
        -1 <= place_of(v, name) < v.len(),
        place_of(v, name) >= 0 ==> v[place_of(v, name)].0 == name,
        place_of(v, name) < 0 ==> forall|i: int| 0 <= i < v.len() ==> (#[trigger] v[i]).0 != name,
    decreases v.len(),
{
    if v.len() > 0 && v.last().0 != name {
        place_is_right(v.drop_last(), name);
        if place_of(v, name) < 0 {
            assert forall|i: int| 0 <= i < v.len() implies (#[trigger] v[i]).0 != name by {
                if i < v.len() - 1 {
                    assert(v.drop_last()[i].0 != name);
                }
            }
        }
    }
}

proof fn place_from_index(v: Seq<(Seq<char>, nat)>, i: int)
    requires
        distinct_names(v),
        0 <= i < v.len(),
    ensures
        place_of(v, v[i].0) == i,
{
    place_is_right(v, v[i].0);
}

proof fn sum_after_update(v: Seq<(Seq<char>, nat)>, i: int, e: (Seq<char>, nat))
    requires
        0 <= i < v.len(),
    ensures
        count_sum(v.update(i, e)) == count_sum(v) - v[i].1 + e.1,
    decreases v.len(),
{
    let w = v.update(i, e);
    if i == v.len() - 1 {
        assert(w.drop_last() =~= v.drop_last());
    } else {
        assert(w.drop_last() =~= v.drop_last().update(i, e));
        sum_after_update(v.drop_last(), i, e);
    }
}

/// Counting `name` adds to its own count and to no other, adds as much to the
/// sum of all counts, and gives no name a second count.
pub proof fn counted_adds(v: Seq<(Seq<char>, nat)>, name: Seq<char>, n: nat)
    requires
        distinct_names(v),
    ensures
        distinct_names(counted(v, name, n)),
        count_of(counted(v, name, n), name) == count_of(v, name) + n,
        forall|other: Seq<char>|
            other != name ==> #[trigger] count_of(counted(v, name, n), other) == count_of(v, other),
        count_sum(counted(v, name, n)) == count_sum(v) + n,
{
    let w = counted(v, name, n);
    let p = place_of(v, name);
    place_is_right(v, name);
    assert(distinct_names(w));
    if p >= 0 {
        sum_after_update(v, p, (name, v[p].1 + n));
        place_from_index(w, p);
    } else {
        assert(w.drop_last() =~= v);
        place_from_index(w, v.len() as int);
    }
    assert forall|other: Seq<char>| other != name implies #[trigger] count_of(w, other) == count_of(
        v,
        other,
    ) by {
        place_is_right(v, other);
        place_is_right(w, other);
        let q = place_of(v, other);
        if q >= 0 {
            assert(w[q].0 == other);
            place_from_index(w, q);
        } else if place_of(w, other) >= 0 {
            let r = place_of(w, other);
            if r < v.len() {
                assert(v[r].0 == other);
            }
        }
    }
}

/// The count of one name is at most the sum of all.
pub proof fn count_within_sum(v: Seq<(Seq<char>, nat)>, name: Seq<char>)
    ensures
        count_of(v, name) <= count_sum(v),
    decreases v.len(),
{
    place_is_right(v, name);
    if v.len() > 0 && v.last().0 != name {
        count_within_sum(v.drop_last(), name);
    }
}

/// The first counts of a list add up to no more than all of them.
pub proof fn sum_grows(v: Seq<(Seq<char>, nat)>, i: int)
    requires
        0 <= i <= v.len(),
    ensures
        count_sum(v.take(i)) <= count_sum(v),
    decreases v.len() - i,
{
    if i < v.len() {
        sum_grows(v, i + 1);
        assert(v.take(i + 1).drop_last() =~= v.take(i));
    } else {
        assert(v.take(i) =~= v);
    }
}

/// A list of counts by name, in the order in which the names first came up.
pub struct Tally {
    counts: Vec<Count>,
}

impl Tally {
    /// The names and their counts.
    pub closed spec fn view(&self) -> Seq<(Seq<char>, nat)> {
        count_views(self.counts@)
    }

    #[verifier::type_invariant]
    spec fn inv(self) -> bool {
        distinct_names(count_views(self.counts@))
    }

    /// A tally of nothing.
    pub fn new() -> (r: Tally)
        ensures
            r@ == Seq::<(Seq<char>, nat)>::empty(),
    {
        let r = Tally { counts: Vec::new() };
        assert(r@ =~= Seq::<(Seq<char>, nat)>::empty());
        r
    }

    /// The number of names, each of which stands once.
    pub fn len(&self) -> (r: usize)
        ensures
            r == self@.len(),
            distinct_names(self@),
    {
        proof {
            use_type_invariant(self);
        }
        self.counts.len()
    }

    /// The `i`-th name.
    pub fn name(&self, i: usize) -> (r: &str)
        requires
            i < self@.len(),
        ensures
            r@ == self@[i as int].0,
    {
        self.counts[i].name.as_str()
    }

    /// The count of the `i`-th name.
    pub fn count(&self, i: usize) -> (r: usize)
        requires
            i < self@.len(),
        ensures
            r == self@[i as int].1,
    {
        self.counts[i].count
    }

    /// Where `name` stands.
    fn find(&self, name: &str) -> (r: Option<usize>)
        ensures
            r is Some <==> place_of(self@, name@) >= 0,
            r matches Some(i) ==> place_of(self@, name@) == i && i < self@.len(),
    {
        proof {
            use_type_invariant(self);
            place_is_right(self@, name@);
        }
        let n: usize = self.counts.len();
        for i in 0..n
            invariant
                n == self.counts@.len(),
                self@.len() == n,
                distinct_names(self@),
                forall|k: int| 0 <= k < i ==> (#[trigger] self@[k]).0 != name@,
        {
            assert(self@[i as int].0 == self.counts@[i as int].name@);
            if same_text(self.counts[i].name.as_str(), name) {
                proof {
                    place_from_index(self@, i as int);
                }
                return Some(i);
            }
        }
        None
    }

    /// The count of `name`: zero where it was never counted.
    pub fn get(&self, name: &str) -> (r: usize)
        ensures
            r == count_of(self@, name@),
    {
        match self.find(name) {
            Some(i) => self.count(i),
            None => 0,
        }
    }

    /// Counts `name` `n` times.
    pub fn add(&mut self, name: &str, n: usize)
        requires
            count_of(old(self)@, name@) + n <= usize::MAX,
        ensures
            final(self)@ == counted(old(self)@, name@, n as nat),
            distinct_names(final(self)@),
    {
        proof {
            use_type_invariant(&*self);
            counted_adds(self@, name@, n as nat);
        }
        let ghost before = self@;
        let mut counts: Vec<Count> = Vec::new();
        match self.find(name) {
            Some(i) => {
                let total: usize = self.count(i) + n;
                std::mem::swap(&mut counts, &mut self.counts);
                counts.set(i, Count { name: String::from_str(name), count: total });
            },
            None => {
                std::mem::swap(&mut counts, &mut self.counts);
                counts.push(Count { name: String::from_str(name), count: n });
            },
        }
        assert(count_views(counts@) =~= counted(before, name@, n as nat));
        self.counts = counts;
    }

    /// The positions of the names, the most frequent first.
    pub fn most_frequent(&self) -> (r: Vec<usize>)
        ensures
            largest_first(self@.map_values(|c: (Seq<char>, nat)| c.1), r@),
    {
        let mut ns: Vec<usize> = Vec::new();
        for i in 0..self.counts.len()
            invariant
                ns@.len() == i,
                self@.len() == self.counts@.len(),
                forall|k: int| 0 <= k < i ==> ns@[k] == (#[trigger] self@[k]).1,
        {
            ns.push(self.counts[i].count);
        }
        assert(ns@.map_values(|c: usize| c as nat) =~= self@.map_values(
            |c: (Seq<char>, nat)| c.1,
        ));
        largest_first_positions(&ns)
    }
}

} // verus!
