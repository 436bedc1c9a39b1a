//! Snapshots: the values of a set of named counters at one moment.
//!
//! A snapshot is a finite map from names to values. It is kept as a list of
//! counters in ascending order of their names, so that no name occurs twice
//! and every walk over a snapshot meets the names in the same order.

use vstd::prelude::*;
use crate::names::{compare_names, lemma_name_lt_transitive, lemma_name_trichotomy, name_lt, Rank};

verus! {

/// One counter: its name and its value.
#[derive(Clone, Debug, PartialEq, Eq)]
pub struct Counter {
    pub name: String,
    pub value: u128,
}

/// Each name sorts before all that follow it.
pub open spec fn ascending(names: Seq<Seq<char>>) -> bool {
    forall|i: int, j: int| 0 <= i < j < names.len() ==> name_lt(names[i], names[j])
}

/// The map that pairs each name with the value at the same index.
pub open spec fn table(names: Seq<Seq<char>>, values: Seq<u128>) -> Map<Seq<char>, u128> {
    Map::new(|k: Seq<char>| names.contains(k), |k: Seq<char>| values[names.index_of(k)])
}

/// The value of `name` in `m`, if it has one.
pub open spec fn lookup(m: Map<Seq<char>, u128>, name: Seq<char>) -> Option<u128> {
    if m.dom().contains(name) {
        Some(m[name])
    } else {
        None
    }
}

/// In an ascending list a name stands at one index only.
pub proof fn lemma_ascending_distinct(names: Seq<Seq<char>>, i: int, j: int)
    requires
        ascending(names),
        0 <= i < names.len(),
        0 <= j < names.len(),
        names[i] == names[j],
    ensures
        i == j,
{
    lemma_name_trichotomy(names[i], names[j]);
}

/// The table of an ascending list holds each name with the value beside it.
pub proof fn lemma_table_at(names: Seq<Seq<char>>, values: Seq<u128>, i: int)
    requires
        ascending(names),
        0 <= i < names.len(),
    ensures
        table(names, values).dom().contains(names[i]),
        table(names, values)[names[i]] == values[i],
{
    assert(names.contains(names[i]));
    lemma_ascending_distinct(names, i, names.index_of(names[i]));
}

/// `names` are the names that `m` holds, in ascending order.
pub open spec fn lists(names: Seq<Seq<char>>, m: Map<Seq<char>, u128>) -> bool {
    &&& ascending(names)
    &&& forall|k: Seq<char>| names.contains(k) <==> m.dom().contains(k)
}

/// The names that `m` holds, in ascending order.
pub open spec fn names_of(m: Map<Seq<char>, u128>) -> Seq<Seq<char>> {
    choose|names: Seq<Seq<char>>| lists(names, m)
}

/// Two ascending lists of the same names are one list.
pub proof fn lemma_ascending_unique(a: Seq<Seq<char>>, b: Seq<Seq<char>>)
    requires
        ascending(a),
        ascending(b),
        forall|k: Seq<char>| a.contains(k) <==> b.contains(k),
    ensures
        a == b,
    decreases a.len(),
{
    if a.len() == 0 {
        if b.len() > 0 {
            assert(b.contains(b[0]));
        }
        assert(a =~= b);
    } else {
        let x = a.last();
        assert(a.contains(x));
        let j = b.index_of(x);
        if j != b.len() - 1 {
            let y = b.last();
            assert(name_lt(b[j], y));
            assert(b.contains(y));
            let i = a.index_of(y);
            if i != a.len() - 1 {
                assert(name_lt(a[i], x));
            }
            lemma_name_trichotomy(x, y);
        }
        let a0 = a.drop_last();
        let b0 = b.drop_last();
        assert forall|k: Seq<char>| a0.contains(k) <==> b0.contains(k) by {
            if a0.contains(k) {
                let i = a0.index_of(k);
                assert(a[i] == k);
                assert(name_lt(a[i], x));
                lemma_name_trichotomy(k, x);
                assert(a.contains(k));
                let h = b.index_of(k);
                assert(b0[h] == k);
            }
            if b0.contains(k) {
                let i = b0.index_of(k);
                assert(b[i] == k);
                assert(name_lt(b[i], x));
                lemma_name_trichotomy(k, x);
                assert(b.contains(k));
                let h = a.index_of(k);
                assert(a0[h] == k);
            }
        }
        assert(ascending(a0));
        assert(ascending(b0));
        lemma_ascending_unique(a0, b0);
        assert(a =~= a0.push(x));
        assert(b =~= b0.push(x));
    }
}

/// An ascending list is the list of the names of its table.
pub proof fn lemma_names_of_table(names: Seq<Seq<char>>, values: Seq<u128>)
    requires
        ascending(names),
    ensures
        names_of(table(names, values)) == names,
{
    let m = table(names, values);
    assert(lists(names, m));
    lemma_ascending_unique(names_of(m), names);
}

/// The map that a list of pairs builds when each pair in turn gives its name
/// its value.
pub open spec fn pairs_table(pairs: Seq<(Seq<char>, u128)>) -> Map<Seq<char>, u128>
    decreases pairs.len(),
{
    if pairs.len() == 0 {
        Map::empty()
    } else {
        pairs_table(pairs.drop_last()).insert(pairs.last().0, pairs.last().1)
    }
}

/// No name stands twice in a list of pairs.
pub open spec fn names_differ(pairs: Seq<(Seq<char>, u128)>) -> bool {
    forall|a: int, b: int| 0 <= a < b < pairs.len() ==> pairs[a].0 != pairs[b].0
}

/// The table of a list of pairs holds the names of the list and no others.
pub proof fn lemma_pairs_table_names(pairs: Seq<(Seq<char>, u128)>)
    ensures
        forall|k: Seq<char>|
            pairs_table(pairs).dom().contains(k) <==> exists|i: int|
                0 <= i < pairs.len() && (#[trigger] pairs[i]).0 == k,
    decreases pairs.len(),
{
    if pairs.len() > 0 {
        let init = pairs.drop_last();
        lemma_pairs_table_names(init);
        assert forall|k: Seq<char>|
            pairs_table(pairs).dom().contains(k) <==> exists|i: int|
                0 <= i < pairs.len() && (#[trigger] pairs[i]).0 == k by {
            if pairs_table(init).dom().contains(k) {
                let i = choose|i: int| 0 <= i < init.len() && (#[trigger] init[i]).0 == k;
                assert(pairs[i].0 == k);
            }
            if k == pairs.last().0 {
                assert(pairs[pairs.len() - 1].0 == k);
            }
            if exists|i: int| 0 <= i < pairs.len() && (#[trigger] pairs[i]).0 == k {
                let i = choose|i: int| 0 <= i < pairs.len() && (#[trigger] pairs[i]).0 == k;
                if i < init.len() {
                    assert(init[i].0 == k);
                }
            }
        }
    }
}

/// Where no name stands twice in a list of pairs, its table gives each name
/// the value beside it.
pub proof fn lemma_pairs_table_at(pairs: Seq<(Seq<char>, u128)>, i: int)
    requires
        names_differ(pairs),
        0 <= i < pairs.len(),
    ensures
        pairs_table(pairs).dom().contains(pairs[i].0),
        pairs_table(pairs)[pairs[i].0] == pairs[i].1,
    decreases pairs.len(),
{
    let init = pairs.drop_last();
    if i < pairs.len() - 1 {
        assert(names_differ(init)) by {
            assert forall|a: int, b: int| 0 <= a < b < init.len() implies init[a].0
                != init[b].0 by {
                assert(init[a] == pairs[a] && init[b] == pairs[b]);
            }
        }
        lemma_pairs_table_at(init, i);
        assert(init[i] == pairs[i]);
        assert(pairs[i].0 != pairs[pairs.len() - 1].0);
    }
}

/// A greater name put behind an ascending list adds one entry to its table.
pub proof fn lemma_table_push(
    names: Seq<Seq<char>>,
    values: Seq<u128>,
    name: Seq<char>,
    value: u128,
)
    requires
        ascending(names),
        names.len() == values.len(),
        forall|i: int| 0 <= i < names.len() ==> name_lt(#[trigger] names[i], name),
    ensures
        ascending(names.push(name)),
        table(names.push(name), values.push(value)) == table(names, values).insert(name, value),
{
    let longer = names.push(name);
    let after = table(longer, values.push(value));
    let wanted = table(names, values).insert(name, value);
    assert(ascending(longer)) by {
        assert forall|i: int, j: int| 0 <= i < j < longer.len() implies name_lt(
            longer[i],
            longer[j],
        ) by {
            if j < names.len() {
                assert(name_lt(names[i], names[j]));
            }
        }
    }
    assert forall|k: Seq<char>| after.dom().contains(k) <==> wanted.dom().contains(k) by {
        if names.contains(k) {
            let i = names.index_of(k);
            assert(longer[i] == k);
        }
        assert(longer[names.len() as int] == name);
    }
    assert forall|k: Seq<char>| after.dom().contains(k) implies after[k] == wanted[k] by {
        let i = longer.index_of(k);
        lemma_table_at(longer, values.push(value), i);
        if i < names.len() {
            lemma_table_at(names, values, i);
            lemma_name_trichotomy(names[i], name);
        }
    }
    assert(after =~= wanted);
}

/// The values of a set of named counters at one moment.
#[derive(Debug, PartialEq, Eq)]
pub struct CounterSnapshot {
    pub(crate) entries: Vec<Counter>,
}

impl View for CounterSnapshot {
    type V = Map<Seq<char>, u128>;

    /// The snapshot as a map from names to values.
    open spec fn view(&self) -> Map<Seq<char>, u128> {
        table(self.names(), self.values())
    }
}

impl CounterSnapshot {
    /// The names of the snapshot, in ascending order.
    pub closed spec fn names(&self) -> Seq<Seq<char>> {
        Seq::new(self.entries@.len(), |i: int| self.entries@[i].name@)
    }

    /// The values of the snapshot, each at the index of its name.
    pub closed spec fn values(&self) -> Seq<u128> {
        Seq::new(self.entries@.len(), |i: int| self.entries@[i].value)
    }

    /// What holds of every snapshot: a value for each name, and the names in
    /// ascending order.
    #[verifier::type_invariant]
    pub open spec fn wf(&self) -> bool {
        &&& self.names().len() == self.values().len()
        &&& ascending(self.names())
    }

    /// A snapshot of no counters.
    pub fn new() -> (r: Self)
        ensures
            r.names().len() == 0,
            r@ == Map::<Seq<char>, u128>::empty(),
    {
        let r = CounterSnapshot { entries: Vec::new() };
        assert(r@ =~= Map::<Seq<char>, u128>::empty());
        r
    }

    /// The names of a snapshot are those of its map, in ascending order.
    pub proof fn lemma_names(&self)
        requires
            self.wf(),
        ensures
            self.names() == names_of(self@),
    {
        lemma_names_of_table(self.names(), self.values());
    }

    /// The number of counters.
    pub fn len(&self) -> (n: usize)
        ensures
            n == self.names().len(),
            n == self.values().len(),
            n == names_of(self@).len(),
    {
        proof {
            use_type_invariant(self);
            self.lemma_names();
        }
        self.entries.len()
    }

    /// The counters of the snapshot, in ascending order of their names.
    pub fn counters(&self) -> (r: &Vec<Counter>)
        ensures
            r@.len() == self.names().len(),
            forall|i: int|
                0 <= i < r@.len() ==> (#[trigger] r@[i]).name@ == self.names()[i] && r@[i].value
                    == self.values()[i],
    {
        &self.entries
    }

    /// The name at index `i` of the ascending order.
    pub fn name_at(&self, i: usize) -> (r: &String)
        requires
            i < self.names().len(),
        ensures
            r@ == self.names()[i as int],
    {
        &self.entries[i].name
    }

    /// The value at index `i` of the ascending order.
    pub fn value_at(&self, i: usize) -> (v: u128)
        requires
            i < self.names().len(),
        ensures
            v == self.values()[i as int],
            self@.dom().contains(self.names()[i as int]),
            v == self@[self.names()[i as int]],
    {
        proof {
            use_type_invariant(self);
            lemma_table_at(self.names(), self.values(), i as int);
        }
        self.entries[i].value
    }

    /// Looks for `name`. Where it is found, the result is `true` and its
    /// index. Where it is not, the result is `false` and the index at which
    /// it would stand: behind all names that sort before it.
    pub fn search(&self, name: &str) -> (r: (bool, usize))
        ensures
            r.1 <= self.names().len(),
            r.0 ==> r.1 < self.names().len() && self.names()[r.1 as int] == name@,
            r.0 <==> self.names().contains(name@),
            r.0 <==> self@.dom().contains(name@),
            forall|i: int| 0 <= i < r.1 ==> name_lt(#[trigger] self.names()[i], name@),
            forall|i: int|
                r.1 <= i < self.names().len() && !(r.0 && i == r.1) ==> name_lt(
                    name@,
                    #[trigger] self.names()[i],
                ),
    {
        proof {
            use_type_invariant(self);
        }
        let ghost names = self.names();
        let mut lo: usize = 0;
        let mut hi: usize = self.entries.len();
        while lo < hi
            invariant
                lo <= hi <= names.len(),
                names == self.names(),
                names.len() == self.entries@.len(),
                ascending(names),
                forall|i: int| 0 <= i < lo ==> name_lt(#[trigger] names[i], name@),
                forall|i: int| hi <= i < names.len() ==> name_lt(name@, #[trigger] names[i]),
            decreases hi - lo,
        {
            let mid: usize = lo + (hi - lo) / 2;
            let rank = compare_names(self.entries[mid].name.as_str(), name);
            assert(self.entries@[mid as int].name@ == names[mid as int]);
            match rank {
                Rank::Same => {
                    proof {
                        assert forall|i: int| 0 <= i < mid implies name_lt(
                            #[trigger] names[i],
                            name@,
                        ) by {}
                        assert forall|i: int| mid < i < names.len() implies name_lt(
                            name@,
                            #[trigger] names[i],
                        ) by {}
                    }
                    return (true, mid);
                },
                Rank::Before => {
                    proof {
                        assert forall|i: int| 0 <= i < mid + 1 implies name_lt(
                            #[trigger] names[i],
                            name@,
                        ) by {
                            if i < mid {
                                lemma_name_lt_transitive(names[i], names[mid as int], name@);
                            }
                        }
                    }
                    lo = mid + 1;
                },
                Rank::After => {
                    proof {
                        assert forall|i: int| mid <= i < names.len() implies name_lt(
                            name@,
                            #[trigger] names[i],
                        ) by {
                            if mid < i {
                                lemma_name_lt_transitive(name@, names[mid as int], names[i]);
                            }
                        }
                    }
                    hi = mid;
                },
            }
        }
        proof {
            if names.contains(name@) {
                let i = names.index_of(name@);
                lemma_name_trichotomy(names[i], name@);
            }
        }
        (false, lo)
    }

    /// The value of `name`, if the snapshot holds it.
    pub fn get(&self, name: &str) -> (r: Option<u128>)
        ensures
            r == lookup(self@, name@),
    {
        let (found, at) = self.search(name);
        if found {
            Some(self.value_at(at))
        } else {
            None
        }
    }

    /// Whether the snapshot holds `name`.
    pub fn contains(&self, name: &str) -> (r: bool)
        ensures
            r == self@.dom().contains(name@),
    {
        self.search(name).0
    }

    /// Gives `name` the value `value`, whether or not it had one.
    pub fn insert(&mut self, name: String, value: u128)
        ensures
            final(self)@ == old(self)@.insert(name@, value),
    {
        proof {
            use_type_invariant(&*self);
        }
        let ghost old_names = self.names();
        let ghost old_values = self.values();
        let ghost key = name@;
        let (found, at) = self.search(name.as_str());
        let mut entries: Vec<Counter> = Vec::new();
        core::mem::swap(&mut entries, &mut self.entries);
        if found {
            entries.set(at, Counter { name, value });
        } else {
            entries.insert(at, Counter { name, value });
        }
        let ghost new_names = Seq::new(entries@.len(), |i: int| entries@[i].name@);
        let ghost new_values = Seq::new(entries@.len(), |i: int| entries@[i].value);
        proof {
            if found {
                assert(new_names =~= old_names);
                assert(new_values =~= old_values.update(at as int, value));
            } else {
                assert(new_names =~= old_names.insert(at as int, key));
                assert(new_values =~= old_values.insert(at as int, value));
                assert forall|i: int, j: int| 0 <= i < j < new_names.len() implies name_lt(
                    new_names[i],
                    new_names[j],
                ) by {
                    if j < at {
                        assert(name_lt(old_names[i], old_names[j]));
                    } else if j == at {
                        assert(name_lt(old_names[i], key));
                    } else if i < at {
                        assert(name_lt(old_names[i], old_names[j - 1]));
                    } else if i == at {
                        assert(name_lt(key, old_names[j - 1]));
                    } else {
                        assert(name_lt(old_names[i - 1], old_names[j - 1]));
                    }
                }
            }
            assert(ascending(new_names));
        }
        self.entries = entries;
        proof {
            assert(self.names() =~= new_names);
            assert(self.values() =~= new_values);
            let after = table(new_names, new_values);
            let wanted = table(old_names, old_values).insert(key, value);
            assert forall|k: Seq<char>| after.dom().contains(k) <==> wanted.dom().contains(
                k,
            ) by {
                if found {
                } else {
                    if old_names.contains(k) {
                        let i = old_names.index_of(k);
                        if i < at {
                            assert(new_names[i] == k);
                        } else {
                            assert(new_names[i + 1] == k);
                        }
                    }
                    if new_names.contains(k) && k != key {
                        let i = new_names.index_of(k);
                        if i < at {
                            assert(old_names[i] == k);
                        } else {
                            assert(old_names[i - 1] == k);
                        }
                    }
                    assert(new_names[at as int] == key);
                }
            }
            assert forall|k: Seq<char>| after.dom().contains(k) implies after[k] == wanted[k] by {
                let i = new_names.index_of(k);
                lemma_table_at(new_names, new_values, i);
                if k == key {
                    lemma_ascending_distinct(new_names, i, at as int);
                } else if found {
                    lemma_table_at(old_names, old_values, i);
                } else if i < at {
                    lemma_table_at(old_names, old_values, i);
                } else {
                    lemma_table_at(old_names, old_values, i - 1);
                }
            }
            assert(after =~= wanted);
        }
    }

    /// Adds a counter whose name sorts behind every name of the snapshot.
    pub fn append(&mut self, name: String, value: u128)
        requires
            forall|i: int|
                0 <= i < old(self).names().len() ==> name_lt(
                    #[trigger] old(self).names()[i],
                    name@,
                ),
        ensures
            final(self).names() == old(self).names().push(name@),
            final(self).values() == old(self).values().push(value),
            final(self)@ == old(self)@.insert(name@, value),
    {
        proof {
            use_type_invariant(&*self);
        }
        let ghost old_names = self.names();
        let ghost old_values = self.values();
        let ghost key = name@;
        let mut entries: Vec<Counter> = Vec::new();
        core::mem::swap(&mut entries, &mut self.entries);
        entries.push(Counter { name, value });
        let ghost new_names = Seq::new(entries@.len(), |i: int| entries@[i].name@);
        let ghost new_values = Seq::new(entries@.len(), |i: int| entries@[i].value);
        proof {
            assert(new_names =~= old_names.push(key));
            assert(new_values =~= old_values.push(value));
            assert forall|i: int, j: int| 0 <= i < j < new_names.len() implies name_lt(
                new_names[i],
                new_names[j],
            ) by {
                if j < old_names.len() {
                    assert(name_lt(old_names[i], old_names[j]));
                } else {
                    assert(name_lt(old_names[i], key));
                }
            }
        }
        self.entries = entries;
        proof {
            assert(self.names() =~= new_names);
            assert(self.values() =~= new_values);
            lemma_table_push(old_names, old_values, key, value);
        }
    }

    /// The names of the snapshot, in ascending order.
    pub fn name_list(&self) -> (r: Vec<String>)
        ensures
            r@.len() == self.names().len(),
            forall|i: int| 0 <= i < r@.len() ==> (#[trigger] r@[i])@ == self.names()[i],
    {
        let mut r: Vec<String> = Vec::new();
        let mut i: usize = 0;
        while i < self.entries.len()
            invariant
                i <= self.entries@.len(),
                r@.len() == i,
                forall|j: int| 0 <= j < i ==> (#[trigger] r@[j])@ == self.names()[j],
            decreases self.entries@.len() - i,
        {
            r.push(self.entries[i].name.clone());
            i += 1;
        }
        r
    }

    /// The snapshot that holds each name of `pairs` with the value of its
    /// last occurrence.
    pub fn from_pairs(pairs: Vec<(String, u128)>) -> (r: Self)
        ensures
            r@ == pairs_table(pairs.deep_view()),
    {
        let mut r = CounterSnapshot::new();
        let mut i: usize = 0;
        assert(pairs.deep_view().take(0) =~= Seq::empty());
        while i < pairs.len()
            invariant
                i <= pairs@.len(),
                r@ == pairs_table(pairs.deep_view().take(i as int)),
            decreases pairs@.len() - i,
        {
            let name = pairs[i].0.clone();
            let value = pairs[i].1;
            proof {
                let all = pairs.deep_view();
                assert(all.take(i + 1).drop_last() =~= all.take(i as int));
                assert(all.take(i + 1).last() == (name@, value));
            }
            r.insert(name, value);
            i += 1;
        }
        assert(pairs.deep_view().take(pairs@.len() as int) =~= pairs.deep_view());
        r
    }
}

impl Clone for CounterSnapshot {
    /// A second snapshot of the same counters.
    fn clone(&self) -> (r: Self)
        ensures
            r.names() == self.names(),
            r.values() == self.values(),
            r@ == self@,
    {
        proof {
            use_type_invariant(self);
        }
        let mut entries: Vec<Counter> = Vec::new();
        let mut i: usize = 0;
        while i < self.entries.len()
            invariant
                i <= self.entries@.len(),
                entries@.len() == i,
                forall|j: int|
                    0 <= j < i ==> (#[trigger] entries@[j]).name@ == self.entries@[j].name@
                        && entries@[j].value == self.entries@[j].value,
            decreases self.entries@.len() - i,
        {
            let name = self.entries[i].name.clone();
            entries.push(Counter { name, value: self.entries[i].value });
            i += 1;
        }
        proof {
            let names = Seq::new(entries@.len(), |i: int| entries@[i].name@);
            let values = Seq::new(entries@.len(), |i: int| entries@[i].value);
            assert(names =~= self.names());
            assert(values =~= self.values());
        }
        let r = CounterSnapshot { entries };
        proof {
            assert(r.names() =~= self.names());
            assert(r.values() =~= self.values());
        }
        r
    }
}

} // verus!
