//! The rows of the table and the orders in which they are shown.
//!
//! A counter has a row where all three of the current snapshot, the deltas
//! since the last refresh and the deltas since the baseline hold its name,
//! and its delta since the baseline is not zero. The rows are shown in one of
//! three orders: by name, in the order of the catalog, or by the delta since
//! the baseline with the greatest first. Rows with the same delta since the
//! baseline stand in the order of their names.

use vstd::prelude::*;
use vstd::multiset::Multiset;
use crate::catalog::{catalog, catalog_name, CATALOG_LEN};
use crate::diff::DiffSnapshot;
use crate::names::{compare_names, lemma_name_lt_transitive, lemma_name_trichotomy, name_lt, Rank};
use crate::snapshot::{ascending, names_of, CounterSnapshot};
use crate::source::Backend;

verus! {

/// The order of the rows.
#[derive(Clone, Copy, Debug, PartialEq, Eq, Structural)]
pub enum SortedBy {
    /// By name, ascending.
    AlphabeticalAscending,
    /// In the order of the catalog. Only the binary backend has it.
    CounterIDsAscending,
    /// By the delta since the baseline, the greatest first.
    DifferentialDescending,
}

impl SortedBy {
    /// The backend offers this order.
    pub open spec fn supported(self, backend: Backend) -> bool {
        backend == Backend::Binary || self != SortedBy::CounterIDsAscending
    }

    /// The order that follows this one in the rotation of the backend.
    pub open spec fn successor(self, backend: Backend) -> SortedBy {
        match self {
            SortedBy::AlphabeticalAscending => if backend == Backend::Binary {
                SortedBy::CounterIDsAscending
            } else {
                SortedBy::DifferentialDescending
            },
            SortedBy::CounterIDsAscending => SortedBy::DifferentialDescending,
            SortedBy::DifferentialDescending => SortedBy::AlphabeticalAscending,
        }
    }

    /// The order after `steps` steps of the rotation.
    pub open spec fn after(self, backend: Backend, steps: nat) -> SortedBy
        decreases steps,
    {
        if steps == 0 {
            self
        } else {
            self.after(backend, (steps - 1) as nat).successor(backend)
        }
    }

    /// The name of the order, as the table's header shows it.
    pub open spec fn label(self) -> Seq<char> {
        match self {
            SortedBy::AlphabeticalAscending => "AlphabeticalAscending"@,
            SortedBy::CounterIDsAscending => "CounterIDsAscending"@,
            SortedBy::DifferentialDescending => "DifferentialDescending"@,
        }
    }

    /// The order that follows this one in the rotation of the backend.
    pub fn toggle(&self, backend: Backend) -> (r: SortedBy)
        ensures
            r == self.successor(backend),
    {
        match self {
            SortedBy::AlphabeticalAscending => match backend {
                Backend::Binary => SortedBy::CounterIDsAscending,
                Backend::Text => SortedBy::DifferentialDescending,
            },
            SortedBy::CounterIDsAscending => SortedBy::DifferentialDescending,
            SortedBy::DifferentialDescending => SortedBy::AlphabeticalAscending,
        }
    }

    /// The name of the order, as the table's header shows it.
    pub fn print(&self) -> (r: String)
        ensures
            r@ == self.label(),
    {
        match self {
            SortedBy::AlphabeticalAscending => "AlphabeticalAscending".to_owned(),
            SortedBy::CounterIDsAscending => "CounterIDsAscending".to_owned(),
            SortedBy::DifferentialDescending => "DifferentialDescending".to_owned(),
        }
    }
}

/// The number of orders that a backend offers.
pub open spec fn order_count(backend: Backend) -> nat {
    match backend {
        Backend::Binary => 3,
        Backend::Text => 2,
    }
}

/// The number of orders that a backend offers.
pub fn supported_orders(backend: Backend) -> (n: usize)
    ensures
        n == order_count(backend),
{
    match backend {
        Backend::Binary => 3,
        Backend::Text => 2,
    }
}

/// The rotation ends where it began: from an order that the backend offers,
/// as many steps as the backend has orders lead back to that order. Every
/// step leads to an order that the backend offers.
pub proof fn law_rotation_returns(order: SortedBy, backend: Backend)
    ensures
        order.successor(backend).supported(backend),
        order.supported(backend) ==> order.after(backend, order_count(backend)) == order,
{
    reveal_with_fuel(SortedBy::after, 4);
}

/// One row of the table.
#[derive(Clone, Debug, PartialEq, Eq)]
pub struct SortedRow {
    /// The counter's name.
    pub name: String,
    /// Its delta since the last refresh.
    pub last: u128,
    /// Its delta since the baseline.
    pub total: u128,
}

/// A row as plain values.
pub struct RowModel {
    pub name: Seq<char>,
    pub last: u128,
    pub total: u128,
}

impl View for SortedRow {
    type V = RowModel;

    open spec fn view(&self) -> RowModel {
        RowModel { name: self.name@, last: self.last, total: self.total }
    }
}

/// The rows of a list as plain values.
pub open spec fn row_models(rows: Seq<SortedRow>) -> Seq<RowModel> {
    Seq::new(rows.len(), |i: int| rows[i]@)
}

/// The row of `name`, where it has one.
pub open spec fn row_of(
    name: Seq<char>,
    current: Map<Seq<char>, u128>,
    last: Map<Seq<char>, u128>,
    total: Map<Seq<char>, u128>,
) -> Option<RowModel> {
    if current.dom().contains(name) && last.dom().contains(name) && total.dom().contains(name)
        && total[name] != 0 {
        Some(RowModel { name, last: last[name], total: total[name] })
    } else {
        None
    }
}

/// The rows of the names of a list, in the order of the list.
pub open spec fn rows_of(
    names: Seq<Seq<char>>,
    current: Map<Seq<char>, u128>,
    last: Map<Seq<char>, u128>,
    total: Map<Seq<char>, u128>,
) -> Seq<RowModel>
    decreases names.len(),
{
    if names.len() == 0 {
        Seq::empty()
    } else {
        let before = rows_of(names.drop_last(), current, last, total);
        match row_of(names.last(), current, last, total) {
            Some(row) => before.push(row),
            None => before,
        }
    }
}

/// The beginning of the catalog that the catalog order walks: as many names
/// as the current snapshot holds, or the whole catalog where it holds more.
pub open spec fn catalog_walk(known: nat) -> Seq<Seq<char>> {
    if known < catalog().len() {
        catalog().take(known as int)
    } else {
        catalog()
    }
}

/// `a` is shown above `b` in the differential order: its delta since the
/// baseline is greater, or the same while its name sorts first.
pub open spec fn ranks_before(a: RowModel, b: RowModel) -> bool {
    a.total > b.total || (a.total == b.total && name_lt(a.name, b.name))
}

/// No row stands below one that it ranks before.
pub open spec fn ranked(rows: Seq<RowModel>) -> bool {
    forall|i: int, j: int| 0 <= i < j < rows.len() ==> !ranks_before(rows[j], rows[i])
}

/// `rows` are the rows of the table in the order `order`, for the current
/// snapshot and the two lists of deltas.
pub open spec fn arranged(
    order: SortedBy,
    rows: Seq<RowModel>,
    current: Map<Seq<char>, u128>,
    last: Map<Seq<char>, u128>,
    total: Map<Seq<char>, u128>,
) -> bool {
    let names = names_of(current);
    match order {
        SortedBy::AlphabeticalAscending => rows == rows_of(names, current, last, total),
        SortedBy::CounterIDsAscending => rows == rows_of(
            catalog_walk(names.len()),
            current,
            last,
            total,
        ),
        SortedBy::DifferentialDescending => {
            &&& rows.to_multiset() == rows_of(names, current, last, total).to_multiset()
            &&& ranked(rows)
        },
    }
}

/// The differential order is a strict order: no row ranks before itself, of
/// two rows at most one ranks before the other, and ranking carries over a
/// row in between.
pub proof fn law_ranking_is_strict(a: RowModel, b: RowModel, c: RowModel)
    ensures
        !ranks_before(a, a),
        !(ranks_before(a, b) && ranks_before(b, a)),
        ranks_before(a, b) && ranks_before(b, c) ==> ranks_before(a, c),
{
    lemma_name_trichotomy(a.name, a.name);
    lemma_name_trichotomy(a.name, b.name);
    if name_lt(a.name, b.name) && name_lt(b.name, c.name) {
        lemma_name_lt_transitive(a.name, b.name, c.name);
    }
}

/// The differential order is total on rows of different names: one of the
/// two ranks before the other.
pub proof fn law_ranking_is_total(a: RowModel, b: RowModel)
    requires
        a.name != b.name,
    ensures
        ranks_before(a, b) || ranks_before(b, a),
{
    lemma_name_trichotomy(a.name, b.name);
}

/// The order of names is a strict total order: no name sorts before itself,
/// of two names at most one sorts before the other, two different names are
/// ordered, and the order carries over a name in between.
pub proof fn law_name_order_is_total(a: Seq<char>, b: Seq<char>, c: Seq<char>)
    ensures
        !name_lt(a, a),
        !(name_lt(a, b) && name_lt(b, a)),
        a != b ==> name_lt(a, b) || name_lt(b, a),
        name_lt(a, b) && name_lt(b, c) ==> name_lt(a, c),
{
    lemma_name_trichotomy(a, a);
    lemma_name_trichotomy(a, b);
    if name_lt(a, b) && name_lt(b, c) {
        lemma_name_lt_transitive(a, b, c);
    }
}

/// No two rows of the list have the same name.
pub open spec fn distinct_names(rows: Seq<RowModel>) -> bool {
    forall|i: int, j: int|
        0 <= i < rows.len() && 0 <= j < rows.len() && i != j ==> rows[i].name != rows[j].name
}

/// The rows of an ascending list of names have names of that list, in
/// ascending order.
proof fn lemma_rows_of_ascending(
    names: Seq<Seq<char>>,
    current: Map<Seq<char>, u128>,
    last: Map<Seq<char>, u128>,
    total: Map<Seq<char>, u128>,
)
    requires
        ascending(names),
    ensures
        forall|i: int|
            0 <= i < rows_of(names, current, last, total).len() ==> names.contains(
                (#[trigger] rows_of(names, current, last, total)[i]).name,
            ),
        forall|i: int, j: int|
            0 <= i < j < rows_of(names, current, last, total).len() ==> name_lt(
                rows_of(names, current, last, total)[i].name,
                rows_of(names, current, last, total)[j].name,
            ),
        distinct_names(rows_of(names, current, last, total)),
    decreases names.len(),
{
    let rows = rows_of(names, current, last, total);
    if names.len() > 0 {
        let init = names.drop_last();
        let before = rows_of(init, current, last, total);
        lemma_rows_of_ascending(init, current, last, total);
        assert forall|i: int| 0 <= i < before.len() implies names.contains(
            (#[trigger] before[i]).name,
        ) && name_lt(before[i].name, names.last()) by {
            let k = init.index_of(before[i].name);
            assert(names[k] == before[i].name);
        }
        assert(names.contains(names.last())) by {
            assert(names[names.len() - 1] == names.last());
        }
        assert forall|i: int| 0 <= i < rows.len() implies names.contains(
            (#[trigger] rows[i]).name,
        ) by {
            if i < before.len() {
                assert(rows[i] == before[i]);
            }
        }
        assert forall|i: int, j: int| 0 <= i < j < rows.len() implies name_lt(
            rows[i].name,
            rows[j].name,
        ) by {
            assert(rows[i] == before[i]);
            if j < before.len() {
                assert(rows[j] == before[j]);
            }
        }
    }
    assert forall|i: int, j: int|
        0 <= i < rows.len() && 0 <= j < rows.len() && i != j implies rows[i].name
        != rows[j].name by {
        lemma_name_trichotomy(rows[i].name, rows[j].name);
        if i < j {
            assert(name_lt(rows[i].name, rows[j].name));
        } else {
            assert(name_lt(rows[j].name, rows[i].name));
        }
    }
}

/// Two ranked lists of the same rows, no two of one name, are one list.
proof fn lemma_ranked_unique(a: Seq<RowModel>, b: Seq<RowModel>)
    requires
        a.to_multiset() == b.to_multiset(),
        ranked(a),
        ranked(b),
        distinct_names(a),
    ensures
        a == b,
    decreases a.len(),
{
    a.to_multiset_ensures();
    b.to_multiset_ensures();
    if a.len() == 0 {
        assert(a =~= b);
    } else {
        assert(a.contains(a[0]));
        assert(b.contains(b[0]));
        assert(a.to_multiset().count(a[0]) > 0);
        assert(b.to_multiset().count(b[0]) > 0);
        assert(b.contains(a[0]));
        assert(a.contains(b[0]));
        let j = b.index_of(a[0]);
        let i = a.index_of(b[0]);
        if a[0] != b[0] {
            law_ranking_is_total(a[0], a[i]);
            assert(!ranks_before(a[i], a[0]));
            assert(!ranks_before(b[j], b[0]));
        }
        let a1 = a.drop_first();
        let b1 = b.drop_first();
        assert(a1 =~= a.remove(0));
        assert(b1 =~= b.remove(0));
        vstd::seq_lib::to_multiset_remove(a, 0);
        vstd::seq_lib::to_multiset_remove(b, 0);
        assert(ranked(a1)) by {
            assert forall|x: int, y: int| 0 <= x < y < a1.len() implies !ranks_before(
                a1[y],
                a1[x],
            ) by {
                assert(a1[x] == a[x + 1] && a1[y] == a[y + 1]);
            }
        }
        assert(ranked(b1)) by {
            assert forall|x: int, y: int| 0 <= x < y < b1.len() implies !ranks_before(
                b1[y],
                b1[x],
            ) by {
                assert(b1[x] == b[x + 1] && b1[y] == b[y + 1]);
            }
        }
        assert(distinct_names(a1)) by {
            assert forall|x: int, y: int|
                0 <= x < a1.len() && 0 <= y < a1.len() && x != y implies a1[x].name
                != a1[y].name by {
                assert(a1[x] == a[x + 1] && a1[y] == a[y + 1]);
            }
        }
        lemma_ranked_unique(a1, b1);
        assert(a =~= seq![a[0]] + a1);
        assert(b =~= seq![b[0]] + b1);
    }
}

/// The rows in the order of their names ascend: each row's name sorts before
/// the names of all rows below it, so that no name has two rows.
pub proof fn law_alphabetical_rows_ascend(
    rows: Seq<RowModel>,
    current: CounterSnapshot,
    last: Map<Seq<char>, u128>,
    total: Map<Seq<char>, u128>,
)
    requires
        current.wf(),
        arranged(SortedBy::AlphabeticalAscending, rows, current@, last, total),
    ensures
        forall|i: int, j: int| 0 <= i < j < rows.len() ==> name_lt(rows[i].name, rows[j].name),
        distinct_names(rows),
{
    current.lemma_names();
    lemma_rows_of_ascending(names_of(current@), current@, last, total);
}

/// The rows and the order decide the table: two lists that both hold the rows
/// of a snapshot in one order are the same list.
pub proof fn law_arrangement_is_unique(
    order: SortedBy,
    a: Seq<RowModel>,
    b: Seq<RowModel>,
    current: CounterSnapshot,
    last: Map<Seq<char>, u128>,
    total: Map<Seq<char>, u128>,
)
    requires
        current.wf(),
        arranged(order, a, current@, last, total),
        arranged(order, b, current@, last, total),
    ensures
        a == b,
{
    if order == SortedBy::DifferentialDescending {
        current.lemma_names();
        let rows = rows_of(names_of(current@), current@, last, total);
        lemma_rows_of_ascending(names_of(current@), current@, last, total);
        assert(rows.no_duplicates()) by {
            assert forall|i: int, j: int|
                0 <= i < rows.len() && 0 <= j < rows.len() && i != j implies rows[i]
                != rows[j] by {
                assert(rows[i].name != rows[j].name);
            }
        }
        rows.lemma_multiset_has_no_duplicates();
        a.lemma_multiset_has_no_duplicates_conv();
        a.to_multiset_ensures();
        rows.to_multiset_ensures();
        assert forall|i: int, j: int|
            0 <= i < a.len() && 0 <= j < a.len() && i != j implies a[i].name != a[j].name by {
            assert(a.contains(a[i]));
            assert(a.contains(a[j]));
            assert(a.to_multiset().count(a[i]) > 0);
            assert(a.to_multiset().count(a[j]) > 0);
            assert(rows.contains(a[i]));
            assert(rows.contains(a[j]));
            let p = rows.index_of(a[i]);
            let q = rows.index_of(a[j]);
            if a[i].name == a[j].name {
                assert(rows[p].name == rows[q].name);
                assert(p == q);
                assert(a[i] == a[j]);
            }
        }
        lemma_ranked_unique(a, b);
    }
}

/// Putting a value into a list adds it to what the list holds.
proof fn lemma_insert_to_multiset(s: Seq<RowModel>, at: int, row: RowModel)
    requires
        0 <= at <= s.len(),
    ensures
        s.insert(at, row).to_multiset() == s.to_multiset().insert(row),
{
    let longer = s.insert(at, row);
    assert(longer.remove(at) =~= s);
    assert(longer[at] == row);
    vstd::seq_lib::to_multiset_remove(longer, at);
    longer.to_multiset_ensures();
    assert(longer.contains(row));
    assert(longer.to_multiset().count(row) > 0);
    assert(longer.to_multiset() =~= longer.to_multiset().remove(row).insert(row));
}

/// Adds the row of `name` to `rows`, where it has one.
pub fn push_row(
    rows: &mut Vec<SortedRow>,
    name: &str,
    current: &CounterSnapshot,
    last: &DiffSnapshot,
    total: &DiffSnapshot,
)
    ensures
        row_models(final(rows)@) == match row_of(name@, current@, last@, total@) {
            Some(row) => row_models(old(rows)@).push(row),
            None => row_models(old(rows)@),
        },
{
    if !current.contains(name) {
        return ;
    }
    let since_baseline: u128 = match total.get(name) {
        Some(value) => value,
        None => {
            return ;
        },
    };
    if since_baseline == 0 {
        return ;
    }
    let since_last: u128 = match last.get(name) {
        Some(value) => value,
        None => {
            return ;
        },
    };
    let ghost before = row_models(rows@);
    rows.push(SortedRow { name: name.to_owned(), last: since_last, total: since_baseline });
    assert(row_models(rows@) =~= before.push(
        RowModel { name: name@, last: since_last, total: since_baseline },
    ));
}

/// The rows in the order of their names.
fn alphabetical_rows(current: &CounterSnapshot, last: &DiffSnapshot, total: &DiffSnapshot) -> (rows:
    Vec<SortedRow>)
    ensures
        row_models(rows@) == rows_of(current.names(), current@, last@, total@),
{
    let mut rows: Vec<SortedRow> = Vec::new();
    let mut i: usize = 0;
    let ghost names = current.names();
    assert(names.take(0) =~= Seq::<Seq<char>>::empty());
    assert(row_models(rows@) =~= Seq::<RowModel>::empty());
    while i < current.len()
        invariant
            i <= names.len(),
            names == current.names(),
            row_models(rows@) == rows_of(names.take(i as int), current@, last@, total@),
        decreases names.len() - i,
    {
        proof {
            assert(names.take(i + 1).drop_last() =~= names.take(i as int));
            assert(names.take(i + 1).last() == names[i as int]);
        }
        push_row(&mut rows, current.name_at(i).as_str(), current, last, total);
        i += 1;
    }
    assert(names.take(names.len() as int) =~= names);
    rows
}

/// The rows in the order of the catalog.
fn catalog_rows(current: &CounterSnapshot, last: &DiffSnapshot, total: &DiffSnapshot) -> (rows: Vec<
    SortedRow,
>)
    ensures
        row_models(rows@) == rows_of(
            catalog_walk(current.names().len()),
            current@,
            last@,
            total@,
        ),
{
    let mut rows: Vec<SortedRow> = Vec::new();
    let known: usize = current.len();
    let n: usize = if known < CATALOG_LEN {
        known
    } else {
        CATALOG_LEN
    };
    let mut i: usize = 0;
    let ghost walk = catalog_walk(current.names().len());
    assert(walk.take(0) =~= Seq::<Seq<char>>::empty());
    assert(row_models(rows@) =~= Seq::<RowModel>::empty());
    while i < n
        invariant
            i <= n,
            n == walk.len(),
            n <= CATALOG_LEN,
            walk == catalog_walk(current.names().len()),
            row_models(rows@) == rows_of(walk.take(i as int), current@, last@, total@),
        decreases n - i,
    {
        proof {
            assert(walk.take(i + 1).drop_last() =~= walk.take(i as int));
            assert(walk.take(i + 1).last() == catalog()[i as int]);
        }
        push_row(&mut rows, catalog_name(i), current, last, total);
        i += 1;
    }
    assert(walk.take(n as int) =~= walk);
    rows
}

/// Whether `a` is shown above `b` in the differential order.
pub fn outranks(a: &SortedRow, b: &SortedRow) -> (r: bool)
    ensures
        r == ranks_before(a@, b@),
{
    if a.total > b.total {
        true
    } else if a.total < b.total {
        false
    } else {
        match compare_names(a.name.as_str(), b.name.as_str()) {
            Rank::Before => true,
            _ => false,
        }
    }
}

/// Puts rows into the differential order.
pub fn rank_rows(rows: Vec<SortedRow>) -> (sorted: Vec<SortedRow>)
    ensures
        row_models(sorted@).to_multiset() == row_models(rows@).to_multiset(),
        ranked(row_models(sorted@)),
{
    let mut rest: Vec<SortedRow> = rows;
    let mut sorted: Vec<SortedRow> = Vec::new();
    let ghost all = row_models(rows@).to_multiset();
    proof {
        assert(row_models(sorted@) =~= Seq::<RowModel>::empty());
        assert(row_models(sorted@).to_multiset() =~= Multiset::<RowModel>::empty()) by {
            row_models(sorted@).to_multiset_ensures();
        }
        assert(row_models(sorted@).to_multiset().add(row_models(rest@).to_multiset()) =~= all);
    }
    while rest.len() > 0
        invariant
            row_models(sorted@).to_multiset().add(row_models(rest@).to_multiset()) == all,
            ranked(row_models(sorted@)),
        decreases rest@.len(),
    {
        let ghost rest_before = row_models(rest@);
        let ghost sorted_before = row_models(sorted@);
        let row: SortedRow = rest.pop().unwrap();
        proof {
            assert(rest_before =~= row_models(rest@).push(row@));
            vstd::seq_lib::to_multiset_build(row_models(rest@), row@);
        }
        let mut at: usize = 0;
        while at < sorted.len() && !outranks(&row, &sorted[at])
            invariant
                at <= sorted@.len(),
                sorted_before == row_models(sorted@),
                forall|h: int| 0 <= h < at ==> !ranks_before(row@, sorted_before[h]),
            decreases sorted@.len() - at,
        {
            at += 1;
        }
        sorted.insert(at, row);
        proof {
            let sorted_after = row_models(sorted@);
            assert(sorted_after =~= sorted_before.insert(at as int, row@));
            lemma_insert_to_multiset(sorted_before, at as int, row@);
            assert(sorted_after.to_multiset().add(row_models(rest@).to_multiset()) =~= all);
            assert forall|i: int, j: int| 0 <= i < j < sorted_after.len() implies !ranks_before(
                sorted_after[j],
                sorted_after[i],
            ) by {
                if j < at {
                    assert(sorted_after[i] == sorted_before[i]);
                    assert(sorted_after[j] == sorted_before[j]);
                } else if j == at {
                    assert(sorted_after[i] == sorted_before[i]);
                } else if i < at {
                    assert(sorted_after[i] == sorted_before[i]);
                    assert(sorted_after[j] == sorted_before[j - 1]);
                } else if i == at {
                    assert(sorted_after[j] == sorted_before[j - 1]);
                    assert(ranks_before(row@, sorted_before[at as int]));
                    if j - 1 > at {
                        assert(!ranks_before(sorted_before[j - 1], sorted_before[at as int]));
                    }
                    law_ranking_is_strict(sorted_before[j - 1], row@, sorted_before[at as int]);
                    law_ranking_is_strict(row@, sorted_before[at as int], row@);
                } else {
                    assert(sorted_after[i] == sorted_before[i - 1]);
                    assert(sorted_after[j] == sorted_before[j - 1]);
                }
            }
        }
    }
    proof {
        assert(row_models(rest@) =~= Seq::<RowModel>::empty());
        row_models(rest@).to_multiset_ensures();
        assert(row_models(rest@).to_multiset() =~= Multiset::<RowModel>::empty());
        assert(row_models(sorted@).to_multiset().add(row_models(rest@).to_multiset())
            =~= row_models(sorted@).to_multiset());
    }
    sorted
}

/// The rows of the table in the order `order`.
///
/// By name, the rows follow the names of the current snapshot. In the order
/// of the catalog, they follow the catalog as far as the current snapshot has
/// names. In the differential order they are the rows of the names of the
/// current snapshot, the greatest delta since the baseline first, and rows of
/// the same delta in the order of their names.
pub fn arrange(
    order: SortedBy,
    current: &CounterSnapshot,
    last: &DiffSnapshot,
    total: &DiffSnapshot,
) -> (rows: Vec<SortedRow>)
    ensures
        arranged(order, row_models(rows@), current@, last@, total@),
{
    proof {
        use_type_invariant(current);
        current.lemma_names();
    }
    match order {
        SortedBy::AlphabeticalAscending => alphabetical_rows(current, last, total),
        SortedBy::CounterIDsAscending => catalog_rows(current, last, total),
        SortedBy::DifferentialDescending => rank_rows(alphabetical_rows(current, last, total)),
    }
}

} // verus!
