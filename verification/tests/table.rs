use bcachefs_top::snapshot::CounterSnapshot;
use bcachefs_top::sort::{
    arrange, outranks, push_row, rank_rows, supported_orders, SortedBy, SortedRow,
};
use bcachefs_top::source::Backend;

fn snapshot_of(pairs: &[(&str, u128)]) -> CounterSnapshot {
    CounterSnapshot::from_pairs(pairs.iter().map(|(n, v)| (n.to_string(), *v)).collect())
}

fn row(name: &str, last: u128, total: u128) -> SortedRow {
    SortedRow { name: name.to_string(), last, total }
}

#[test]
fn toggle_rotates_three_orders_on_binary() {
    let a = SortedBy::AlphabeticalAscending;
    let b = a.toggle(Backend::Binary);
    let c = b.toggle(Backend::Binary);
    let d = c.toggle(Backend::Binary);
    assert_eq!(b, SortedBy::CounterIDsAscending);
    assert_eq!(c, SortedBy::DifferentialDescending);
    assert_eq!(d, SortedBy::AlphabeticalAscending);
}

#[test]
fn toggle_rotates_two_orders_on_text() {
    let a = SortedBy::AlphabeticalAscending;
    let b = a.toggle(Backend::Text);
    let c = b.toggle(Backend::Text);
    assert_eq!(b, SortedBy::DifferentialDescending);
    assert_eq!(c, SortedBy::AlphabeticalAscending);
    assert_eq!(
        SortedBy::CounterIDsAscending.toggle(Backend::Text),
        SortedBy::DifferentialDescending
    );
}

#[test]
fn cycling_as_often_as_there_are_orders_returns() {
    for backend in [Backend::Binary, Backend::Text] {
        for start in [
            SortedBy::AlphabeticalAscending,
            SortedBy::CounterIDsAscending,
            SortedBy::DifferentialDescending,
        ] {
            if backend == Backend::Text && start == SortedBy::CounterIDsAscending {
                continue;
            }
            let mut order = start;
            for _ in 0..supported_orders(backend) {
                order = order.toggle(backend);
            }
            assert_eq!(order, start);
        }
    }
    assert_eq!(supported_orders(Backend::Binary), 3);
    assert_eq!(supported_orders(Backend::Text), 2);
}

#[test]
fn print_names_the_order() {
    assert_eq!(SortedBy::AlphabeticalAscending.print(), "AlphabeticalAscending");
    assert_eq!(SortedBy::CounterIDsAscending.print(), "CounterIDsAscending");
    assert_eq!(SortedBy::DifferentialDescending.print(), "DifferentialDescending");
}

#[test]
fn alphabetical_rows_leave_out_zero_totals() {
    let current = snapshot_of(&[("io_write", 9), ("copygc", 5), ("io_read", 7), ("io_move", 1)]);
    let last = snapshot_of(&[("io_write", 1), ("copygc", 0), ("io_read", 2), ("io_move", 0)]);
    let total = snapshot_of(&[("io_write", 4), ("copygc", 3), ("io_read", 6), ("io_move", 0)]);
    let rows = arrange(SortedBy::AlphabeticalAscending, &current, &last, &total);
    assert_eq!(rows, vec![row("copygc", 0, 3), row("io_read", 2, 6), row("io_write", 1, 4)]);
}

#[test]
fn catalog_rows_follow_the_catalog() {
    let current = snapshot_of(&[("io_write", 9), ("copygc", 5), ("io_read", 7), ("io_move", 1)]);
    let last = snapshot_of(&[("io_write", 1), ("copygc", 0), ("io_read", 2), ("io_move", 0)]);
    let total = snapshot_of(&[("io_write", 4), ("copygc", 3), ("io_read", 6), ("io_move", 0)]);
    let rows = arrange(SortedBy::CounterIDsAscending, &current, &last, &total);
    // The walk ends after as many names of the catalog as the snapshot holds:
    // `copygc` stands further down the catalog than that.
    assert_eq!(rows, vec![row("io_read", 2, 6), row("io_write", 1, 4)]);
}

#[test]
fn catalog_rows_of_a_full_snapshot() {
    let values: Vec<u64> = (0..100u64).collect();
    let current = bcachefs_top::catalog::name_values(&values);
    let rows = arrange(SortedBy::CounterIDsAscending, &current, &current, &current);
    assert_eq!(rows.len(), 95);
    assert_eq!(rows[0], row("io_write", 1, 1));
    assert_eq!(rows[1], row("io_move", 2, 2));
    assert_eq!(rows[94], row("io_read_fail_and_poison", 95, 95));
}

#[test]
fn differential_rows_put_the_greatest_first() {
    let current = snapshot_of(&[("a", 1), ("b", 1), ("c", 1), ("d", 1), ("e", 1)]);
    let last = snapshot_of(&[("a", 1), ("b", 2), ("c", 3), ("d", 4), ("e", 5)]);
    let total = snapshot_of(&[("a", 10), ("b", 30), ("c", 0), ("d", 30), ("e", 20)]);
    let rows = arrange(SortedBy::DifferentialDescending, &current, &last, &total);
    assert_eq!(rows, vec![row("b", 2, 30), row("d", 4, 30), row("e", 5, 20), row("a", 1, 10)]);
}

#[test]
fn rows_need_all_three_sides() {
    let current = snapshot_of(&[("a", 1), ("b", 1), ("c", 1)]);
    let last = snapshot_of(&[("a", 1), ("c", 1), ("x", 1)]);
    let total = snapshot_of(&[("a", 5), ("b", 5), ("x", 5)]);
    for order in [SortedBy::AlphabeticalAscending, SortedBy::DifferentialDescending] {
        assert_eq!(arrange(order, &current, &last, &total), vec![row("a", 1, 5)]);
    }
}

#[test]
fn no_rows_of_nothing() {
    let e = CounterSnapshot::new();
    for order in [
        SortedBy::AlphabeticalAscending,
        SortedBy::CounterIDsAscending,
        SortedBy::DifferentialDescending,
    ] {
        assert!(arrange(order, &e, &e, &e).is_empty());
    }
}

#[test]
fn push_row_adds_only_what_has_a_row() {
    let current = snapshot_of(&[("a", 1), ("b", 1)]);
    let last = snapshot_of(&[("a", 2), ("b", 3)]);
    let total = snapshot_of(&[("a", 4), ("b", 0)]);
    let mut rows = Vec::new();
    push_row(&mut rows, "a", &current, &last, &total);
    push_row(&mut rows, "b", &current, &last, &total);
    push_row(&mut rows, "c", &current, &last, &total);
    assert_eq!(rows, vec![row("a", 2, 4)]);
}

#[test]
fn ranking_orders_by_total_then_name() {
    assert!(outranks(&row("z", 0, 5), &row("a", 0, 4)));
    assert!(!outranks(&row("a", 0, 4), &row("z", 0, 5)));
    assert!(outranks(&row("a", 9, 4), &row("b", 0, 4)));
    assert!(!outranks(&row("b", 0, 4), &row("a", 9, 4)));
    assert!(!outranks(&row("a", 0, 4), &row("a", 1, 4)));
    let sorted = rank_rows(vec![row("c", 0, 1), row("b", 0, 2), row("a", 0, 1), row("d", 0, 3)]);
    assert_eq!(sorted, vec![row("d", 0, 3), row("b", 0, 2), row("a", 0, 1), row("c", 0, 1)]);
    assert!(rank_rows(Vec::new()).is_empty());
}
