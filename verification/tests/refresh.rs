use bcachefs_top::engine::{
    clamp_scroll, interpret, Action, Command, EngineState, Event, KeyCode, KeyInput, Phase,
    Settings,
};
use bcachefs_top::errors::AcquisitionError;
use bcachefs_top::snapshot::CounterSnapshot;
use bcachefs_top::sort::{SortedBy, SortedRow};
use bcachefs_top::source::Backend;

fn snapshot_of(pairs: &[(&str, u128)]) -> CounterSnapshot {
    CounterSnapshot::from_pairs(pairs.iter().map(|(n, v)| (n.to_string(), *v)).collect())
}

fn press(code: KeyCode) -> KeyInput {
    KeyInput { code, control: false, pressed: true }
}

fn settings(interval_secs: u64, continuous_reset: bool) -> Settings {
    Settings { backend: Backend::Binary, interval_secs, continuous_reset }
}

fn row(name: &str, last: u128, total: u128) -> SortedRow {
    SortedRow { name: name.to_string(), last, total }
}

#[test]
fn keys_are_interpreted() {
    assert_eq!(interpret(&press(KeyCode::Char('q'))), Command::Quit);
    assert_eq!(
        interpret(&KeyInput { code: KeyCode::Char('c'), control: true, pressed: true }),
        Command::Quit
    );
    assert_eq!(
        interpret(&KeyInput { code: KeyCode::Char('q'), control: true, pressed: true }),
        Command::Quit
    );
    assert_eq!(interpret(&press(KeyCode::Char('c'))), Command::Ignore);
    assert_eq!(interpret(&press(KeyCode::Char('s'))), Command::ToggleSort);
    assert_eq!(interpret(&press(KeyCode::Char('j'))), Command::ScrollDown);
    assert_eq!(interpret(&press(KeyCode::Down)), Command::ScrollDown);
    assert_eq!(interpret(&press(KeyCode::Char('k'))), Command::ScrollUp);
    assert_eq!(interpret(&press(KeyCode::Up)), Command::ScrollUp);
    assert_eq!(interpret(&press(KeyCode::Char('x'))), Command::Ignore);
    assert_eq!(interpret(&press(KeyCode::Char('Q'))), Command::Ignore);
    assert_eq!(interpret(&press(KeyCode::Other)), Command::Ignore);
    assert_eq!(
        interpret(&KeyInput { code: KeyCode::Char('q'), control: false, pressed: false }),
        Command::Ignore
    );
}

#[test]
fn start_state() {
    let first = snapshot_of(&[("a", 1)]);
    let s = EngineState::start(first.clone(), settings(2, false), 500);
    assert_eq!(s.phase, Phase::Polling);
    assert_eq!(s.order, SortedBy::AlphabeticalAscending);
    assert_eq!(s.scroll, 0);
    assert_eq!(s.baseline, first);
    assert_eq!(s.previous, first);
    assert_eq!(s.current, first);
    assert_eq!(s.last_refresh, 500);
    assert!(s.force_redraw);
    assert_eq!(s.failure, None);
    assert_eq!(s.exit_code(), 0);
}

#[test]
fn quit_key_ends_the_loop() {
    let mut s = EngineState::start(snapshot_of(&[("a", 1)]), settings(2, false), 0);
    assert_eq!(s.step(Event::Key(press(KeyCode::Char('q')))), Action::Quit);
    assert_eq!(s.phase, Phase::Exiting);
    assert_eq!(s.exit_code(), 0);
    let before = EngineState::start(snapshot_of(&[("a", 1)]), settings(2, false), 0);
    assert_eq!(s.step(Event::Tick { now: 100000 }), Action::Quit);
    assert_eq!(s.step(Event::Key(press(KeyCode::Char('s')))), Action::Quit);
    assert_eq!(
        s.step(Event::Sampled { snapshot: snapshot_of(&[("a", 9)]), now: 7 }),
        Action::Quit
    );
    assert_eq!(s.order, before.order);
    assert_eq!(s.current, before.current);
    assert_eq!(s.last_refresh, 0);
}

#[test]
fn sort_key_toggles_and_asks_for_redraw() {
    let mut s = EngineState::start(snapshot_of(&[("a", 1)]), settings(2, false), 0);
    s.force_redraw = false;
    assert_eq!(s.step(Event::Key(press(KeyCode::Char('s')))), Action::Poll);
    assert_eq!(s.order, SortedBy::CounterIDsAscending);
    assert!(s.force_redraw);
    assert_eq!(s.step(Event::Key(press(KeyCode::Char('s')))), Action::Poll);
    assert_eq!(s.order, SortedBy::DifferentialDescending);
    assert_eq!(s.step(Event::Key(press(KeyCode::Char('s')))), Action::Poll);
    assert_eq!(s.order, SortedBy::AlphabeticalAscending);
}

#[test]
fn sort_key_on_text_backend_skips_catalog_order() {
    let mut s = EngineState::start(
        snapshot_of(&[("a", 1)]),
        Settings { backend: Backend::Text, interval_secs: 2, continuous_reset: false },
        0,
    );
    s.step(Event::Key(press(KeyCode::Char('s'))));
    assert_eq!(s.order, SortedBy::DifferentialDescending);
    s.step(Event::Key(press(KeyCode::Char('s'))));
    assert_eq!(s.order, SortedBy::AlphabeticalAscending);
}

#[test]
fn scroll_keys_move_the_offset() {
    let mut s = EngineState::start(snapshot_of(&[("a", 1)]), settings(2, false), 0);
    s.force_redraw = false;
    assert_eq!(s.step(Event::Key(press(KeyCode::Up))), Action::Poll);
    assert_eq!(s.scroll, 0);
    assert!(s.force_redraw);
    s.step(Event::Key(press(KeyCode::Down)));
    s.step(Event::Key(press(KeyCode::Char('j'))));
    assert_eq!(s.scroll, 2);
    s.step(Event::Key(press(KeyCode::Char('k'))));
    assert_eq!(s.scroll, 1);
    s.scroll = u16::MAX;
    s.step(Event::Key(press(KeyCode::Down)));
    assert_eq!(s.scroll, u16::MAX);
}

#[test]
fn ignored_key_changes_nothing() {
    let mut s = EngineState::start(snapshot_of(&[("a", 1)]), settings(2, false), 0);
    s.force_redraw = false;
    assert_eq!(s.step(Event::Key(press(KeyCode::Char('x')))), Action::Poll);
    assert!(!s.force_redraw);
    assert_eq!(s, {
        let mut t = EngineState::start(snapshot_of(&[("a", 1)]), settings(2, false), 0);
        t.force_redraw = false;
        t
    });
}

#[test]
fn tick_decides_between_refresh_redraw_and_idle() {
    let mut s = EngineState::start(snapshot_of(&[("a", 1)]), settings(2, false), 1000);
    assert_eq!(s.step(Event::Tick { now: 1100 }), Action::Render);
    s.render(40);
    assert!(!s.force_redraw);
    assert_eq!(s.step(Event::Tick { now: 1200 }), Action::Poll);
    assert_eq!(s.step(Event::Tick { now: 2999 }), Action::Poll);
    assert!(!s.is_refresh_due(2999));
    assert!(s.is_refresh_due(3000));
    assert_eq!(s.step(Event::Tick { now: 3000 }), Action::Acquire);
    // A clock that went back counts as no time passed.
    assert_eq!(s.step(Event::Tick { now: 10 }), Action::Poll);
}

#[test]
fn zero_interval_is_always_due() {
    let mut s = EngineState::start(snapshot_of(&[("a", 1)]), settings(0, false), 1000);
    assert_eq!(s.step(Event::Tick { now: 1000 }), Action::Acquire);
    assert_eq!(s.step(Event::Tick { now: 5 }), Action::Acquire);
}

#[test]
fn huge_interval_is_never_due() {
    let s = EngineState::start(snapshot_of(&[("a", 1)]), settings(u64::MAX, false), 0);
    assert!(!s.is_refresh_due(u64::MAX));
}

#[test]
fn refresh_shifts_the_snapshots() {
    let mut s = EngineState::start(snapshot_of(&[("a", 1)]), settings(2, false), 0);
    s.step(Event::Sampled { snapshot: snapshot_of(&[("a", 4)]), now: 10 });
    assert_eq!(s.step(Event::Tick { now: 2010 }), Action::Acquire);
    assert_eq!(s.previous, snapshot_of(&[("a", 4)]));
    assert_eq!(s.current, snapshot_of(&[("a", 4)]));
    assert_eq!(
        s.step(Event::Sampled { snapshot: snapshot_of(&[("a", 9)]), now: 2020 }),
        Action::Render
    );
    assert_eq!(s.baseline, snapshot_of(&[("a", 1)]));
    assert_eq!(s.previous, snapshot_of(&[("a", 4)]));
    assert_eq!(s.current, snapshot_of(&[("a", 9)]));
    assert_eq!(s.last_refresh, 2020);
    let screen = s.render(40);
    assert_eq!(screen.rows, vec![row("a", 5, 8)]);
    assert_eq!(screen.order, SortedBy::AlphabeticalAscending);
    assert_eq!(screen.interval_secs, 2);
    assert_eq!(screen.selected, 0);
}

#[test]
fn continuous_reset_rebases_on_every_refresh() {
    let mut s = EngineState::start(snapshot_of(&[("a", 1)]), settings(2, true), 0);
    s.step(Event::Tick { now: 2000 });
    s.step(Event::Sampled { snapshot: snapshot_of(&[("a", 9)]), now: 2000 });
    assert_eq!(s.baseline, snapshot_of(&[("a", 9)]));
    assert_eq!(s.previous, snapshot_of(&[("a", 1)]));
    assert_eq!(s.current, snapshot_of(&[("a", 9)]));
    // The totals count from the snapshot that is shown, so no row is left.
    assert!(s.render(24).rows.is_empty());
}

#[test]
fn failed_sample_ends_the_loop_with_its_error() {
    let mut s = EngineState::start(snapshot_of(&[("a", 1)]), settings(2, false), 0);
    let error = AcquisitionError::ControlRequestFailed { errno: 25 };
    assert_eq!(s.step(Event::SampleFailed { error }), Action::Quit);
    assert_eq!(s.phase, Phase::Exiting);
    assert_eq!(s.failure, Some(error));
    assert_eq!(s.exit_code(), 1);
}

#[test]
fn scroll_is_clamped_to_what_does_not_fit() {
    assert_eq!(clamp_scroll(0, 0, 0), 0);
    assert_eq!(clamp_scroll(5, 3, 10), 0);
    assert_eq!(clamp_scroll(5, 7, 10), 0);
    assert_eq!(clamp_scroll(5, 8, 10), 1);
    assert_eq!(clamp_scroll(5, 20, 10), 5);
    assert_eq!(clamp_scroll(50, 20, 10), 13);
    assert_eq!(clamp_scroll(50, 20, 1), 21);
    assert_eq!(clamp_scroll(50, 20, 2), 21);
    assert_eq!(clamp_scroll(50, 20, 3), 20);
    assert_eq!(clamp_scroll(u16::MAX, usize::MAX, 0), u16::MAX);
    assert_eq!(clamp_scroll(u16::MAX, 70000, u16::MAX), 4468);
}

#[test]
fn scroll_down_on_a_short_table_stays_at_zero() {
    let mut s = EngineState::start(snapshot_of(&[("a", 1), ("b", 2)]), settings(2, false), 0);
    s.step(Event::Sampled { snapshot: snapshot_of(&[("a", 3), ("b", 5)]), now: 1 });
    assert_eq!(s.step(Event::Key(press(KeyCode::Down))), Action::Poll);
    assert_eq!(s.scroll, 1);
    assert_eq!(s.step(Event::Tick { now: 2 }), Action::Render);
    let screen = s.render(24);
    assert_eq!(screen.rows.len(), 2);
    assert_eq!(screen.selected, 0);
    assert_eq!(s.scroll, 0);
    assert!(!s.force_redraw);
}

#[test]
fn render_without_activity_shows_no_rows() {
    let mut s = EngineState::start(snapshot_of(&[("a", 1), ("b", 2)]), settings(2, false), 0);
    s.step(Event::Tick { now: 2000 });
    s.step(Event::Sampled { snapshot: snapshot_of(&[("a", 1), ("b", 2)]), now: 2000 });
    let screen = s.render(24);
    assert!(screen.rows.is_empty());
}

#[test]
fn render_follows_the_order_of_the_state() {
    let mut s = EngineState::start(
        snapshot_of(&[("io_read", 0), ("io_write", 0), ("io_move", 0)]),
        settings(2, false),
        0,
    );
    s.step(Event::Sampled {
        snapshot: snapshot_of(&[("io_read", 1), ("io_write", 7), ("io_move", 3)]),
        now: 1,
    });
    assert_eq!(
        s.render(24).rows,
        vec![row("io_move", 3, 3), row("io_read", 1, 1), row("io_write", 7, 7)]
    );
    s.step(Event::Key(press(KeyCode::Char('s'))));
    assert_eq!(
        s.render(24).rows,
        vec![row("io_read", 1, 1), row("io_write", 7, 7), row("io_move", 3, 3)]
    );
    s.step(Event::Key(press(KeyCode::Char('s'))));
    assert_eq!(
        s.render(24).rows,
        vec![row("io_write", 7, 7), row("io_move", 3, 3), row("io_read", 1, 1)]
    );
}
