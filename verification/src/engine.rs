//! The refresh loop as a state machine.
//!
//! The loop itself waits for keys, reads the clock, acquires snapshots and
//! draws; none of that happens here. Here is what the loop decides: it hands
//! each thing that happened to `EngineState::step` as an event and is told
//! what to do next, and when it is told to draw it asks `EngineState::render`
//! for the rows.
//!
//! Times are in milliseconds on a clock of the caller's choice.

use vstd::prelude::*;
use crate::diff::{calculate_diffs, diff_map};
use crate::errors::{AcquisitionError, EXIT_FAILURE, EXIT_OK};
use crate::snapshot::CounterSnapshot;
use crate::sort::{arrange, arranged, row_models, SortedBy, SortedRow};
use crate::source::Backend;

verus! {

/// The lines of the table's area that its border takes.
pub const BORDER_LINES: u16 = 2;

/// The lines that the table's header takes.
pub const HEADER_LINES: u16 = 1;

/// The key of a key event.
#[derive(Clone, Copy, Debug, PartialEq, Eq, Structural)]
pub enum KeyCode {
    Char(char),
    Up,
    Down,
    /// Any other key.
    Other,
}

/// A key event.
#[derive(Clone, Copy, Debug, PartialEq, Eq, Structural)]
pub struct KeyInput {
    pub code: KeyCode,
    /// The control key is held, and no other modifier.
    pub control: bool,
    /// The key went down; not a release and not a repeat.
    pub pressed: bool,
}

/// What a key asks for.
#[derive(Clone, Copy, Debug, PartialEq, Eq, Structural)]
pub enum Command {
    Quit,
    ToggleSort,
    ScrollDown,
    ScrollUp,
    Ignore,
}

/// What a key asks for: `q` and control-`c` quit, `s` changes the order, `j`
/// and the down arrow scroll down, `k` and the up arrow scroll up. Nothing
/// else asks for anything, nor does a key that did not go down.
pub open spec fn command_of(key: KeyInput) -> Command {
    if !key.pressed {
        Command::Ignore
    } else {
        match key.code {
            KeyCode::Char(c) => if c == 'q' || (c == 'c' && key.control) {
                Command::Quit
            } else if c == 's' {
                Command::ToggleSort
            } else if c == 'j' {
                Command::ScrollDown
            } else if c == 'k' {
                Command::ScrollUp
            } else {
                Command::Ignore
            },
            KeyCode::Down => Command::ScrollDown,
            KeyCode::Up => Command::ScrollUp,
            KeyCode::Other => Command::Ignore,
        }
    }
}

/// What a key asks for.
pub fn interpret(key: &KeyInput) -> (r: Command)
    ensures
        r == command_of(*key),
{
    if !key.pressed {
        return Command::Ignore;
    }
    match key.code {
        KeyCode::Char(c) => {
            if c == 'q' || (c == 'c' && key.control) {
                Command::Quit
            } else if c == 's' {
                Command::ToggleSort
            } else if c == 'j' {
                Command::ScrollDown
            } else if c == 'k' {
                Command::ScrollUp
            } else {
                Command::Ignore
            }
        },
        KeyCode::Down => Command::ScrollDown,
        KeyCode::Up => Command::ScrollUp,
        KeyCode::Other => Command::Ignore,
    }
}

/// What the loop was started with.
#[derive(Clone, Copy, Debug, PartialEq, Eq, Structural)]
pub struct Settings {
    pub backend: Backend,
    /// The seconds between two refreshes.
    pub interval_secs: u64,
    /// Each refresh makes its snapshot the baseline. The totals then count
    /// from the snapshot that is shown: every total is zero, and since a
    /// counter whose total is zero has no row, the table has no rows.
    pub continuous_reset: bool,
}

/// Where the loop stands.
#[derive(Clone, Copy, Debug, PartialEq, Eq, Structural)]
pub enum Phase {
    /// The loop runs.
    Polling,
    /// The loop has ended. Nothing leads out of this phase.
    Exiting,
}

/// What the loop is to do next.
#[derive(Clone, Copy, Debug, PartialEq, Eq, Structural)]
pub enum Action {
    /// Wait for the next key or tick.
    Poll,
    /// Acquire a snapshot and hand it over as `Event::Sampled`, or its
    /// failure as `Event::SampleFailed`.
    Acquire,
    /// Draw what `EngineState::render` gives.
    Render,
    /// Leave the loop.
    Quit,
}

/// What happened.
#[derive(Debug, PartialEq, Eq)]
pub enum Event {
    /// A key event arrived.
    Key(KeyInput),
    /// The wait for a key is over, at the time `now`.
    Tick { now: u64 },
    /// A snapshot was acquired, at the time `now`.
    Sampled { snapshot: CounterSnapshot, now: u64 },
    /// A snapshot could not be acquired.
    SampleFailed { error: AcquisitionError },
}

/// An event as plain values.
pub enum EventModel {
    Key(KeyInput),
    Tick { now: u64 },
    Sampled { snapshot: Map<Seq<char>, u128>, now: u64 },
    SampleFailed { error: AcquisitionError },
}

impl View for Event {
    type V = EventModel;

    open spec fn view(&self) -> EventModel {
        match *self {
            Event::Key(key) => EventModel::Key(key),
            Event::Tick { now } => EventModel::Tick { now },
            Event::Sampled { snapshot, now } => EventModel::Sampled { snapshot: snapshot@, now },
            Event::SampleFailed { error } => EventModel::SampleFailed { error },
        }
    }
}

/// The state of the loop.
#[derive(Debug, PartialEq, Eq)]
pub struct EngineState {
    pub settings: Settings,
    pub phase: Phase,
    /// The order of the rows.
    pub order: SortedBy,
    /// The row that the table is scrolled to.
    pub scroll: u16,
    /// The snapshot that the totals count from.
    pub baseline: CounterSnapshot,
    /// The snapshot before the current one.
    pub previous: CounterSnapshot,
    /// The snapshot acquired last.
    pub current: CounterSnapshot,
    /// The time of the last refresh.
    pub last_refresh: u64,
    /// The table is to be drawn though no refresh is due.
    pub force_redraw: bool,
    /// The error that ended the loop, if one did.
    pub failure: Option<AcquisitionError>,
}

/// The state of the loop as plain values.
pub struct EngineModel {
    pub settings: Settings,
    pub phase: Phase,
    pub order: SortedBy,
    pub scroll: u16,
    pub baseline: Map<Seq<char>, u128>,
    pub previous: Map<Seq<char>, u128>,
    pub current: Map<Seq<char>, u128>,
    pub last_refresh: u64,
    pub force_redraw: bool,
    pub failure: Option<AcquisitionError>,
}

impl View for EngineState {
    type V = EngineModel;

    open spec fn view(&self) -> EngineModel {
        EngineModel {
            settings: self.settings,
            phase: self.phase,
            order: self.order,
            scroll: self.scroll,
            baseline: self.baseline@,
            previous: self.previous@,
            current: self.current@,
            last_refresh: self.last_refresh,
            force_redraw: self.force_redraw,
            failure: self.failure,
        }
    }
}

/// The state that the loop begins in: the first snapshot is baseline,
/// previous and current at once, the rows are in the order of their names,
/// and the table is to be drawn.
pub open spec fn initial(first: Map<Seq<char>, u128>, settings: Settings, now: u64) -> EngineModel {
    EngineModel {
        settings,
        phase: Phase::Polling,
        order: SortedBy::AlphabeticalAscending,
        scroll: 0,
        baseline: first,
        previous: first,
        current: first,
        last_refresh: now,
        force_redraw: true,
        failure: None,
    }
}

/// The milliseconds from `last` to `now`; zero where the clock went back.
pub open spec fn elapsed(last: u64, now: u64) -> nat {
    if now >= last {
        (now - last) as nat
    } else {
        0
    }
}

/// A refresh is due: the interval has passed since the last one.
pub open spec fn refresh_due(m: EngineModel, now: u64) -> bool {
    elapsed(m.last_refresh, now) >= m.settings.interval_secs * 1000
}

/// The scroll offset one row further down; it stays at the largest offset.
pub open spec fn scrolled_down(scroll: u16) -> u16 {
    if scroll < u16::MAX {
        (scroll + 1) as u16
    } else {
        scroll
    }
}

/// The scroll offset one row further up; it stays at zero.
pub open spec fn scrolled_up(scroll: u16) -> u16 {
    if scroll > 0 {
        (scroll - 1) as u16
    } else {
        scroll
    }
}

/// The state after an event.
///
/// Nothing changes a state that is `Exiting`. Otherwise a key quits, changes
/// the order or scrolls, and all but quitting ask for the table to be drawn.
/// A tick at which a refresh is due makes the current snapshot the previous
/// one, before the next is acquired. The snapshot that then arrives becomes
/// the current one, and the baseline too where every refresh resets it: the
/// baseline is reset before the rows are built, so that the totals of such a
/// run are all zero and `EngineState::render` gives no rows. A failure to
/// acquire ends the loop and is kept.
pub open spec fn next(m: EngineModel, e: EventModel) -> EngineModel {
    if m.phase == Phase::Exiting {
        m
    } else {
        match e {
            EventModel::Key(key) => match command_of(key) {
                Command::Quit => EngineModel { phase: Phase::Exiting, ..m },
                Command::ToggleSort => EngineModel {
                    order: m.order.successor(m.settings.backend),
                    force_redraw: true,
                    ..m
                },
                Command::ScrollDown => EngineModel {
                    scroll: scrolled_down(m.scroll),
                    force_redraw: true,
                    ..m
                },
                Command::ScrollUp => EngineModel {
                    scroll: scrolled_up(m.scroll),
                    force_redraw: true,
                    ..m
                },
                Command::Ignore => m,
            },
            EventModel::Tick { now } => if refresh_due(m, now) {
                EngineModel { previous: m.current, ..m }
            } else {
                m
            },
            EventModel::Sampled { snapshot, now } => EngineModel {
                current: snapshot,
                baseline: if m.settings.continuous_reset {
                    snapshot
                } else {
                    m.baseline
                },
                last_refresh: now,
                ..m
            },
            EventModel::SampleFailed { error } => EngineModel {
                phase: Phase::Exiting,
                failure: Some(error),
                ..m
            },
        }
    }
}

/// What the loop is to do after an event.
///
/// A loop that is `Exiting` quits. Otherwise it quits on the key that asks
/// for it and on a failure to acquire. On a tick it acquires where a refresh
/// is due, draws where only a redraw is asked for, and goes back to waiting
/// where neither is. It draws each snapshot that arrives.
pub open spec fn action(m: EngineModel, e: EventModel) -> Action {
    if m.phase == Phase::Exiting {
        Action::Quit
    } else {
        match e {
            EventModel::Key(key) => if command_of(key) == Command::Quit {
                Action::Quit
            } else {
                Action::Poll
            },
            EventModel::Tick { now } => if refresh_due(m, now) {
                Action::Acquire
            } else if m.force_redraw {
                Action::Render
            } else {
                Action::Poll
            },
            EventModel::Sampled { .. } => Action::Render,
            EventModel::SampleFailed { .. } => Action::Quit,
        }
    }
}

/// The lines of rows that fit into an area of the height `area_height`: the
/// border takes two of its lines.
pub open spec fn visible_lines(area_height: u16) -> nat {
    if area_height >= BORDER_LINES {
        (area_height - BORDER_LINES) as nat
    } else {
        0
    }
}

/// The largest scroll offset of a table of `rows` rows under its header: the
/// lines of the table that do not fit, zero where all of them fit.
pub open spec fn scroll_limit(rows: nat, area_height: u16) -> nat {
    if rows + HEADER_LINES > visible_lines(area_height) {
        (rows + HEADER_LINES - visible_lines(area_height)) as nat
    } else {
        0
    }
}

/// The scroll offset held within its limit.
pub open spec fn clamped_scroll(scroll: u16, rows: nat, area_height: u16) -> u16 {
    if scroll <= scroll_limit(rows, area_height) {
        scroll
    } else {
        scroll_limit(rows, area_height) as u16
    }
}

/// The scroll offset held within the limit of a table of `rows` rows in an
/// area of the height `area_height`.
pub fn clamp_scroll(scroll: u16, rows: usize, area_height: u16) -> (r: u16)
    ensures
        r == clamped_scroll(scroll, rows as nat, area_height),
        r <= scroll,
{
    let visible: u16 = if area_height >= BORDER_LINES {
        area_height - BORDER_LINES
    } else {
        0
    };
    let lines: u128 = rows as u128 + HEADER_LINES as u128;
    let limit: u128 = if lines > visible as u128 {
        lines - visible as u128
    } else {
        0
    };
    if scroll as u128 <= limit {
        scroll
    } else {
        limit as u16
    }
}

/// What is to be drawn.
#[derive(Debug, PartialEq, Eq)]
pub struct Screen {
    /// The order of the rows, for the header.
    pub order: SortedBy,
    /// The seconds between two refreshes, for the header.
    pub interval_secs: u64,
    /// The rows under the header.
    pub rows: Vec<SortedRow>,
    /// The line of the table that is selected.
    pub selected: u16,
}

impl EngineState {
    /// The state that the loop begins in.
    pub fn start(first: CounterSnapshot, settings: Settings, now: u64) -> (r: EngineState)
        ensures
            r@ == initial(first@, settings, now),
    {
        let baseline = first.clone();
        let previous = first.clone();
        EngineState {
            settings,
            phase: Phase::Polling,
            order: SortedBy::AlphabeticalAscending,
            scroll: 0,
            baseline,
            previous,
            current: first,
            last_refresh: now,
            force_redraw: true,
            failure: None,
        }
    }

    /// Whether a refresh is due at the time `now`.
    pub fn is_refresh_due(&self, now: u64) -> (r: bool)
        ensures
            r == refresh_due(self@, now),
    {
        let passed: u64 = if now >= self.last_refresh {
            now - self.last_refresh
        } else {
            0
        };
        passed as u128 >= self.settings.interval_secs as u128 * 1000
    }

    /// Takes an event and says what the loop is to do next.
    pub fn step(&mut self, event: Event) -> (r: Action)
        ensures
            final(self)@ == next(old(self)@, event@),
            r == action(old(self)@, event@),
    {
        if self.phase == Phase::Exiting {
            return Action::Quit;
        }
        match event {
            Event::Key(key) => match interpret(&key) {
                Command::Quit => {
                    self.phase = Phase::Exiting;
                    Action::Quit
                },
                Command::ToggleSort => {
                    self.order = self.order.toggle(self.settings.backend);
                    self.force_redraw = true;
                    Action::Poll
                },
                Command::ScrollDown => {
                    self.scroll = self.scroll.saturating_add(1);
                    self.force_redraw = true;
                    Action::Poll
                },
                Command::ScrollUp => {
                    self.scroll = self.scroll.saturating_sub(1);
                    self.force_redraw = true;
                    Action::Poll
                },
                Command::Ignore => Action::Poll,
            },
            Event::Tick { now } => {
                if self.is_refresh_due(now) {
                    self.previous = self.current.clone();
                    Action::Acquire
                } else if self.force_redraw {
                    Action::Render
                } else {
                    Action::Poll
                }
            },
            Event::Sampled { snapshot, now } => {
                if self.settings.continuous_reset {
                    self.baseline = snapshot.clone();
                }
                self.current = snapshot;
                self.last_refresh = now;
                Action::Render
            },
            Event::SampleFailed { error } => {
                self.phase = Phase::Exiting;
                self.failure = Some(error);
                Action::Quit
            },
        }
    }

    /// The table to draw in an area of the height `area_height`.
    ///
    /// The rows are those of the current snapshot, with its deltas since the
    /// previous snapshot and since the baseline, in the order of the state.
    /// The scroll offset is brought within the limit of these rows and kept
    /// so, and the request to draw is met.
    pub fn render(&mut self, area_height: u16) -> (screen: Screen)
        ensures
            arranged(
                old(self)@.order,
                row_models(screen.rows@),
                old(self)@.current,
                diff_map(old(self)@.previous, old(self)@.current),
                diff_map(old(self)@.baseline, old(self)@.current),
            ),
            screen.order == old(self)@.order,
            screen.interval_secs == old(self)@.settings.interval_secs,
            screen.selected == clamped_scroll(
                old(self)@.scroll,
                screen.rows@.len(),
                area_height,
            ),
            final(self)@ == (EngineModel {
                scroll: screen.selected,
                force_redraw: false,
                ..old(self)@
            }),
    {
        let total = calculate_diffs(&self.baseline, &self.current);
        let last = calculate_diffs(&self.previous, &self.current);
        let rows = arrange(self.order, &self.current, &last, &total);
        let selected: u16 = clamp_scroll(self.scroll, rows.len(), area_height);
        self.scroll = selected;
        self.force_redraw = false;
        Screen { order: self.order, interval_secs: self.settings.interval_secs, rows, selected }
    }

    /// The exit code of the program once the loop has ended: that of a
    /// failure where one ended it.
    pub fn exit_code(&self) -> (code: u8)
        ensures
            code == if self@.failure is Some {
                EXIT_FAILURE
            } else {
                EXIT_OK
            },
    {
        match self.failure {
            Some(_) => EXIT_FAILURE,
            None => EXIT_OK,
        }
    }
}

/// Nothing leads out of `Exiting`: whatever happens then, the state stays as
/// it is and the loop is told to quit.
pub proof fn law_exiting_is_final(m: EngineModel, e: EventModel)
    requires
        m.phase == Phase::Exiting,
    ensures
        next(m, e) == m,
        action(m, e) == Action::Quit,
{
}

/// The loop ends only on the key that asks for it and on a failure to
/// acquire: every other event leaves a running loop running, and no event
/// but these two tells it to quit.
pub proof fn law_only_quit_and_failure_end(m: EngineModel, e: EventModel)
    requires
        m.phase == Phase::Polling,
    ensures
        next(m, e).phase == Phase::Exiting <==> action(m, e) == Action::Quit,
        action(m, e) == Action::Quit <==> (e is SampleFailed || (e matches EventModel::Key(key)
            && command_of(key) == Command::Quit)),
{
}

/// A table whose lines all fit into its area is never scrolled: whatever the
/// offset was, it is zero once the table was drawn.
pub proof fn law_short_table_stays_at_top(scroll: u16, rows: nat, area_height: u16)
    requires
        rows + HEADER_LINES <= visible_lines(area_height),
    ensures
        clamped_scroll(scroll, rows, area_height) == 0,
{
}

} // verus!
