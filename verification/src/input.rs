//! Turning the keys and mouse events of the terminal into commands to the terminal user
//! interface.
use crate::command::{opt_command_view, AppCommand, AppCommandView, Direction, ScrollSize};
use crate::keys::{encodable, encode_key, key_chars, KeyCode, KeyEvent, KeyEventKind, CONTROL};
use crate::layout::LayoutSections;
use crate::ring::RingBuffer;
use vstd::prelude::*;
use vstd::utf8::encode_utf8;

verus! {

/// How close two clicks must follow each other to count as one double click, in nanoseconds.
pub const DOUBLE_CLICK_NANOS: u64 = 300_000_000;

/// The rows above the pane: the title and the top padding.
pub const HEADER_HEIGHT: i32 = 2;

/// A mouse button.
#[derive(Debug, Clone, Copy, PartialEq, Eq, Structural)]
pub enum MouseButton {
    Left,
    Right,
    Middle,
}

/// What the mouse did.
#[derive(Debug, Clone, Copy, PartialEq, Eq, Structural)]
pub enum MouseEventKind {
    Down(MouseButton),
    Up(MouseButton),
    Drag(MouseButton),
    Moved,
    ScrollDown,
    ScrollUp,
    ScrollLeft,
    ScrollRight,
}

/// A mouse event, at a column and a row of the screen.
#[derive(Debug, Clone, Copy, PartialEq, Eq, Structural)]
pub struct MouseEvent {
    pub kind: MouseEventKind,
    pub column: u16,
    pub row: u16,
}

/// An event of the terminal.
#[derive(Debug, Clone)]
pub enum Event {
    FocusGained,
    FocusLost,
    Key(KeyEvent),
    Mouse(MouseEvent),
    Paste(String),
    /// The new size, as columns then rows
    Resize(u16, u16),
}

/// What the handling of an input depends on.
pub struct InputOptions<'a> {
    pub focus: &'a LayoutSections,
    pub has_selection: bool,
    pub task: String,
    pub has_sidebar: bool,
    pub sidebar_width: u16,
    pub pane_rows: u16,
}

/// Whether the focus is on the task list.
pub open spec fn spec_on_task_list(o: InputOptions) -> bool {
    o.focus is TaskList
}

/// Whether the focus is on the search line.
pub open spec fn spec_on_search(o: InputOptions) -> bool {
    o.focus is Search
}

/// Whether the focus is on the help dialog.
pub open spec fn spec_on_help(o: InputOptions) -> bool {
    o.focus is Help
}

/// Whether the focus is on the pane.
pub open spec fn spec_on_pane(o: InputOptions) -> bool {
    o.focus is Pane
}

impl<'a> InputOptions<'a> {
    /// Whether the focus is on the task list.
    pub fn on_task_list(&self) -> (r: bool)
        ensures
            r == spec_on_task_list(*self),
    {
        match self.focus {
            LayoutSections::TaskList(..) => true,
            _ => false,
        }
    }

    /// Whether the focus is on the search line.
    pub fn on_search(&self) -> (r: bool)
        ensures
            r == spec_on_search(*self),
    {
        match self.focus {
            LayoutSections::Search { .. } => true,
            _ => false,
        }
    }

    /// Whether the focus is on the help dialog.
    pub fn on_help(&self) -> (r: bool)
        ensures
            r == spec_on_help(*self),
    {
        match self.focus {
            LayoutSections::Help { .. } => true,
            _ => false,
        }
    }

    /// Whether the focus is on the pane.
    pub fn on_pane(&self) -> (r: bool)
        ensures
            r == spec_on_pane(*self),
    {
        match self.focus {
            LayoutSections::Pane => true,
            _ => false,
        }
    }
}

/// The command a key gives: the first rule that applies, in the order of the task list, the
/// pane, the search line, the help dialog, and the keys that work everywhere.
pub open spec fn key_command(o: InputOptions, key: KeyEvent) -> Option<AppCommandView> {
    let tl = spec_on_task_list(o);
    let c = key.code;
    let ch = |x: char| c == KeyCode::Char(x);
    if key.kind is Release {
        None
    } else if tl && (c == KeyCode::Up || ch('k')) {
        Some(AppCommandView::Up)
    } else if tl && (c == KeyCode::Down || ch('j')) {
        Some(AppCommandView::Down)
    } else if tl && ch('h') {
        Some(AppCommandView::ToggleSidebar)
    } else if tl && ch('e') {
        Some(AppCommandView::ScrollDown(ScrollSize::One))
    } else if tl && ch('y') {
        Some(AppCommandView::ScrollUp(ScrollSize::One))
    } else if tl && ch('d') {
        Some(AppCommandView::ScrollDown(ScrollSize::Half))
    } else if tl && ch('u') {
        Some(AppCommandView::ScrollUp(ScrollSize::Half))
    } else if tl && ch('f') {
        Some(AppCommandView::ScrollDown(ScrollSize::Full))
    } else if tl && ch('b') {
        Some(AppCommandView::ScrollUp(ScrollSize::Full))
    } else if tl && ch('G') {
        Some(AppCommandView::ScrollDown(ScrollSize::Edge))
    } else if tl && ch('g') {
        Some(AppCommandView::ScrollUp(ScrollSize::Edge))
    } else if tl && ch('/') {
        Some(AppCommandView::EnterSearch)
    } else if tl && ch('n') {
        Some(AppCommandView::SearchNext)
    } else if tl && ch('N') {
        Some(AppCommandView::SearchPrevious)
    } else if ch('c') && o.has_selection {
        Some(AppCommandView::CopySelection)
    } else if tl && c == KeyCode::Enter {
        Some(AppCommandView::EnterInteractive)
    } else if tl && ch('q') {
        Some(AppCommandView::Quit)
    } else if tl && ch('s') {
        Some(AppCommandView::StopTask { task: o.task@ })
    } else if tl && ch('r') {
        Some(AppCommandView::RestartTask { task: o.task@, force: true })
    } else if tl && ch('R') {
        Some(AppCommandView::RestartTask { task: o.task@, force: false })
    } else if spec_on_pane(o) && ch('z') && key.modifiers.bits == CONTROL {
        Some(AppCommandView::ExitInteractive)
    } else if spec_on_pane(o) {
        Some(AppCommandView::Input { bytes: encode_utf8(key_chars(key)) })
    } else if spec_on_search(o) && c is Char {
        Some(AppCommandView::SearchInputChar(c->Char_0))
    } else if spec_on_search(o) && c == KeyCode::Backspace {
        Some(AppCommandView::SearchBackspace)
    } else if (spec_on_search(o) || tl) && c == KeyCode::Esc {
        Some(AppCommandView::ExitSearch)
    } else if spec_on_search(o) && c == KeyCode::Enter {
        Some(AppCommandView::SearchRun)
    } else if spec_on_help(o) && (c == KeyCode::Up || ch('k')) {
        Some(AppCommandView::ScrollUp(ScrollSize::One))
    } else if spec_on_help(o) && (c == KeyCode::Down || ch('j')) {
        Some(AppCommandView::ScrollDown(ScrollSize::One))
    } else if spec_on_help(o) && (c == KeyCode::Esc || ch('?')) {
        Some(AppCommandView::ExitHelp)
    } else if ch('c') && key.modifiers.bits == CONTROL {
        Some(AppCommandView::Quit)
    } else if tl && ch('?') {
        Some(AppCommandView::OpenHelp)
    } else {
        None
    }
}

/// Converts a key event into a command to the terminal user interface. In the pane, the keys
/// go to the task's terminal as bytes, but for Ctrl-Z, which leaves the pane.
pub fn translate_key_event(options: InputOptions, key_event: KeyEvent) -> (r: Option<AppCommand>)
    requires
        spec_on_pane(options) ==> encodable(key_event),
    ensures
        opt_command_view(r) == key_command(options, key_event),
{
    if key_event.kind == KeyEventKind::Release {
        return None;
    }
    let tl = options.on_task_list();
    let code = key_event.code;
    let is_char = |x: char| -> (r: bool)
        ensures
            r == (code == KeyCode::Char(x)),
        {
            match code {
                KeyCode::Char(y) => y == x,
                _ => false,
            }
        };
    if tl && (code == KeyCode::Up || is_char('k')) {
        Some(AppCommand::Up)
    } else if tl && (code == KeyCode::Down || is_char('j')) {
        Some(AppCommand::Down)
    } else if tl && is_char('h') {
        Some(AppCommand::ToggleSidebar)
    } else if tl && is_char('e') {
        Some(AppCommand::ScrollDown(ScrollSize::One))
    } else if tl && is_char('y') {
        Some(AppCommand::ScrollUp(ScrollSize::One))
    } else if tl && is_char('d') {
        Some(AppCommand::ScrollDown(ScrollSize::Half))
    } else if tl && is_char('u') {
        Some(AppCommand::ScrollUp(ScrollSize::Half))
    } else if tl && is_char('f') {
        Some(AppCommand::ScrollDown(ScrollSize::Full))
    } else if tl && is_char('b') {
        Some(AppCommand::ScrollUp(ScrollSize::Full))
    } else if tl && is_char('G') {
        Some(AppCommand::ScrollDown(ScrollSize::Edge))
    } else if tl && is_char('g') {
        Some(AppCommand::ScrollUp(ScrollSize::Edge))
    } else if tl && is_char('/') {
        Some(AppCommand::EnterSearch)
    } else if tl && is_char('n') {
        Some(AppCommand::SearchNext)
    } else if tl && is_char('N') {
        Some(AppCommand::SearchPrevious)
    } else if is_char('c') && options.has_selection {
        Some(AppCommand::CopySelection)
    } else if tl && code == KeyCode::Enter {
        Some(AppCommand::EnterInteractive)
    } else if tl && is_char('q') {
        Some(AppCommand::Quit)
    } else if tl && is_char('s') {
        Some(AppCommand::StopTask { task: options.task })
    } else if tl && is_char('r') {
        Some(AppCommand::RestartTask { task: options.task, force: true })
    } else if tl && is_char('R') {
        Some(AppCommand::RestartTask { task: options.task, force: false })
    } else if options.on_pane() && is_char('z') && key_event.modifiers.bits == CONTROL {
        Some(AppCommand::ExitInteractive)
    } else if options.on_pane() {
        // In the pane, the key goes to the task's terminal
        Some(AppCommand::Input { bytes: encode_key(key_event) })
    } else if options.on_search() && (match code {
        KeyCode::Char(_) => true,
        _ => false,
    }) {
        match code {
            KeyCode::Char(c) => Some(AppCommand::SearchInputChar(c)),
            _ => None,
        }
    } else if options.on_search() && code == KeyCode::Backspace {
        Some(AppCommand::SearchBackspace)
    } else if (options.on_search() || tl) && code == KeyCode::Esc {
        Some(AppCommand::ExitSearch)
    } else if options.on_search() && code == KeyCode::Enter {
        Some(AppCommand::SearchRun)
    } else if options.on_help() && (code == KeyCode::Up || is_char('k')) {
        Some(AppCommand::ScrollUp(ScrollSize::One))
    } else if options.on_help() && (code == KeyCode::Down || is_char('j')) {
        Some(AppCommand::ScrollDown(ScrollSize::One))
    } else if options.on_help() && (code == KeyCode::Esc || is_char('?')) {
        Some(AppCommand::ExitHelp)
    } else if is_char('c') && key_event.modifiers.bits == CONTROL {
        Some(AppCommand::Quit)
    } else if tl && is_char('?') {
        Some(AppCommand::OpenHelp)
    } else {
        None
    }
}

/// The time from `older` to `newer`, or zero when `older` is the later.
pub open spec fn gap(newer: u64, older: u64) -> int {
    if newer >= older {
        newer - older
    } else {
        0
    }
}

/// The number of clicks before the one at `k` that each followed the one before within the
/// double-click time.
pub open spec fn earlier_clicks(times: Seq<u64>, k: int) -> nat
    decreases k,
{
    if k <= 0 || k >= times.len() {
        0
    } else if gap(times[k], times[k - 1]) > DOUBLE_CLICK_NANOS {
        0
    } else {
        1 + earlier_clicks(times, k - 1)
    }
}

/// The number of clicks in the last run of clicks, each within the double-click time of the
/// one before.
pub open spec fn spec_num_clicks(times: Seq<u64>) -> nat {
    1 + earlier_clicks(times, times.len() - 1)
}

/// Where a mouse event falls: whether on the task list, the row and column relative to the
/// pane, clamped to it, and the edge of the pane it went past, if any.
pub open spec fn mouse_position(o: InputOptions, ev: MouseEvent) -> (bool, u16, u16, Option<Direction>) {
    let row0 = ev.row - HEADER_HEIGHT;
    let cutoff = if o.sidebar_width >= 2 { o.sidebar_width - 2 } else { 0 };
    let on_sidebar = o.has_sidebar && ev.column < cutoff;
    let column = if o.has_sidebar && !on_sidebar { ev.column - o.sidebar_width } else { ev.column as int };
    let pane_rows = o.pane_rows as int;
    let (edge, row) = if !on_sidebar && pane_rows > 0 {
        if row0 < 0 {
            (Some(Direction::Up), 0)
        } else if row0 >= pane_rows - 1 {
            (Some(Direction::Down), pane_rows - 1)
        } else {
            (None, row0)
        }
    } else {
        (None, row0)
    };
    let row = if row < 0 { 0 } else { row };
    let column = if column < 0 { 0 } else { column };
    (on_sidebar, row as u16, column as u16, edge)
}

/// Whether a mouse event is a left click on the pane, the one event that is counted as a
/// click.
pub open spec fn is_pane_click(o: InputOptions, ev: MouseEvent) -> bool {
    ev.kind == MouseEventKind::Down(MouseButton::Left) && !mouse_position(o, ev).0
}

/// The command a mouse event gives, where `clicks` is the number of clicks counted for a left
/// click on the pane.
pub open spec fn mouse_command(o: InputOptions, ev: MouseEvent, clicks: nat) -> Option<AppCommandView> {
    let (on_sidebar, row, column, edge) = mouse_position(o, ev);
    match ev.kind {
        MouseEventKind::ScrollDown => if on_sidebar {
            Some(AppCommandView::Down)
        } else {
            Some(AppCommandView::ScrollDown(ScrollSize::One))
        },
        MouseEventKind::ScrollUp => if on_sidebar {
            Some(AppCommandView::Up)
        } else {
            Some(AppCommandView::ScrollUp(ScrollSize::One))
        },
        MouseEventKind::Down(MouseButton::Left) => if on_sidebar {
            Some(AppCommandView::Select { index: row as usize })
        } else if clicks == 1 {
            Some(AppCommandView::ClearSelection)
        } else {
            Some(AppCommandView::LineSelection { rows: row })
        },
        MouseEventKind::Drag(MouseButton::Left) => Some(AppCommandView::UpdateSelection { rows: row, cols: column, edge }),
        _ => None,
    }
}

/// Turns the terminal's events into commands, and counts the clicks that make a double or a
/// triple click.
#[derive(Debug, Clone)]
pub struct InputHandler {
    click_times: RingBuffer<u64>,
}

impl InputHandler {
    /// The times of the last clicks on the pane, oldest first.
    pub closed spec fn clicks(&self) -> Seq<u64> {
        self.click_times.items()
    }

    /// Whether the handler keeps the times of the last three clicks.
    pub closed spec fn wf(&self) -> bool {
        self.click_times.wf() && self.click_times.cap() == 3
    }

    /// A handler that has seen no click.
    pub fn new() -> (r: InputHandler)
        ensures
            r.wf(),
            r.clicks() == Seq::<u64>::empty(),
    {
        InputHandler { click_times: RingBuffer::new(3) }
    }

    /// The number of clicks in the last run of clicks that each followed the one before within
    /// the double-click time: 1 for a single click, 2 for a double click, 3 for a triple click.
    pub fn num_of_multiple_clicks(&self) -> (r: usize)
        requires
            self.wf(),
        ensures
            r == spec_num_clicks(self.clicks()),
            1 <= r <= 3,
    {
        let n = self.click_times.len();
        proof {
            self.click_times.lemma_bounded();
        }
        let mut count: usize = 1;
        if n < 2 {
            return count;
        }
        let mut k: usize = n - 1;
        while k > 0
            invariant
                self.wf(),
                n == self.clicks().len(),
                n <= 3,
                k < n,
                count + earlier_clicks(self.clicks(), k as int) == spec_num_clicks(self.clicks()),
                count + k == n,
            ensures
                count == spec_num_clicks(self.clicks()),
            decreases k,
        {
            let newer = *self.click_times.get(k);
            let older = *self.click_times.get(k - 1);
            let elapsed: u64 = if newer >= older {
                newer - older
            } else {
                0
            };
            if elapsed > DOUBLE_CLICK_NANOS {
                break;
            }
            count = count + 1;
            k = k - 1;
        }
        count
    }

    /// Handles an event of the terminal. `now` is the time of the event, in nanoseconds on a
    /// clock that only goes forward.
    pub fn handle(&mut self, event: Event, options: InputOptions, now: u64) -> (r: Option<AppCommand>)
        requires
            old(self).wf(),
            spec_on_pane(options) && event is Key ==> encodable(event->Key_0),
        ensures
            final(self).wf(),
            match event {
                Event::Key(k) => opt_command_view(r) == key_command(options, k) && final(self).clicks() == old(
                    self,
                ).clicks(),
                Event::Mouse(m) => mouse_result(*old(self), *final(self), options, m, now, r),
                Event::Resize(cols, rows) => opt_command_view(r) == Some(AppCommandView::Resize { rows, cols })
                    && final(self).clicks() == old(self).clicks(),
                _ => r is None && final(self).clicks() == old(self).clicks(),
            },
    {
        match event {
            Event::Key(k) => translate_key_event(options, k),
            Event::Mouse(m) => self.translate_mouse_event(options, m, now),
            Event::Resize(cols, rows) => Some(AppCommand::Resize { rows, cols }),
            _ => None,
        }
    }

    /// Converts a mouse event into a command. Rows are counted from the top of the pane and
    /// columns from its left border; the task list takes the clicks left of its border, less
    /// two columns of margin to make selecting the log easier.
    pub fn translate_mouse_event(&mut self, options: InputOptions, mouse_event: MouseEvent, now: u64) -> (r: Option<AppCommand>)
        requires
            old(self).wf(),
        ensures
            final(self).wf(),
            mouse_result(*old(self), *final(self), options, mouse_event, now, r),
    {
        let kind = mouse_event.kind;
        let mut row: i32 = mouse_event.row as i32 - HEADER_HEIGHT;
        let mut column: i32 = mouse_event.column as i32;

        // Check if the mouse event is within the sidebar area
        let on_sidebar = if options.has_sidebar {
            // To make it easier to select log ranges, treat the border and some margin as part of the pane
            let cutoff = options.sidebar_width.saturating_sub(2);
            let within_sidebar = mouse_event.column < cutoff;
            if !within_sidebar {
                // Adjust column to be relative to the pane area
                column = column - options.sidebar_width as i32;
            }
            if column < 0 {
                column = 0;
            }
            within_sidebar
        } else {
            false
        };

        let mut edge: Option<Direction> = None;
        let pane_rows: i32 = options.pane_rows as i32;
        if !on_sidebar && pane_rows > 0 {
            if row < 0 {
                edge = Some(Direction::Up);
                row = 0;
            } else if row >= pane_rows - 1 {
                edge = Some(Direction::Down);
                row = pane_rows - 1;
            }
        }
        if row < 0 {
            row = 0;
        }
        if column < 0 {
            column = 0;
        }
        let row = row as u16;
        let column = column as u16;
        assert(mouse_position(options, mouse_event) == (on_sidebar, row, column, edge));

        match kind {
            MouseEventKind::ScrollDown => if on_sidebar {
                Some(AppCommand::Down)
            } else {
                Some(AppCommand::ScrollDown(ScrollSize::One))
            },
            MouseEventKind::ScrollUp => if on_sidebar {
                Some(AppCommand::Up)
            } else {
                Some(AppCommand::ScrollUp(ScrollSize::One))
            },
            MouseEventKind::Down(MouseButton::Left) => if on_sidebar {
                Some(AppCommand::Select { index: row as usize })
            } else {
                self.click_times.push(now);
                let num_clicks = self.num_of_multiple_clicks();
                if num_clicks == 1 {
                    Some(AppCommand::ClearSelection)
                } else {
                    Some(AppCommand::LineSelection { rows: row })
                }
            },
            MouseEventKind::Drag(MouseButton::Left) => Some(AppCommand::UpdateSelection { rows: row, cols: column, edge }),
            _ => None,
        }
    }
}

/// What handling the mouse event `ev` at time `now` does: a left click on the pane records its
/// time, and every event gives the command of [`mouse_command`] with the clicks counted.
pub open spec fn mouse_result(
    before: InputHandler,
    after: InputHandler,
    o: InputOptions,
    ev: MouseEvent,
    now: u64,
    r: Option<AppCommand>,
) -> bool {
    let clicks = if is_pane_click(o, ev) {
        if before.clicks().len() == 3 {
            before.clicks().drop_first().push(now)
        } else {
            before.clicks().push(now)
        }
    } else {
        before.clicks()
    };
    &&& after.clicks() == clicks
    &&& opt_command_view(r) == mouse_command(o, ev, spec_num_clicks(clicks))
}

} // verus!
