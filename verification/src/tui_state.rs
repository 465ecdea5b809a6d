//! The state of the terminal user interface that the commands change: which task is selected,
//! where the focus is, and the messages and copies that wait for their time to come.
//!
//! Times are in nanoseconds on a clock that only goes forward; the caller reads the clock and
//! hands the time in.
use crate::command::{AppCommand, AppCommandView, Direction, ScrollSize, TaskResult, TaskStatus};
use crate::search::{step_down_index, step_up_index, Match, SearchResults};
use crate::size::{spec_pane_cols, SizeInfo, SizeInfoView};
use crate::text::{display_width, str_width};
use crate::input::DOUBLE_CLICK_NANOS;
use crate::layout::LayoutSections;
use crate::text::same_text;
use vstd::prelude::*;

verus! {

/// How long a transient toast, such as the one telling that a copy was made, stays visible.
pub const TOAST_NANOS: u64 = 1_500_000_000;

/// The characters of the quit message.
pub open spec fn quit_text() -> Seq<char> {
    seq![
        '\u{1FAA3}', ' ', 'Q', 'u', 'i', 't', 't', 'i', 'n', 'g', '.', '.', '.', ' ', '(', 'p', 'r', 'e', 's', 's',
        ' ', 'q', ' ', 't', 'o', ' ', 'f', 'o', 'r', 'c', 'e', ' ', 'q', 'u', 'i', 't', ')',
    ]
}

/// The characters of the force-quit message.
pub open spec fn force_quit_text() -> Seq<char> {
    seq!['\u{1F4A7}', ' ', 'F', 'o', 'r', 'c', 'e', ' ', 'q', 'u', 'i', 't', 't', 'i', 'n', 'g', '.', '.', '.']
}

/// The characters of the message shown after a copy.
pub open spec fn copied_text() -> Seq<char> {
    seq!['\u{1F4CB}', ' ', 'C', 'o', 'p', 'i', 'e', 'd', ' ', 't', 'o', ' ', 'c', 'l', 'i', 'p', 'b', 'o', 'a', 'r', 'd']
}

/// A short message shown in a box at the bottom of the screen. A toast without an expiry time
/// stays visible until it is replaced.
#[derive(Debug, Clone)]
pub struct Toast {
    pub message: String,
    pub expires_at: Option<u64>,
    /// Clear the log selection together when this toast disappears.
    pub clear_selection_on_expire: bool,
}

impl Toast {
    /// The toast telling that the selection was copied, shown from `now` for [`TOAST_NANOS`].
    pub fn copied(now: u64) -> (r: Toast)
        requires
            now + TOAST_NANOS <= u64::MAX,
        ensures
            r.message@ == copied_text(),
            r.expires_at == Some((now + TOAST_NANOS) as u64),
            r.clear_selection_on_expire,
    {
        let message = "\u{1F4CB} Copied to clipboard".to_string();
        proof {
            reveal_strlit("\u{1F4CB} Copied to clipboard");
        }
        Toast { message, expires_at: Some(now + TOAST_NANOS), clear_selection_on_expire: true }
    }

    /// A toast that stays until it is replaced.
    pub fn persistent(message: &str) -> (r: Toast)
        ensures
            r.message@ == message@,
            r.expires_at is None,
            !r.clear_selection_on_expire,
    {
        Toast { message: message.to_string(), expires_at: None, clear_selection_on_expire: false }
    }
}

/// What the interface knows of a task: its name, whether its terminal takes input, and where
/// it stands.
#[derive(Debug, Clone)]
pub struct TaskSlot {
    pub name: String,
    pub has_stdin: bool,
    pub status: TaskStatus,
}

/// The state of the terminal user interface.
pub struct TuiAppState {
    pub size: SizeInfo,
    /// The width and height of the text of the help dialog
    pub help_width: usize,
    pub help_height: usize,
    pub tasks: Vec<TaskSlot>,
    pub focus: LayoutSections,
    pub selected_task_index: usize,
    pub has_sidebar: bool,
    pub quitting: bool,
    pub force_quitting: bool,
    pub done: bool,
    /// Message shown at the bottom of the screen, if any.
    pub toast: Option<Toast>,
    /// When to copy a multi-click selection. Waiting out the multi-click window keeps the
    /// double-click stage of a triple-click from copying.
    pub pending_copy_at: Option<u64>,
}

/// What a state asks of the interface once a toast has gone: nothing, or to clear the selection
/// of the log too.
#[derive(Debug, Clone, Copy, PartialEq, Eq, Structural)]
pub enum ToastExpiry {
    /// The toast stays.
    Kept,
    /// The toast is gone.
    Removed { clear_selection: bool },
}

/// What the interface asks of the terminals, the runner and the host once a command changed
/// its state: the parts the state does not hold.
#[derive(Debug)]
pub enum UiEffect {
    /// Tell the runner to quit
    RunnerQuit,
    StopTask { task: String },
    RestartTask { task: String, force: bool },
    /// Scroll the output of the selected task; a stride of 0 goes to the far end
    ScrollOutput { direction: Direction, stride: usize },
    /// Show the grid row at the top of the output of the selected task
    ScrollToRow { row: usize },
    /// Feed bytes to the terminal of a task
    ProcessOutput { task: String, output: Vec<u8> },
    /// Send bytes to the selected task, after scrolling its output to the bottom
    ForwardInput { bytes: Vec<u8> },
    ClearSelection,
    WordSelection { rows: u16, cols: u16 },
    LineSelection { rows: u16 },
    /// Move the end of the selection, after scrolling a row when it went past an edge
    UpdateSelection { rows: u16, cols: u16, edge: Option<Direction> },
    /// Copy the selection, and report back whether there was one
    CopySelection,
    /// Size every task's terminal to the pane
    ResizeOutputs { rows: u16, cols: u16 },
    /// Answer the runner's question about the size of the pane
    ReplyPaneSize { rows: u16, cols: u16 },
    /// Drop the input of a task
    DropStdin { task: String },
    Hover { row: u16, col: u16 },
    Click { row: u16, col: u16 },
    OpenUrl { url: String },
    /// Mark or unmark the cells of a match in the output of the selected task
    Highlight { row: usize, col: usize, len: usize, on: bool },
    /// Search the output of the selected task, and report the results back
    RunSearch { query: String },
}

/// What an effect says.
pub enum UiEffectView {
    RunnerQuit,
    StopTask { task: Seq<char> },
    RestartTask { task: Seq<char>, force: bool },
    ScrollOutput { direction: Direction, stride: usize },
    ScrollToRow { row: usize },
    ProcessOutput { task: Seq<char>, output: Seq<u8> },
    ForwardInput { bytes: Seq<u8> },
    ClearSelection,
    WordSelection { rows: u16, cols: u16 },
    LineSelection { rows: u16 },
    UpdateSelection { rows: u16, cols: u16, edge: Option<Direction> },
    CopySelection,
    ResizeOutputs { rows: u16, cols: u16 },
    ReplyPaneSize { rows: u16, cols: u16 },
    DropStdin { task: Seq<char> },
    Hover { row: u16, col: u16 },
    Click { row: u16, col: u16 },
    OpenUrl { url: Seq<char> },
    Highlight { row: usize, col: usize, len: usize, on: bool },
    RunSearch { query: Seq<char> },
}

impl View for UiEffect {
    type V = UiEffectView;

    open spec fn view(&self) -> UiEffectView {
        match self {
            UiEffect::RunnerQuit => UiEffectView::RunnerQuit,
            UiEffect::StopTask { task } => UiEffectView::StopTask { task: task@ },
            UiEffect::RestartTask { task, force } => UiEffectView::RestartTask { task: task@, force: *force },
            UiEffect::ScrollOutput { direction, stride } => UiEffectView::ScrollOutput {
                direction: *direction,
                stride: *stride,
            },
            UiEffect::ScrollToRow { row } => UiEffectView::ScrollToRow { row: *row },
            UiEffect::ProcessOutput { task, output } => UiEffectView::ProcessOutput { task: task@, output: output@ },
            UiEffect::ForwardInput { bytes } => UiEffectView::ForwardInput { bytes: bytes@ },
            UiEffect::ClearSelection => UiEffectView::ClearSelection,
            UiEffect::WordSelection { rows, cols } => UiEffectView::WordSelection { rows: *rows, cols: *cols },
            UiEffect::LineSelection { rows } => UiEffectView::LineSelection { rows: *rows },
            UiEffect::UpdateSelection { rows, cols, edge } => UiEffectView::UpdateSelection {
                rows: *rows,
                cols: *cols,
                edge: *edge,
            },
            UiEffect::CopySelection => UiEffectView::CopySelection,
            UiEffect::ResizeOutputs { rows, cols } => UiEffectView::ResizeOutputs { rows: *rows, cols: *cols },
            UiEffect::ReplyPaneSize { rows, cols } => UiEffectView::ReplyPaneSize { rows: *rows, cols: *cols },
            UiEffect::DropStdin { task } => UiEffectView::DropStdin { task: task@ },
            UiEffect::Hover { row, col } => UiEffectView::Hover { row: *row, col: *col },
            UiEffect::Click { row, col } => UiEffectView::Click { row: *row, col: *col },
            UiEffect::OpenUrl { url } => UiEffectView::OpenUrl { url: url@ },
            UiEffect::Highlight { row, col, len, on } => UiEffectView::Highlight {
                row: *row,
                col: *col,
                len: *len,
                on: *on,
            },
            UiEffect::RunSearch { query } => UiEffectView::RunSearch { query: query@ },
        }
    }
}

/// The views of a list of effects.
pub open spec fn effects_view(e: Seq<UiEffect>) -> Seq<UiEffectView> {
    e.map_values(|x: UiEffect| x@)
}

/// No effect.
pub fn no_effects() -> (r: Vec<UiEffect>)
    ensures
        effects_view(r@) == Seq::<UiEffectView>::empty(),
{
    let r: Vec<UiEffect> = Vec::new();
    proof {
        assert(effects_view(r@) =~= Seq::<UiEffectView>::empty());
    }
    r
}

/// The one effect `e`.
pub fn one_effect(e: UiEffect) -> (r: Vec<UiEffect>)
    ensures
        effects_view(r@) == seq![e@],
{
    let ghost v = e@;
    let mut r: Vec<UiEffect> = Vec::new();
    r.push(e);
    proof {
        assert(effects_view(r@) =~= seq![v]);
    }
    r
}

/// Why a command could not be carried out.
#[derive(Debug, Clone, Copy, PartialEq, Eq, Structural)]
pub enum StateError {
    /// No task has the name given
    TaskNotFound,
}

/// The first position from `k` on of the task named `name`.
pub open spec fn task_pos(slots: Seq<(Seq<char>, bool, TaskStatus)>, name: Seq<char>, k: int) -> Option<int>
    decreases slots.len() - k,
{
    if k < 0 || k >= slots.len() {
        None
    } else if slots[k].0 == name {
        Some(k)
    } else {
        task_pos(slots, name, k + 1)
    }
}

/// Whether two states agree on everything but the focus.
pub open spec fn same_but_focus(a: TuiAppState, b: TuiAppState) -> bool {
    &&& a.size == b.size
    &&& a.help_width == b.help_width
    &&& a.help_height == b.help_height
    &&& a.tasks == b.tasks
    &&& a.selected_task_index == b.selected_task_index
    &&& a.has_sidebar == b.has_sidebar
    &&& a.quitting == b.quitting
    &&& a.force_quitting == b.force_quitting
    &&& a.done == b.done
    &&& a.toast == b.toast
    &&& a.pending_copy_at == b.pending_copy_at
}

/// Whether two states agree on everything but the selected task.
pub open spec fn same_but_selection(a: TuiAppState, b: TuiAppState) -> bool {
    same_but_focus(a, TuiAppState { focus: a.focus, selected_task_index: a.selected_task_index, ..b }) && a.focus
        == b.focus
}

/// Whether two states agree on everything but the toast and the scheduled copy.
pub open spec fn same_but_copy(a: TuiAppState, b: TuiAppState) -> bool {
    same_but_focus(a, TuiAppState { focus: a.focus, toast: a.toast, pending_copy_at: a.pending_copy_at, ..b })
        && a.focus == b.focus
}

/// A task found from `k` on is one of the tasks from `k` on, and has the name.
pub proof fn lemma_task_pos_bounds(slots: Seq<(Seq<char>, bool, TaskStatus)>, name: Seq<char>, k: int)
    ensures
        task_pos(slots, name, k) matches Some(i) ==> k <= i < slots.len() && slots[i].0 == name,
    decreases slots.len() - k,
{
    if 0 <= k < slots.len() && slots[k].0 != name {
        lemma_task_pos_bounds(slots, name, k + 1);
    }
}

/// Changing a slot but not its name keeps where each name is found.
pub proof fn lemma_task_pos_update(
    slots: Seq<(Seq<char>, bool, TaskStatus)>,
    name: Seq<char>,
    i: int,
    v: (Seq<char>, bool, TaskStatus),
    k: int,
)
    requires
        0 <= i < slots.len(),
        v.0 == slots[i].0,
    ensures
        task_pos(slots.update(i, v), name, k) == task_pos(slots, name, k),
    decreases slots.len() - k,
{
    if 0 <= k < slots.len() && slots[k].0 != name {
        lemma_task_pos_update(slots, name, i, v, k + 1);
    }
}

impl TuiAppState {
    /// Whether there is a task and the selection points at one.
    pub open spec fn wf(&self) -> bool {
        &&& 0 < self.tasks.len()
        &&& self.selected_task_index < self.tasks.len()
        &&& self.size.wf()
        &&& (self.focus matches LayoutSections::TaskList(Some(r)) ==> r.wf())
        &&& self.help_width <= 60000
        &&& self.help_height <= 60000
    }

    /// Whether the focus is on the pane of the task named `task`.
    pub open spec fn spec_interacting_with(&self, task: Seq<char>) -> bool {
        self.focus is Pane && self.slots()[self.selected_task_index as int].0 == task
    }

    /// The state of an interface showing the tasks `names`, the first selected, the task list
    /// focused.
    pub fn new(names: &[&str], rows: u16, cols: u16, help_width: usize, help_height: usize) -> (r: TuiAppState)
        requires
            names.len() > 0,
            help_width <= 60000,
            help_height <= 60000,
        ensures
            r.wf(),
            r.size@.rows == rows,
            r.size@.cols == cols,
            r.help_width == help_width,
            r.help_height == help_height,
            r.tasks.len() == names.len(),
            forall|i: int| 0 <= i < names.len() ==> r.tasks@[i].name@ == names@[i]@ && !r.tasks@[i].has_stdin
                && r.tasks@[i].status == TaskStatus::Planned,
            r.focus matches LayoutSections::TaskList(None),
            r.selected_task_index == 0,
            r.has_sidebar,
            !r.quitting && !r.force_quitting && !r.done,
            r.toast is None,
            r.pending_copy_at is None,
    {
        let mut tasks: Vec<TaskSlot> = Vec::new();
        let mut i: usize = 0;
        while i < names.len()
            invariant
                i <= names.len(),
                tasks.len() == i,
                forall|j: int| 0 <= j < i ==> tasks@[j].name@ == names@[j]@ && !tasks@[j].has_stdin
                    && tasks@[j].status == TaskStatus::Planned,
            decreases names.len() - i,
        {
            tasks.push(TaskSlot { name: names[i].to_string(), has_stdin: false, status: TaskStatus::Planned });
            i = i + 1;
        }
        TuiAppState {
            size: SizeInfo::new(rows, cols, names),
            help_width,
            help_height,
            tasks,
            focus: LayoutSections::TaskList(None),
            selected_task_index: 0,
            has_sidebar: true,
            quitting: false,
            force_quitting: false,
            done: false,
            toast: None,
            pending_copy_at: None,
        }
    }

    /// What the interface knows of each task: its name, whether its terminal takes input, and
    /// its status.
    pub open spec fn slots(&self) -> Seq<(Seq<char>, bool, TaskStatus)> {
        self.tasks@.map_values(|t: TaskSlot| (t.name@, t.has_stdin, t.status))
    }

    /// The position of the task named `task`, if there is one: the first with that name.
    pub fn task_index(&self, task: &str) -> (r: Option<usize>)
        ensures
            match r {
                Some(i) => task_pos(self.slots(), task@, 0) == Some(i as int) && i < self.tasks.len(),
                None => task_pos(self.slots(), task@, 0) is None,
            },
    {
        let ghost v = self.slots();
        let mut i: usize = 0;
        while i < self.tasks.len()
            invariant
                i <= self.tasks.len(),
                v == self.slots(),
                task_pos(v, task@, 0) == task_pos(v, task@, i as int),
            decreases self.tasks.len() - i,
        {
            if same_text(self.tasks[i].name.as_str(), task) {
                proof {
                    assert(v[i as int].0 == task@);
                }
                return Some(i);
            }
            proof {
                assert(v[i as int].0 != task@);
            }
            i = i + 1;
        }
        None
    }

    /// Selects the next task, staying on the last.
    pub fn select_next_task(&mut self)
        requires
            old(self).wf(),
        ensures
            final(self).wf(),
            final(self).selected_task_index == (if old(self).selected_task_index + 1 < old(self).tasks.len() {
                old(self).selected_task_index + 1
            } else {
                old(self).tasks.len() - 1
            }),
            same_but_selection(*final(self), *old(self)),
    {
        let num_rows = self.tasks.len();
        let next = self.selected_task_index + 1;
        self.selected_task_index = if next < num_rows {
            next
        } else {
            num_rows - 1
        };
    }

    /// Selects the previous task, staying on the first.
    pub fn select_previous_task(&mut self)
        requires
            old(self).wf(),
        ensures
            final(self).wf(),
            final(self).selected_task_index == (if old(self).selected_task_index == 0 {
                0
            } else {
                old(self).selected_task_index - 1
            }),
            same_but_selection(*final(self), *old(self)),
    {
        self.selected_task_index = if self.selected_task_index == 0 {
            0
        } else {
            self.selected_task_index - 1
        };
    }

    /// Selects the task at `index`; an index past the last task changes nothing.
    pub fn select_task(&mut self, index: usize)
        requires
            old(self).wf(),
        ensures
            final(self).wf(),
            final(self).selected_task_index == (if index < old(self).tasks.len() {
                index
            } else {
                old(self).selected_task_index
            }),
            same_but_selection(*final(self), *old(self)),
    {
        if index >= self.tasks.len() {
            return;
        }
        self.selected_task_index = index;
    }

    /// Whether the focus is on the pane of the task named `task`.
    pub fn is_interacting_with(&self, task: &str) -> (r: bool)
        requires
            self.wf(),
        ensures
            r == self.spec_interacting_with(task@),
    {
        match self.focus {
            LayoutSections::Pane => same_text(self.tasks[self.selected_task_index].name.as_str(), task),
            _ => false,
        }
    }

    /// Moves the focus to the pane, when the selected task's terminal takes input.
    pub fn enter_interaction(&mut self)
        requires
            old(self).wf(),
        ensures
            final(self).wf(),
            same_but_focus(*final(self), *old(self)),
            old(self).tasks@[old(self).selected_task_index as int].has_stdin ==> final(self).focus is Pane,
            !old(self).tasks@[old(self).selected_task_index as int].has_stdin ==> final(self).focus == old(
                self,
            ).focus,
    {
        if self.tasks[self.selected_task_index].has_stdin {
            self.focus = LayoutSections::Pane;
        }
    }

    /// Moves the focus from the pane back to the task list.
    pub fn exit_interaction(&mut self)
        ensures
            same_but_focus(*final(self), *old(self)),
            old(self).focus is Pane ==> final(self).focus matches LayoutSections::TaskList(None),
            !(old(self).focus is Pane) ==> final(self).focus == old(self).focus,
    {
        match self.focus {
            LayoutSections::Pane => {
                self.focus = LayoutSections::TaskList(None);
            },
            _ => {},
        }
    }

    /// Records whether the terminal of the task named `task` takes input.
    pub fn insert_stdin(&mut self, task: &str, has_stdin: bool) -> (r: Result<(), StateError>)
        requires
            old(self).wf(),
        ensures
            final(self).wf(),
            final(self).focus == old(self).focus,
            final(self).selected_task_index == old(self).selected_task_index,
            final(self).size == old(self).size,
            final(self).tasks.len() == old(self).tasks.len(),
            match task_pos(old(self).slots(), task@, 0) {
                Some(i) => r is Ok && final(self).slots() == old(self).slots().update(
                    i,
                    (old(self).slots()[i].0, has_stdin, old(self).slots()[i].2),
                ),
                None => r is Err && final(self).slots() == old(self).slots(),
            },
    {
        match self.task_index(task) {
            Some(i) => {
                let ghost before = self.slots();
                let slot = TaskSlot { name: self.tasks[i].name.clone(), has_stdin, status: self.tasks[i].status };
                self.tasks.set(i, slot);
                proof {
                    assert(self.slots() =~= before.update(i as int, (before[i as int].0, has_stdin, before[i as int].2)));
                }
                Ok(())
            },
            None => Err(StateError::TaskNotFound),
        }
    }

    /// Records the status of the task named `task`.
    pub fn set_status(&mut self, task: &str, status: TaskStatus) -> (r: Result<(), StateError>)
        requires
            old(self).wf(),
        ensures
            final(self).wf(),
            final(self).focus == old(self).focus,
            final(self).selected_task_index == old(self).selected_task_index,
            final(self).size == old(self).size,
            final(self).tasks.len() == old(self).tasks.len(),
            match task_pos(old(self).slots(), task@, 0) {
                Some(i) => r is Ok && final(self).slots() == old(self).slots().update(
                    i,
                    (old(self).slots()[i].0, old(self).slots()[i].1, status),
                ),
                None => r is Err && final(self).slots() == old(self).slots(),
            },
    {
        match self.task_index(task) {
            Some(i) => {
                let ghost before = self.slots();
                let slot = TaskSlot { name: self.tasks[i].name.clone(), has_stdin: self.tasks[i].has_stdin, status };
                self.tasks.set(i, slot);
                proof {
                    assert(self.slots() =~= before.update(i as int, (before[i as int].0, before[i as int].1, status)));
                }
                Ok(())
            },
            None => Err(StateError::TaskNotFound),
        }
    }

    /// Records that the task named `task` ended with `result`. A finished task has no input, so
    /// the focus leaves its pane, unless it is reloading, which runs it again right away.
    pub fn finish_task(&mut self, task: &str, result: TaskResult) -> (r: Result<(), StateError>)
        requires
            old(self).wf(),
        ensures
            final(self).wf(),
            final(self).selected_task_index == old(self).selected_task_index,
            final(self).size == old(self).size,
            final(self).tasks.len() == old(self).tasks.len(),
            match task_pos(old(self).slots(), task@, 0) {
                Some(i) => r is Ok && final(self).slots() == old(self).slots().update(
                    i,
                    (old(self).slots()[i].0, old(self).slots()[i].1, TaskStatus::Finished(result)),
                ) && (if result != TaskResult::Reloading && old(self).spec_interacting_with(task@) {
                    final(self).focus matches LayoutSections::TaskList(None)
                } else {
                    final(self).focus == old(self).focus
                }),
                None => r is Err && final(self).slots() == old(self).slots() && final(self).focus == old(self).focus,
            },
    {
        let ghost before = self.slots();
        let interacting = self.is_interacting_with(task);
        match self.set_status(task, TaskStatus::Finished(result)) {
            Ok(()) => {
                if result != TaskResult::Reloading && interacting {
                    self.exit_interaction();
                }
                Ok(())
            },
            Err(e) => Err(e),
        }
    }

    /// Scrolls the help dialog up by a row.
    pub fn scroll_help_up(&mut self)
        ensures
            match old(self).focus {
                LayoutSections::Help { scroll, max_scroll } => final(self).focus == (LayoutSections::Help {
                    scroll: if scroll > 0 { (scroll - 1) as usize } else { 0 },
                    max_scroll,
                }),
                _ => final(self).focus == old(self).focus,
            },
            same_but_focus(*final(self), *old(self)),
    {
        match self.focus {
            LayoutSections::Help { scroll, max_scroll } => {
                self.focus = LayoutSections::Help { max_scroll, scroll: scroll.saturating_sub(1) };
            },
            _ => {},
        }
    }

    /// Scrolls the help dialog down by a row, as far as it goes.
    pub fn scroll_help_down(&mut self)
        ensures
            match old(self).focus {
                LayoutSections::Help { scroll, max_scroll } => final(self).focus == (LayoutSections::Help {
                    scroll: if scroll < max_scroll { (scroll + 1) as usize } else { max_scroll },
                    max_scroll,
                }),
                _ => final(self).focus == old(self).focus,
            },
            same_but_focus(*final(self), *old(self)),
    {
        match self.focus {
            LayoutSections::Help { scroll, max_scroll } => {
                let next = scroll.saturating_add(1);
                self.focus = LayoutSections::Help { max_scroll, scroll: if next < max_scroll { next } else { max_scroll } };
            },
            _ => {},
        }
    }

    /// Opens the help dialog at its top, with `max_scroll` rows to scroll.
    pub fn open_help(&mut self, max_scroll: usize)
        ensures
            final(self).focus == (LayoutSections::Help { scroll: 0, max_scroll }),
            same_but_focus(*final(self), *old(self)),
    {
        self.focus = LayoutSections::Help { scroll: 0, max_scroll };
    }

    /// Schedules a copy of the current selection for when the multi-click window has passed, so
    /// a further click can still upgrade (and cancel) it instead of copying twice.
    pub fn defer_copy_selection(&mut self, now: u64)
        requires
            now + DOUBLE_CLICK_NANOS <= u64::MAX,
        ensures
            final(self).pending_copy_at == Some((now + DOUBLE_CLICK_NANOS) as u64),
            final(self).toast == old(self).toast,
            same_but_copy(*final(self), *old(self)),
    {
        self.pending_copy_at = Some(now + DOUBLE_CLICK_NANOS);
    }

    /// Whether the scheduled copy is due at `now`: then it is taken off the schedule, and the
    /// caller copies the selection.
    pub fn take_due_copy(&mut self, now: u64) -> (r: bool)
        ensures
            r == (old(self).pending_copy_at matches Some(at) && at <= now),
            final(self).pending_copy_at == (if r { None } else { old(self).pending_copy_at }),
            final(self).toast == old(self).toast,
            same_but_copy(*final(self), *old(self)),
    {
        match self.pending_copy_at {
            Some(at) => if at <= now {
                self.pending_copy_at = None;
                true
            } else {
                false
            },
            None => false,
        }
    }

    /// Shows the toast telling that the selection was copied at `now`.
    pub fn copied(&mut self, now: u64)
        requires
            now + TOAST_NANOS <= u64::MAX,
        ensures
            final(self).toast matches Some(t) && t.message@ == copied_text() && t.expires_at == Some(
                (now + TOAST_NANOS) as u64,
            ) && t.clear_selection_on_expire,
            final(self).pending_copy_at == old(self).pending_copy_at,
            same_but_copy(*final(self), *old(self)),
    {
        self.toast = Some(Toast::copied(now));
    }

    /// Drops the toast if its display time has elapsed at `now`, and tells whether the log
    /// selection goes with it (the copy toast).
    pub fn expire_toast(&mut self, now: u64) -> (r: ToastExpiry)
        ensures
            match old(self).toast {
                Some(t) if t.expires_at matches Some(at) && at <= now => final(self).toast is None && r
                    == ToastExpiry::Removed { clear_selection: t.clear_selection_on_expire },
                _ => final(self).toast == old(self).toast && r == ToastExpiry::Kept,
            },
            final(self).pending_copy_at == old(self).pending_copy_at,
            same_but_copy(*final(self), *old(self)),
    {
        let expired = match &self.toast {
            Some(t) => match t.expires_at {
                Some(at) => at <= now,
                None => false,
            },
            None => false,
        };
        if expired {
            let clear = match &self.toast {
                Some(t) => t.clear_selection_on_expire,
                None => false,
            };
            self.toast = None;
            ToastExpiry::Removed { clear_selection: clear }
        } else {
            ToastExpiry::Kept
        }
    }

    /// Drops a pending copy toast and any scheduled copy when the user starts a new selection,
    /// so neither can fire against the selection being made.
    pub fn cancel_copy_feedback(&mut self)
        ensures
            final(self).pending_copy_at is None,
            match old(self).toast {
                Some(t) if t.clear_selection_on_expire => final(self).toast is None,
                _ => final(self).toast == old(self).toast,
            },
            same_but_copy(*final(self), *old(self)),
    {
        self.pending_copy_at = None;
        let drop = match &self.toast {
            Some(t) => t.clear_selection_on_expire,
            None => false,
        };
        if drop {
            self.toast = None;
        }
    }

    /// Asks to quit: a second request forces it. The quit message stays until the interface
    /// exits.
    pub fn quit(&mut self)
        ensures
            final(self).quitting,
            final(self).force_quitting == (old(self).force_quitting || old(self).quitting),
            final(self).toast matches Some(t) && t.expires_at is None && !t.clear_selection_on_expire
                && t.message@ == (if final(self).force_quitting { force_quit_text() } else { quit_text() }),
            same_but_focus(*final(self), TuiAppState { quitting: final(self).quitting, force_quitting: final(self).force_quitting, toast: final(self).toast, focus: final(self).focus, ..*old(self) }),
            final(self).focus == old(self).focus,
    {
        if self.quitting {
            self.force_quitting = true;
        }
        self.quitting = true;
        let message = if self.force_quitting {
            "\u{1F4A7} Force quitting..."
        } else {
            "\u{1FAA3} Quitting... (press q to force quit)"
        };
        proof {
            reveal_strlit("\u{1F4A7} Force quitting...");
            reveal_strlit("\u{1FAA3} Quitting... (press q to force quit)");
        }
        self.toast = Some(Toast::persistent(message));
    }

    /// Starts a search: the focus goes to an empty search line.
    pub fn enter_search(&mut self)
        ensures
            final(self).focus matches LayoutSections::Search { query } && query@ == Seq::<char>::empty(),
            same_but_focus(*final(self), *old(self)),
    {
        self.focus = LayoutSections::Search { query: String::new() };
    }

    /// Adds `c` to the query being typed; outside the search line nothing changes.
    pub fn search_input_char(&mut self, c: char)
        ensures
            match old(self).focus {
                LayoutSections::Search { query } => final(self).focus matches LayoutSections::Search { query: q }
                    && q@ == query@.push(c),
                _ => final(self).focus == old(self).focus,
            },
            same_but_focus(*final(self), *old(self)),
    {
        match &self.focus {
            LayoutSections::Search { query } => {
                let mut chars = crate::text::chars_of(query.as_str());
                chars.push(c);
                let q = crate::text::string_from_chars(chars.as_slice());
                self.focus = LayoutSections::Search { query: q };
            },
            _ => {},
        }
    }

    /// Removes the last character of the query being typed. Removing from an empty query leaves
    /// the search, as the result tells: the caller then ends the search.
    pub fn search_remove_char(&mut self) -> (r: bool)
        ensures
            match old(self).focus {
                LayoutSections::Search { query } => if query@.len() == 0 {
                    r && final(self).focus == old(self).focus
                } else {
                    !r && (final(self).focus matches LayoutSections::Search { query: q } && q@ == query@.drop_last())
                },
                _ => !r && final(self).focus == old(self).focus,
            },
            same_but_focus(*final(self), *old(self)),
    {
        match &self.focus {
            LayoutSections::Search { query } => {
                let mut chars = crate::text::chars_of(query.as_str());
                if chars.len() == 0 {
                    return true;
                }
                chars.pop();
                let q = crate::text::string_from_chars(chars.as_slice());
                self.focus = LayoutSections::Search { query: q };
                false
            },
            _ => false,
        }
    }


    /// The name of the selected task.
    pub open spec fn active_name(&self) -> Seq<char> {
        self.slots()[self.selected_task_index as int].0
    }

    /// The effects that unmark the match shown, when the results shown are those of the
    /// selected task.
    pub open spec fn unhighlight(&self) -> Seq<UiEffectView> {
        match self.focus {
            LayoutSections::TaskList(Some(r)) => if r.task@ == self.active_name() && r.matches.len() > 0 {
                let m = r.matches@[r.index as int];
                seq![UiEffectView::Highlight { row: m.0, col: m.1, len: str_width(r.query@), on: false }]
            } else {
                Seq::empty()
            },
            _ => Seq::empty(),
        }
    }

    /// Whether ending the search moves the focus to the task list: from anywhere but the task
    /// list, or from the results of the selected task's search.
    pub open spec fn exits_search(&self) -> bool {
        match self.focus {
            LayoutSections::TaskList(None) => false,
            LayoutSections::TaskList(Some(r)) => r.task@ == self.active_name(),
            _ => true,
        }
    }

    /// The effects that unmark the match shown; see [`Self::unhighlight`].
    pub fn remove_search_highlight(&self) -> (r: Vec<UiEffect>)
        requires
            self.wf(),
        ensures
            effects_view(r@) == self.unhighlight(),
    {
        let mut r: Vec<UiEffect> = Vec::new();
        match &self.focus {
            LayoutSections::TaskList(Some(results)) => {
                if same_text(self.tasks[self.selected_task_index].name.as_str(), results.task.as_str()) {
                    match results.current() {
                        Some(Match(row, col)) => {
                            let len = display_width(results.query.as_str());
                            r.push(UiEffect::Highlight { row, col, len, on: false });
                        },
                        None => {},
                    }
                }
            },
            _ => {},
        }
        proof {
            assert(effects_view(r@) =~= self.unhighlight());
        }
        r
    }

    /// Ends the search: the match shown is unmarked and the focus goes back to the task list,
    /// but for the results of another task's search, which stay.
    pub fn exit_search(&mut self) -> (r: Vec<UiEffect>)
        requires
            old(self).wf(),
        ensures
            final(self).wf(),
            effects_view(r@) == (if old(self).exits_search() { old(self).unhighlight() } else { Seq::empty() }),
            old(self).exits_search() ==> final(self).focus matches LayoutSections::TaskList(None),
            !old(self).exits_search() ==> final(self).focus == old(self).focus,
            same_but_focus(*final(self), *old(self)),
    {
        let exits = match &self.focus {
            LayoutSections::TaskList(None) => false,
            LayoutSections::TaskList(Some(results)) => same_text(
                self.tasks[self.selected_task_index].name.as_str(),
                results.task.as_str(),
            ),
            _ => true,
        };
        if !exits {
            proof {
                assert(effects_view(Seq::<UiEffect>::empty()) =~= Seq::<UiEffectView>::empty());
            }
            return Vec::new();
        }
        let effects = self.remove_search_highlight();
        self.focus = LayoutSections::TaskList(None);
        effects
    }

    /// Starts a search: the match shown is unmarked, and the focus goes to an empty search line.
    pub fn start_search(&mut self) -> (r: Vec<UiEffect>)
        requires
            old(self).wf(),
        ensures
            final(self).wf(),
            effects_view(r@) == old(self).unhighlight(),
            final(self).focus matches LayoutSections::Search { query } && query@ == Seq::<char>::empty(),
            same_but_focus(*final(self), *old(self)),
    {
        let effects = self.remove_search_highlight();
        self.enter_search();
        effects
    }

    /// Shows the results of a search of the selected task: the focus goes to the task list
    /// with them, and the match shown is marked and scrolled to.
    pub fn show_search_results(&mut self, results: SearchResults) -> (r: Vec<UiEffect>)
        requires
            old(self).wf(),
            results.wf(),
        ensures
            final(self).wf(),
            final(self).focus == LayoutSections::TaskList(Some(results)),
            results.matches.len() == 0 ==> effects_view(r@) == Seq::<UiEffectView>::empty(),
            results.matches.len() > 0 ==> ({
                let m = results.matches@[results.index as int];
                effects_view(r@) == seq![
                    UiEffectView::Highlight { row: m.0, col: m.1, len: str_width(results.query@), on: true },
                    UiEffectView::ScrollToRow { row: m.0 },
                ]
            }),
            same_but_focus(*final(self), *old(self)),
    {
        let mut r: Vec<UiEffect> = Vec::new();
        match results.current() {
            Some(Match(row, col)) => {
                let len = display_width(results.query.as_str());
                r.push(UiEffect::Highlight { row, col, len, on: true });
                r.push(UiEffect::ScrollToRow { row });
            },
            None => {},
        }
        self.focus = LayoutSections::TaskList(Some(results));
        proof {
            assert(effects_view(r@) =~= (if results.matches.len() == 0 {
                Seq::<UiEffectView>::empty()
            } else {
                let m = results.matches@[results.index as int];
                seq![
                    UiEffectView::Highlight { row: m.0, col: m.1, len: str_width(results.query@), on: true },
                    UiEffectView::ScrollToRow { row: m.0 },
                ]
            }));
        }
        r
    }

    /// Asks to search the output of the selected task for the query typed, unless it is empty.
    pub fn run_search(&self) -> (r: Vec<UiEffect>)
        ensures
            match self.focus {
                LayoutSections::Search { query } => if query@.len() == 0 {
                    effects_view(r@) == Seq::<UiEffectView>::empty()
                } else {
                    effects_view(r@) == seq![UiEffectView::RunSearch { query: query@ }]
                },
                _ => effects_view(r@) == Seq::<UiEffectView>::empty(),
            },
    {
        let mut r: Vec<UiEffect> = Vec::new();
        match &self.focus {
            LayoutSections::Search { query } => {
                if !query.as_str().is_empty() {
                    r.push(UiEffect::RunSearch { query: query.clone() });
                }
            },
            _ => {},
        }
        proof {
            assert(effects_view(r@) =~= match self.focus {
                LayoutSections::Search { query } => if query@.len() == 0 {
                    Seq::<UiEffectView>::empty()
                } else {
                    seq![UiEffectView::RunSearch { query: query@ }]
                },
                _ => Seq::<UiEffectView>::empty(),
            });
        }
        r
    }

    /// Moves to the next match (`next`) or the previous one, when results are shown: the match
    /// shown is unmarked, and the new one marked and scrolled to.
    pub fn step_search_result(&mut self, next: bool) -> (r: Vec<UiEffect>)
        requires
            old(self).wf(),
        ensures
            final(self).wf(),
            same_but_focus(*final(self), *old(self)),
            match old(self).focus {
                LayoutSections::TaskList(Some(res)) => {
                    let n = res.matches.len() as int;
                    let index = if next == !res.backward {
                        step_down_index(res.index as int, n)
                    } else {
                        step_up_index(res.index as int, n)
                    };
                    &&& final(self).focus == LayoutSections::TaskList(Some(SearchResults { index: index as usize, ..res }))
                    &&& effects_view(r@) == old(self).unhighlight() + (if n == 0 {
                        Seq::<UiEffectView>::empty()
                    } else {
                        let m = res.matches@[index];
                        seq![
                            UiEffectView::Highlight { row: m.0, col: m.1, len: str_width(res.query@), on: true },
                            UiEffectView::ScrollToRow { row: m.0 },
                        ]
                    })
                },
                _ => final(self).focus == old(self).focus && effects_view(r@) == Seq::<UiEffectView>::empty(),
            },
    {
        let mut effects = self.remove_search_highlight();
        let ghost removed = effects@;
        let mut focus = LayoutSections::TaskList(None);
        std::mem::swap(&mut focus, &mut self.focus);
        match focus {
            LayoutSections::TaskList(Some(mut results)) => {
                let stepped = if next {
                    results.next()
                } else {
                    results.previous()
                };
                match stepped {
                    Some(Match(row, col)) => {
                        let len = display_width(results.query.as_str());
                        effects.push(UiEffect::Highlight { row, col, len, on: true });
                        effects.push(UiEffect::ScrollToRow { row });
                    },
                    None => {},
                }
                self.focus = LayoutSections::TaskList(Some(results));
                proof {
                    assert(effects_view(effects@) =~= old(self).unhighlight() + (if results.matches.len() == 0 {
                        Seq::<UiEffectView>::empty()
                    } else {
                        let m = results.matches@[results.index as int];
                        seq![
                            UiEffectView::Highlight { row: m.0, col: m.1, len: str_width(results.query@), on: true },
                            UiEffectView::ScrollToRow { row: m.0 },
                        ]
                    }));
                }
                effects
            },
            other => {
                self.focus = other;
                proof {
                    assert(effects_view(effects@) =~= Seq::<UiEffectView>::empty());
                }
                effects
            },
        }
    }

    /// The rows the help dialog can scroll down: its text less what the dialog shows of it.
    pub fn help_max_scroll(&self) -> (r: usize)
        requires
            self.wf(),
        ensures
            r == help_scroll_limit(help_rect(self.size@.cols, self.size@.rows, self.help_width, self.help_height), self.help_height),
    {
        let rect = help_dialog_size(self.size.cols(), self.size.rows(), self.help_width, self.help_height);
        let visible = rect.height.saturating_sub(2) as usize;
        self.help_height.saturating_sub(visible)
    }

    /// Takes the new size of the screen, and asks the terminals of the tasks to fit the pane.
    pub fn resize(&mut self, rows: u16, cols: u16) -> (r: Vec<UiEffect>)
        requires
            old(self).wf(),
        ensures
            final(self).wf(),
            final(self).size@.rows == rows,
            final(self).size@.cols == cols,
            final(self).size@.task_width_hint == old(self).size@.task_width_hint,
            effects_view(r@) == seq![UiEffectView::ResizeOutputs {
                rows: (if rows >= 5 { rows - 4 } else { 1 }) as u16,
                cols: (if spec_pane_cols(final(self).size@, final(self).has_sidebar) >= 4 {
                    spec_pane_cols(final(self).size@, final(self).has_sidebar) - 2
                } else {
                    2
                }) as u16,
            }],
            same_but_focus(*final(self), TuiAppState { size: final(self).size, ..*old(self) }),
            final(self).focus == old(self).focus,
    {
        self.size.resize(rows, cols);
        let output_rows = self.size.pane_rows();
        let output_cols = self.size.output_cols(self.has_sidebar);
        let r = vec![UiEffect::ResizeOutputs { rows: output_rows, cols: output_cols }];
        proof {
            assert(effects_view(r@) =~= seq![UiEffectView::ResizeOutputs { rows: output_rows, cols: output_cols }]);
        }
        r
    }

    /// Carries out a command: changes the state, and returns what the terminals, the runner and
    /// the host are to do. `now` is the time of the command, and `table_offset` how far the task
    /// list is scrolled. A command about a task that is not shown fails.
    pub fn update(&mut self, event: AppCommand, now: u64, table_offset: usize) -> (r: Result<Vec<UiEffect>, StateError>)
        requires
            old(self).wf(),
            event is DeferCopySelection ==> now + DOUBLE_CLICK_NANOS <= u64::MAX,
            event matches AppCommand::Select { index } ==> index + table_offset <= usize::MAX,
        ensures
            final(self).wf(),
            update_done(*old(self), *final(self), event@, table_offset, now, r),
    {
        let ghost ev = event@;
        match event {
            AppCommand::PlanTask { task } => {
                self.set_status(task.as_str(), TaskStatus::Planned)?;
                Ok(no_effects())
            },
            AppCommand::StartTask { task, pid, restart, max_restart, reload } => {
                self.set_status(task.as_str(), TaskStatus::Running { pid, restart, max_restart, reload })?;
                Ok(no_effects())
            },
            AppCommand::TaskOutput { task, output } => {
                match self.task_index(task.as_str()) {
                    Some(_) => {
                        let r = one_effect(UiEffect::ProcessOutput { task, output });
                        Ok(r)
                    },
                    None => Err(StateError::TaskNotFound),
                }
            },
            AppCommand::ReadyTask { task } => {
                self.set_status(task.as_str(), TaskStatus::Ready)?;
                Ok(no_effects())
            },
            AppCommand::FinishTask { task, result } => {
                let ghost before = self.slots();
                self.finish_task(task.as_str(), result)?;
                proof {
                    lemma_task_pos_bounds(before, task@, 0);
                    let i = task_pos(before, task@, 0)->0;
                    lemma_task_pos_update(before, task@, i, (before[i].0, before[i].1, TaskStatus::Finished(result)), 0);
                }
                let ghost mid = self.slots();
                let ghost mid_focus = self.focus;
                self.insert_stdin(task.as_str(), false)?;
                proof {
                    let i = task_pos(before, task@, 0)->0;
                    assert(self.slots() =~= before.update(i, (before[i].0, false, TaskStatus::Finished(result))));
                }
                let r = one_effect(UiEffect::DropStdin { task });
                proof {
                    assert(effects_view(r@) =~= seq![UiEffectView::DropStdin { task: ev->FinishTask_task }]);
                }
                Ok(r)
            },
            AppCommand::SetStdin { task } => {
                self.insert_stdin(task.as_str(), true)?;
                Ok(no_effects())
            },
            AppCommand::PaneSizeQuery => {
                let rows = self.size.pane_rows();
                let cols = self.size.output_cols(self.has_sidebar);
                Ok(one_effect(UiEffect::ReplyPaneSize { rows, cols }))
            },
            AppCommand::Done => {
                self.done = true;
                Ok(one_effect(UiEffect::RunnerQuit))
            },
            AppCommand::Quit => {
                self.quit();
                Ok(one_effect(UiEffect::RunnerQuit))
            },
            AppCommand::OpenHelp => {
                let max_scroll = self.help_max_scroll();
                self.open_help(max_scroll);
                Ok(no_effects())
            },
            AppCommand::ExitHelp => {
                self.focus = LayoutSections::TaskList(None);
                Ok(no_effects())
            },
            AppCommand::StopTask { task } => Ok(one_effect(UiEffect::StopTask { task })),
            AppCommand::RestartTask { task, force } => Ok(one_effect(UiEffect::RestartTask { task, force })),
            AppCommand::Tick | AppCommand::Redraw => Ok(no_effects()),
            AppCommand::Up => {
                let effects = self.exit_search();
                self.select_previous_task();
                Ok(effects)
            },
            AppCommand::Down => {
                let effects = self.exit_search();
                self.select_next_task();
                Ok(effects)
            },
            AppCommand::Select { index } => {
                let effects = self.exit_search();
                self.select_task(index + table_offset);
                Ok(effects)
            },
            AppCommand::ScrollUp(size) => {
                let stride = Self::scroll_size(size, self.size.pane_rows());
                self.scroll_help_up();
                Ok(one_effect(UiEffect::ScrollOutput { direction: Direction::Up, stride }))
            },
            AppCommand::ScrollDown(size) => {
                let stride = Self::scroll_size(size, self.size.pane_rows());
                self.scroll_help_down();
                Ok(one_effect(UiEffect::ScrollOutput { direction: Direction::Down, stride }))
            },
            AppCommand::ToggleSidebar => {
                self.has_sidebar = !self.has_sidebar;
                let rows = self.size.rows();
                let cols = self.size.cols();
                Ok(self.resize(rows, cols))
            },
            AppCommand::EnterInteractive => {
                self.enter_interaction();
                Ok(no_effects())
            },
            AppCommand::ExitInteractive => {
                self.exit_interaction();
                Ok(no_effects())
            },
            AppCommand::Input { bytes } => {
                match self.focus {
                    LayoutSections::Pane => Ok(one_effect(UiEffect::ForwardInput { bytes })),
                    _ => Ok(no_effects()),
                }
            },
            AppCommand::HoverPane { row, col } => Ok(one_effect(UiEffect::Hover { row, col })),
            AppCommand::ClickPane { row, col } => Ok(one_effect(UiEffect::Click { row, col })),
            AppCommand::OpenUrl { url } => Ok(one_effect(UiEffect::OpenUrl { url })),
            AppCommand::ClearSelection => {
                self.cancel_copy_feedback();
                Ok(one_effect(UiEffect::ClearSelection))
            },
            AppCommand::WordSelection { rows, cols } => {
                self.cancel_copy_feedback();
                Ok(one_effect(UiEffect::WordSelection { rows, cols }))
            },
            AppCommand::LineSelection { rows } => {
                self.cancel_copy_feedback();
                Ok(one_effect(UiEffect::LineSelection { rows }))
            },
            AppCommand::UpdateSelection { rows, cols, edge } => {
                self.cancel_copy_feedback();
                Ok(one_effect(UiEffect::UpdateSelection { rows, cols, edge }))
            },
            AppCommand::CopySelection => {
                self.pending_copy_at = None;
                Ok(one_effect(UiEffect::CopySelection))
            },
            AppCommand::DeferCopySelection => {
                self.defer_copy_selection(now);
                Ok(no_effects())
            },
            AppCommand::Resize { rows, cols } => Ok(self.resize(rows, cols)),
            AppCommand::EnterSearch => Ok(self.start_search()),
            AppCommand::SearchInputChar(c) => {
                self.search_input_char(c);
                Ok(no_effects())
            },
            AppCommand::SearchBackspace => {
                if self.search_remove_char() {
                    Ok(self.exit_search())
                } else {
                    Ok(no_effects())
                }
            },
            AppCommand::SearchRun => Ok(self.run_search()),
            AppCommand::SearchNext => Ok(self.step_search_result(true)),
            AppCommand::SearchPrevious => Ok(self.step_search_result(false)),
            AppCommand::ExitSearch => Ok(self.exit_search()),
        }
    }

    /// The number of rows a scroll of `size` moves the pane of `pane_rows` rows; 0 stands for
    /// as far as it goes.
    pub fn scroll_size(size: ScrollSize, pane_rows: u16) -> (r: usize)
        ensures
            r == match size {
                ScrollSize::One => 1int,
                ScrollSize::Half => (pane_rows / 2) as int,
                ScrollSize::Full => pane_rows as int,
                ScrollSize::Edge => 0int,
            },
    {
        let s: u16 = match size {
            ScrollSize::One => 1,
            ScrollSize::Half => pane_rows / 2,
            ScrollSize::Full => pane_rows,
            ScrollSize::Edge => 0,
        };
        s as usize
    }
}


/// The effects of a command that succeeded.
pub open spec fn ok_effects(r: Result<Vec<UiEffect>, StateError>) -> Seq<UiEffectView> {
    match r {
        Ok(v) => effects_view(v@),
        Err(_) => Seq::empty(),
    }
}

/// What carrying out `ev` in `before`, at time `now` with the task list scrolled by
/// `table_offset`, made of the state `after` and the result `r`.
pub open spec fn update_done(
    before: TuiAppState,
    after: TuiAppState,
    ev: AppCommandView,
    table_offset: usize,
    now: u64,
    r: Result<Vec<UiEffect>, StateError>,
) -> bool {
    let e = ok_effects(r);
    let pane_rows = (if before.size@.rows >= 5 { before.size@.rows - 4 } else { 1 }) as u16;
    match ev {
        AppCommandView::PlanTask { task } => status_set(before, after, task, TaskStatus::Planned, r),
        AppCommandView::StartTask { task, pid, restart, max_restart, reload } => status_set(
            before,
            after,
            task,
            TaskStatus::Running { pid, restart, max_restart, reload },
            r,
        ),
        AppCommandView::ReadyTask { task } => status_set(before, after, task, TaskStatus::Ready, r),
        AppCommandView::TaskOutput { task, output } => (r is Ok <==> task_pos(before.slots(), task, 0) is Some) && e
            == (if r is Ok { seq![UiEffectView::ProcessOutput { task, output }] } else { Seq::empty() })
            && after == before,
        AppCommandView::FinishTask { task, result } => match task_pos(before.slots(), task, 0) {
            Some(i) => {
                &&& r is Ok
                &&& after.slots() == before.slots().update(i, (before.slots()[i].0, false, TaskStatus::Finished(result)))
                &&& e == seq![UiEffectView::DropStdin { task }]
                &&& (if result != TaskResult::Reloading && before.spec_interacting_with(task) {
                    after.focus matches LayoutSections::TaskList(None)
                } else {
                    after.focus == before.focus
                })
                &&& after.selected_task_index == before.selected_task_index
            },
            None => r is Err && after.slots() == before.slots() && after.focus == before.focus,
        },
        AppCommandView::SetStdin { task } => match task_pos(before.slots(), task, 0) {
            Some(i) => r is Ok && e == Seq::<UiEffectView>::empty() && after.slots() == before.slots().update(
                i,
                (before.slots()[i].0, true, before.slots()[i].2),
            ) && after.focus == before.focus,
            None => r is Err && after.slots() == before.slots() && after.focus == before.focus,
        },
        AppCommandView::PaneSizeQuery => r is Ok && after == before && e == seq![
            UiEffectView::ReplyPaneSize {
                rows: pane_rows,
                cols: (if spec_pane_cols(before.size@, before.has_sidebar) >= 4 {
                    spec_pane_cols(before.size@, before.has_sidebar) - 2
                } else {
                    2
                }) as u16,
            },
        ],
        AppCommandView::Done => r is Ok && after == TuiAppState { done: true, ..before } && e == seq![UiEffectView::RunnerQuit],
        AppCommandView::Quit => {
            &&& r is Ok
            &&& e == seq![UiEffectView::RunnerQuit]
            &&& after.quitting
            &&& after.force_quitting == (before.force_quitting || before.quitting)
            &&& (after.toast matches Some(t) && t.expires_at is None && !t.clear_selection_on_expire && t.message@ == (
            if after.force_quitting {
                force_quit_text()
            } else {
                quit_text()
            }))
            &&& after.focus == before.focus
            &&& same_but_focus(
                after,
                TuiAppState {
                    quitting: after.quitting,
                    force_quitting: after.force_quitting,
                    toast: after.toast,
                    focus: after.focus,
                    ..before
                },
            )
        },
        AppCommandView::OpenHelp => r is Ok && e == Seq::<UiEffectView>::empty() && after.focus == (LayoutSections::Help {
            scroll: 0,
            max_scroll: help_scroll_limit(
                help_rect(before.size@.cols, before.size@.rows, before.help_width, before.help_height),
                before.help_height,
            ),
        }) && same_but_focus(after, before),
        AppCommandView::ExitHelp => r is Ok && e == Seq::<UiEffectView>::empty() && (after.focus matches LayoutSections::TaskList(
            None,
        )) && same_but_focus(after, before),
        AppCommandView::StopTask { task } => r is Ok && after == before && e == seq![UiEffectView::StopTask { task }],
        AppCommandView::RestartTask { task, force } => r is Ok && after == before && e == seq![
            UiEffectView::RestartTask { task, force },
        ],
        AppCommandView::Tick | AppCommandView::Redraw => r is Ok && after == before && e == Seq::<UiEffectView>::empty(),
        AppCommandView::Up => r is Ok && e == (if before.exits_search() { before.unhighlight() } else { Seq::empty() })
            && after.selected_task_index == (if before.selected_task_index == 0 {
            0
        } else {
            before.selected_task_index - 1
        }),
        AppCommandView::Down => r is Ok && e == (if before.exits_search() { before.unhighlight() } else { Seq::empty() })
            && after.selected_task_index == (if before.selected_task_index + 1 < before.tasks.len() {
            before.selected_task_index + 1
        } else {
            before.tasks.len() - 1
        }),
        AppCommandView::Select { index } => r is Ok && e == (if before.exits_search() {
            before.unhighlight()
        } else {
            Seq::empty()
        }) && after.selected_task_index == (if index + table_offset < before.tasks.len() {
            (index + table_offset) as usize
        } else {
            before.selected_task_index
        }),
        AppCommandView::ScrollUp(size) => r is Ok && e == seq![
            UiEffectView::ScrollOutput { direction: Direction::Up, stride: scroll_stride(size, pane_rows) },
        ],
        AppCommandView::ScrollDown(size) => r is Ok && e == seq![
            UiEffectView::ScrollOutput { direction: Direction::Down, stride: scroll_stride(size, pane_rows) },
        ],
        AppCommandView::ToggleSidebar => r is Ok && after.has_sidebar == !before.has_sidebar && after.size@.rows
            == before.size@.rows && after.size@.cols == before.size@.cols && e == seq![
            UiEffectView::ResizeOutputs {
                rows: pane_rows,
                cols: (if spec_pane_cols(after.size@, after.has_sidebar) >= 4 {
                    spec_pane_cols(after.size@, after.has_sidebar) - 2
                } else {
                    2
                }) as u16,
            },
        ],
        AppCommandView::EnterInteractive => r is Ok && e == Seq::<UiEffectView>::empty() && (if before.tasks@[before.selected_task_index as int].has_stdin {
            after.focus is Pane
        } else {
            after.focus == before.focus
        }),
        AppCommandView::ExitInteractive => r is Ok && e == Seq::<UiEffectView>::empty() && (if before.focus is Pane {
            after.focus matches LayoutSections::TaskList(None)
        } else {
            after.focus == before.focus
        }),
        AppCommandView::Input { bytes } => r is Ok && after == before && e == (if before.focus is Pane {
            seq![UiEffectView::ForwardInput { bytes }]
        } else {
            Seq::empty()
        }),
        AppCommandView::HoverPane { row, col } => r is Ok && after == before && e == seq![UiEffectView::Hover { row, col }],
        AppCommandView::ClickPane { row, col } => r is Ok && after == before && e == seq![UiEffectView::Click { row, col }],
        AppCommandView::OpenUrl { url } => r is Ok && after == before && e == seq![UiEffectView::OpenUrl { url }],
        AppCommandView::ClearSelection => r is Ok && after.pending_copy_at is None && e == seq![UiEffectView::ClearSelection],
        AppCommandView::WordSelection { rows, cols } => r is Ok && after.pending_copy_at is None && e == seq![
            UiEffectView::WordSelection { rows, cols },
        ],
        AppCommandView::LineSelection { rows } => r is Ok && after.pending_copy_at is None && e == seq![
            UiEffectView::LineSelection { rows },
        ],
        AppCommandView::UpdateSelection { rows, cols, edge } => r is Ok && after.pending_copy_at is None && e == seq![
            UiEffectView::UpdateSelection { rows, cols, edge },
        ],
        AppCommandView::CopySelection => r is Ok && after == TuiAppState { pending_copy_at: None, ..before } && e == seq![
            UiEffectView::CopySelection,
        ],
        AppCommandView::DeferCopySelection => r is Ok && e == Seq::<UiEffectView>::empty() && after.pending_copy_at == Some(
            (now + DOUBLE_CLICK_NANOS) as u64,
        ),
        AppCommandView::Resize { rows, cols } => r is Ok && after.size@.rows == rows && after.size@.cols == cols,
        AppCommandView::EnterSearch => r is Ok && e == before.unhighlight() && (after.focus matches LayoutSections::Search {
            query,
        } && query@ == Seq::<char>::empty()),
        AppCommandView::SearchInputChar(c) => r is Ok && e == Seq::<UiEffectView>::empty() && match before.focus {
            LayoutSections::Search { query } => after.focus matches LayoutSections::Search { query: q } && q@
                == query@.push(c),
            _ => after.focus == before.focus,
        },
        AppCommandView::SearchBackspace => r is Ok && match before.focus {
            LayoutSections::Search { query } => if query@.len() == 0 {
                e == before.unhighlight() && after.focus matches LayoutSections::TaskList(None)
            } else {
                e == Seq::<UiEffectView>::empty() && (after.focus matches LayoutSections::Search { query: q } && q@
                    == query@.drop_last())
            },
            _ => e == Seq::<UiEffectView>::empty() && after.focus == before.focus,
        },
        AppCommandView::SearchRun => r is Ok && after == before && match before.focus {
            LayoutSections::Search { query } => e == (if query@.len() == 0 {
                Seq::<UiEffectView>::empty()
            } else {
                seq![UiEffectView::RunSearch { query: query@ }]
            }),
            _ => e == Seq::<UiEffectView>::empty(),
        },
        AppCommandView::SearchNext | AppCommandView::SearchPrevious => r is Ok && match before.focus {
            LayoutSections::TaskList(Some(res)) => {
                let n = res.matches.len() as int;
                let index = if (ev is SearchNext) == !res.backward {
                    step_down_index(res.index as int, n)
                } else {
                    step_up_index(res.index as int, n)
                };
                &&& after.focus == LayoutSections::TaskList(Some(SearchResults { index: index as usize, ..res }))
                &&& e == before.unhighlight() + (if n == 0 {
                    Seq::<UiEffectView>::empty()
                } else {
                    let m = res.matches@[index];
                    seq![
                        UiEffectView::Highlight { row: m.0, col: m.1, len: str_width(res.query@), on: true },
                        UiEffectView::ScrollToRow { row: m.0 },
                    ]
                })
            },
            _ => after.focus == before.focus && e == Seq::<UiEffectView>::empty(),
        },
        AppCommandView::ExitSearch => r is Ok && e == (if before.exits_search() {
            before.unhighlight()
        } else {
            Seq::empty()
        }) && (if before.exits_search() {
            after.focus matches LayoutSections::TaskList(None)
        } else {
            after.focus == before.focus
        }),
    }
}

/// The rows a scroll of `size` moves a pane of `pane_rows` rows.
pub open spec fn scroll_stride(size: ScrollSize, pane_rows: u16) -> usize {
    match size {
        ScrollSize::One => 1,
        ScrollSize::Half => (pane_rows / 2) as usize,
        ScrollSize::Full => pane_rows as usize,
        ScrollSize::Edge => 0,
    }
}

/// Setting the status of `task` to `status`: the first task of that name takes it, or the
/// command fails when there is none.
pub open spec fn status_set(
    before: TuiAppState,
    after: TuiAppState,
    task: Seq<char>,
    status: TaskStatus,
    r: Result<Vec<UiEffect>, StateError>,
) -> bool {
    match task_pos(before.slots(), task, 0) {
        Some(i) => r is Ok && ok_effects(r) == Seq::<UiEffectView>::empty() && after.slots() == before.slots().update(
            i,
            (before.slots()[i].0, before.slots()[i].1, status),
        ) && after.focus == before.focus && after.selected_task_index == before.selected_task_index,
        None => r is Err && after.slots() == before.slots() && after.focus == before.focus,
    }
}

/// Where the help dialog stands on the screen.
#[derive(Debug, Clone, Copy, PartialEq, Eq, Structural)]
pub struct HelpRect {
    pub x: u16,
    pub y: u16,
    pub width: u16,
    pub height: u16,
}

/// The help dialog: its text with a margin, within the screen less a border of two cells, and
/// centered.
pub open spec fn help_rect(screen_width: u16, screen_height: u16, content_width: usize, content_height: usize) -> HelpRect {
    let w = content_width + 6;
    let h = content_height + 2;
    let max_w = if screen_width >= 4 { screen_width - 4 } else { 0 };
    let max_h = if screen_height >= 4 { screen_height - 4 } else { 0 };
    let width = if w < max_w { w } else { max_w };
    let height = if h < max_h { h } else { max_h };
    HelpRect {
        x: (if screen_width > width { (screen_width - width) / 2 } else { 0 }) as u16,
        y: (if screen_height > height { (screen_height - height) / 2 } else { 0 }) as u16,
        width: width as u16,
        height: height as u16,
    }
}

/// The rows the help dialog can scroll down: the text less the rows inside its border.
pub open spec fn help_scroll_limit(rect: HelpRect, content_height: usize) -> usize {
    let visible = if rect.height >= 2 { rect.height - 2 } else { 0 };
    if content_height > visible {
        (content_height - visible) as usize
    } else {
        0
    }
}

/// Where the help dialog stands on a screen of the given size, for a text of the given width
/// and height.
pub fn help_dialog_size(screen_width: u16, screen_height: u16, content_width: usize, content_height: usize) -> (r: HelpRect)
    requires
        content_width <= 60000,
        content_height <= 60000,
    ensures
        r == help_rect(screen_width, screen_height, content_width, content_height),
{
    let width = (content_width as u16 + 6).min(screen_width.saturating_sub(4));
    let height = (content_height as u16 + 2).min(screen_height.saturating_sub(4));
    // Ensure we don't create negative coordinates
    let x = if screen_width > width {
        (screen_width - width) / 2
    } else {
        0
    };
    let y = if screen_height > height {
        (screen_height - height) / 2
    } else {
        0
    };
    HelpRect { x, y, width, height }
}

/// A persistent toast never expires, whatever the time.
pub proof fn law_persistent_toast_stays(t: Toast, now: u64)
    requires
        t.expires_at is None,
    ensures
        !(t.expires_at matches Some(at) && at <= now),
{
}

} // verus!
