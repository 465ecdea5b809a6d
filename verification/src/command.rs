//! Commands to the terminal user interface, and the small types they carry.
use vstd::prelude::*;

verus! {

/// A direction to scroll in.
#[derive(Debug, Clone, Copy, PartialEq, Eq, Structural)]
pub enum Direction {
    Up,
    Down,
}

/// How far to scroll.
#[derive(Debug, Clone, Copy, PartialEq, Eq, Structural)]
pub enum ScrollSize {
    /// One row
    One,
    /// Half the pane
    Half,
    /// The whole pane
    Full,
    /// To the far end
    Edge,
}

/// How a task ended.
#[derive(Debug, Clone, Copy, PartialEq, Eq, Structural)]
pub enum TaskResult {
    /// Run successfully.
    Success,
    /// Exited with non-zero code.
    Failure(i32),
    /// Killed by signal.
    Stopped,
    /// Dependencies not satisfied
    BadDeps,
    /// Service not ready
    NotReady,
    /// The other reason.
    Unknown,
    /// Its outputs are newer than its inputs, so it did not run.
    UpToDate,
    /// Stopped to be run again, in watch mode.
    Reloading,
    /// It could not be started.
    Error,
}

/// Where a task stands.
#[derive(Debug, Clone, Copy, PartialEq, Eq, Structural)]
pub enum TaskStatus {
    Planned,
    Running { pid: u32, restart: u64, max_restart: Option<u64>, reload: u64 },
    Ready,
    Finished(TaskResult),
}

/// The size of the pane that shows the output of a task.
#[derive(Debug, Clone, Copy, PartialEq, Eq, Structural)]
pub struct PaneSize {
    pub rows: u16,
    pub cols: u16,
}

/// A command the user gives to the terminal user interface by a key or the mouse.
#[derive(Debug)]
pub enum AppCommand {
    Up,
    Down,
    Select { index: usize },
    ToggleSidebar,
    ScrollUp(ScrollSize),
    ScrollDown(ScrollSize),
    EnterSearch,
    SearchInputChar(char),
    SearchBackspace,
    SearchRun,
    SearchNext,
    SearchPrevious,
    ExitSearch,
    OpenHelp,
    ExitHelp,
    CopySelection,
    ClearSelection,
    LineSelection { rows: u16 },
    UpdateSelection { rows: u16, cols: u16, edge: Option<Direction> },
    EnterInteractive,
    ExitInteractive,
    Input { bytes: Vec<u8> },
    StopTask { task: String },
    RestartTask { task: String, force: bool },
    Resize { rows: u16, cols: u16 },
    Quit,
    /// The runner planned the task
    PlanTask { task: String },
    /// The runner started the task
    StartTask { task: String, pid: u32, restart: u64, max_restart: Option<u64>, reload: u64 },
    /// The task wrote some output
    TaskOutput { task: String, output: Vec<u8> },
    /// The service is ready
    ReadyTask { task: String },
    /// The task finished
    FinishTask { task: String, result: TaskResult },
    /// The task's terminal takes input now
    SetStdin { task: String },
    /// The runner asks the size of the pane
    PaneSizeQuery,
    /// Every task is done
    Done,
    Tick,
    Redraw,
    HoverPane { row: u16, col: u16 },
    ClickPane { row: u16, col: u16 },
    OpenUrl { url: String },
    WordSelection { rows: u16, cols: u16 },
    DeferCopySelection,
}

/// What a command says.
pub enum AppCommandView {
    Up,
    Down,
    Select { index: usize },
    ToggleSidebar,
    ScrollUp(ScrollSize),
    ScrollDown(ScrollSize),
    EnterSearch,
    SearchInputChar(char),
    SearchBackspace,
    SearchRun,
    SearchNext,
    SearchPrevious,
    ExitSearch,
    OpenHelp,
    ExitHelp,
    CopySelection,
    ClearSelection,
    LineSelection { rows: u16 },
    UpdateSelection { rows: u16, cols: u16, edge: Option<Direction> },
    EnterInteractive,
    ExitInteractive,
    Input { bytes: Seq<u8> },
    StopTask { task: Seq<char> },
    RestartTask { task: Seq<char>, force: bool },
    Resize { rows: u16, cols: u16 },
    Quit,
    PlanTask { task: Seq<char> },
    StartTask { task: Seq<char>, pid: u32, restart: u64, max_restart: Option<u64>, reload: u64 },
    TaskOutput { task: Seq<char>, output: Seq<u8> },
    ReadyTask { task: Seq<char> },
    FinishTask { task: Seq<char>, result: TaskResult },
    SetStdin { task: Seq<char> },
    PaneSizeQuery,
    Done,
    Tick,
    Redraw,
    HoverPane { row: u16, col: u16 },
    ClickPane { row: u16, col: u16 },
    OpenUrl { url: Seq<char> },
    WordSelection { rows: u16, cols: u16 },
    DeferCopySelection,
}

impl View for AppCommand {
    type V = AppCommandView;

    open spec fn view(&self) -> AppCommandView {
        match self {
            AppCommand::Up => AppCommandView::Up,
            AppCommand::Down => AppCommandView::Down,
            AppCommand::Select { index } => AppCommandView::Select { index: *index },
            AppCommand::ToggleSidebar => AppCommandView::ToggleSidebar,
            AppCommand::ScrollUp(s) => AppCommandView::ScrollUp(*s),
            AppCommand::ScrollDown(s) => AppCommandView::ScrollDown(*s),
            AppCommand::EnterSearch => AppCommandView::EnterSearch,
            AppCommand::SearchInputChar(c) => AppCommandView::SearchInputChar(*c),
            AppCommand::SearchBackspace => AppCommandView::SearchBackspace,
            AppCommand::SearchRun => AppCommandView::SearchRun,
            AppCommand::SearchNext => AppCommandView::SearchNext,
            AppCommand::SearchPrevious => AppCommandView::SearchPrevious,
            AppCommand::ExitSearch => AppCommandView::ExitSearch,
            AppCommand::OpenHelp => AppCommandView::OpenHelp,
            AppCommand::ExitHelp => AppCommandView::ExitHelp,
            AppCommand::CopySelection => AppCommandView::CopySelection,
            AppCommand::ClearSelection => AppCommandView::ClearSelection,
            AppCommand::LineSelection { rows } => AppCommandView::LineSelection { rows: *rows },
            AppCommand::UpdateSelection { rows, cols, edge } => AppCommandView::UpdateSelection {
                rows: *rows,
                cols: *cols,
                edge: *edge,
            },
            AppCommand::EnterInteractive => AppCommandView::EnterInteractive,
            AppCommand::ExitInteractive => AppCommandView::ExitInteractive,
            AppCommand::Input { bytes } => AppCommandView::Input { bytes: bytes@ },
            AppCommand::StopTask { task } => AppCommandView::StopTask { task: task@ },
            AppCommand::RestartTask { task, force } => AppCommandView::RestartTask { task: task@, force: *force },
            AppCommand::Resize { rows, cols } => AppCommandView::Resize { rows: *rows, cols: *cols },
            AppCommand::Quit => AppCommandView::Quit,
            AppCommand::PlanTask { task } => AppCommandView::PlanTask { task: task@ },
            AppCommand::StartTask { task, pid, restart, max_restart, reload } => AppCommandView::StartTask {
                task: task@,
                pid: *pid,
                restart: *restart,
                max_restart: *max_restart,
                reload: *reload,
            },
            AppCommand::TaskOutput { task, output } => AppCommandView::TaskOutput { task: task@, output: output@ },
            AppCommand::ReadyTask { task } => AppCommandView::ReadyTask { task: task@ },
            AppCommand::FinishTask { task, result } => AppCommandView::FinishTask { task: task@, result: *result },
            AppCommand::SetStdin { task } => AppCommandView::SetStdin { task: task@ },
            AppCommand::PaneSizeQuery => AppCommandView::PaneSizeQuery,
            AppCommand::Done => AppCommandView::Done,
            AppCommand::Tick => AppCommandView::Tick,
            AppCommand::Redraw => AppCommandView::Redraw,
            AppCommand::HoverPane { row, col } => AppCommandView::HoverPane { row: *row, col: *col },
            AppCommand::ClickPane { row, col } => AppCommandView::ClickPane { row: *row, col: *col },
            AppCommand::OpenUrl { url } => AppCommandView::OpenUrl { url: url@ },
            AppCommand::WordSelection { rows, cols } => AppCommandView::WordSelection { rows: *rows, cols: *cols },
            AppCommand::DeferCopySelection => AppCommandView::DeferCopySelection,
        }
    }
}

/// The view of an optional command.
pub open spec fn opt_command_view(c: Option<AppCommand>) -> Option<AppCommandView> {
    match c {
        Some(c) => Some(c@),
        None => None,
    }
}

} // verus!
