//! What the footer of the pane offers, for where the focus is and what the task allows.
use crate::command::{TaskResult, TaskStatus};
use crate::layout::LayoutSections;
use vstd::prelude::*;

verus! {

/// A key and what it does, as the footer shows it.
#[derive(Debug, Clone, Copy, PartialEq, Eq, Structural)]
pub enum FooterItem {
    StopTask,
    RestartTask,
    StartInteraction,
    ExitInteraction,
    StartSearch,
    ExitSearch,
    CopySelection,
    ShowTasks,
    NavigateSearchResult,
    ClearSearchResult,
    Quit,
    Help,
}

/// The items of the footer, in order: in the pane, copying when there is a selection and
/// leaving; on the task list, copying, showing the tasks when they are hidden, interacting
/// when the task takes input, searching, walking and clearing the matches when there are
/// some, then restarting, stopping, quitting and help; on the search line, copying, showing
/// the tasks and leaving the search; nothing over the help dialog.
pub open spec fn spec_footer(focus: LayoutSections, has_selection: bool, has_sidebar: bool, has_stdin: bool) -> Seq<FooterItem> {
    let copy = if has_selection { seq![FooterItem::CopySelection] } else { Seq::empty() };
    let show = if !has_sidebar { seq![FooterItem::ShowTasks] } else { Seq::empty() };
    match focus {
        LayoutSections::Pane => copy.push(FooterItem::ExitInteraction),
        LayoutSections::TaskList(s) => {
            let interact = if has_stdin { seq![FooterItem::StartInteraction] } else { Seq::empty() };
            let matches = match s {
                Some(r) => if r.matches.len() > 0 {
                    seq![FooterItem::NavigateSearchResult, FooterItem::ClearSearchResult]
                } else {
                    Seq::empty()
                },
                None => Seq::empty(),
            };
            copy + show + interact + seq![FooterItem::StartSearch] + matches + seq![
                FooterItem::RestartTask,
                FooterItem::StopTask,
                FooterItem::Quit,
                FooterItem::Help,
            ]
        },
        LayoutSections::Search { .. } => copy + show + seq![FooterItem::ExitSearch],
        LayoutSections::Help { .. } => Seq::empty(),
    }
}

/// The items of the footer of the pane; see [`spec_footer`].
pub fn footer_items(focus: &LayoutSections, has_selection: bool, has_sidebar: bool, has_stdin: bool) -> (r: Vec<FooterItem>)
    ensures
        r@ == spec_footer(*focus, has_selection, has_sidebar, has_stdin),
{
    let mut items: Vec<FooterItem> = Vec::new();
    match focus {
        LayoutSections::Pane => {
            if has_selection {
                items.push(FooterItem::CopySelection);
            }
            items.push(FooterItem::ExitInteraction);
        },
        LayoutSections::TaskList(s) => {
            if has_selection {
                items.push(FooterItem::CopySelection);
            }
            if !has_sidebar {
                items.push(FooterItem::ShowTasks);
            }
            if has_stdin {
                items.push(FooterItem::StartInteraction);
            }
            items.push(FooterItem::StartSearch);
            match s {
                Some(search) => {
                    if search.matches.len() > 0 {
                        items.push(FooterItem::NavigateSearchResult);
                        items.push(FooterItem::ClearSearchResult);
                    }
                },
                None => {},
            }
            items.push(FooterItem::RestartTask);
            items.push(FooterItem::StopTask);
            items.push(FooterItem::Quit);
            items.push(FooterItem::Help);
        },
        LayoutSections::Search { .. } => {
            if has_selection {
                items.push(FooterItem::CopySelection);
            }
            if !has_sidebar {
                items.push(FooterItem::ShowTasks);
            }
            items.push(FooterItem::ExitSearch);
        },
        LayoutSections::Help { .. } => {},
    }
    proof {
        assert(items@ =~= spec_footer(*focus, has_selection, has_sidebar, has_stdin));
    }
    items
}

/// The key and the words of a footer item.
/// The key and the words of a footer item, as characters.
pub open spec fn spec_footer_text(item: FooterItem) -> (Seq<char>, Seq<char>) {
    match item {
        FooterItem::StopTask => ("[s]"@, "Stop"@),
        FooterItem::RestartTask => ("[r]"@, "Restart"@),
        FooterItem::StartInteraction => ("[Enter]"@, "Interact"@),
        FooterItem::ExitInteraction => ("[Ctrl-z]"@, "Exit Interaction"@),
        FooterItem::StartSearch => ("[/]"@, "Search"@),
        FooterItem::ExitSearch => ("[Esc]"@, "Exit Search"@),
        FooterItem::CopySelection => ("[c]"@, "Copy Selection"@),
        FooterItem::ShowTasks => ("[h]"@, "Show Tasks"@),
        FooterItem::NavigateSearchResult => ("[n\u{FF65}N]"@, "Next/Prev Match"@),
        FooterItem::ClearSearchResult => ("[Esc]"@, "Clear"@),
        FooterItem::Quit => ("[q]"@, "Quit"@),
        FooterItem::Help => ("[?]"@, "Help"@),
    }
}

/// The key and the words of a footer item.
pub fn footer_text(item: FooterItem) -> (r: (&'static str, &'static str))
    ensures
        (r.0@, r.1@) == spec_footer_text(item),
{
    match item {
        FooterItem::StopTask => ("[s]", "Stop"),
        FooterItem::RestartTask => ("[r]", "Restart"),
        FooterItem::StartInteraction => ("[Enter]", "Interact"),
        FooterItem::ExitInteraction => ("[Ctrl-z]", "Exit Interaction"),
        FooterItem::StartSearch => ("[/]", "Search"),
        FooterItem::ExitSearch => ("[Esc]", "Exit Search"),
        FooterItem::CopySelection => ("[c]", "Copy Selection"),
        FooterItem::ShowTasks => ("[h]", "Show Tasks"),
        FooterItem::NavigateSearchResult => ("[n\u{FF65}N]", "Next/Prev Match"),
        FooterItem::ClearSearchResult => ("[Esc]", "Clear"),
        FooterItem::Quit => ("[q]", "Quit"),
        FooterItem::Help => ("[?]", "Help"),
    }
}

/// The icon of a task's status in the task list.
#[derive(Debug, Clone, Copy, PartialEq, Eq, Structural)]
pub enum StatusIcon {
    /// Waiting to run
    Planned,
    /// Running
    Running,
    /// A service that is ready
    Ready,
    Success,
    Failure,
    UpToDate,
    /// It did not run or was stopped
    NotRun,
    Reloading,
    Unknown,
}

/// The icon of a status: a finished task by its result, an error counting as unknown.
pub open spec fn spec_status_icon(status: TaskStatus) -> StatusIcon {
    match status {
        TaskStatus::Planned => StatusIcon::Planned,
        TaskStatus::Running { .. } => StatusIcon::Running,
        TaskStatus::Ready => StatusIcon::Ready,
        TaskStatus::Finished(r) => match r {
            TaskResult::Success => StatusIcon::Success,
            TaskResult::Failure(_) => StatusIcon::Failure,
            TaskResult::UpToDate => StatusIcon::UpToDate,
            TaskResult::BadDeps | TaskResult::NotReady | TaskResult::Stopped => StatusIcon::NotRun,
            TaskResult::Reloading => StatusIcon::Reloading,
            TaskResult::Unknown | TaskResult::Error => StatusIcon::Unknown,
        },
    }
}

/// The icon of a status in the task list.
pub fn status_icon(status: TaskStatus) -> (r: StatusIcon)
    ensures
        r == spec_status_icon(status),
{
    match status {
        TaskStatus::Planned => StatusIcon::Planned,
        TaskStatus::Running { .. } => StatusIcon::Running,
        TaskStatus::Ready => StatusIcon::Ready,
        TaskStatus::Finished(r) => match r {
            TaskResult::Success => StatusIcon::Success,
            TaskResult::Failure(_) => StatusIcon::Failure,
            TaskResult::UpToDate => StatusIcon::UpToDate,
            TaskResult::BadDeps | TaskResult::NotReady | TaskResult::Stopped => StatusIcon::NotRun,
            TaskResult::Reloading => StatusIcon::Reloading,
            TaskResult::Unknown | TaskResult::Error => StatusIcon::Unknown,
        },
    }
}

/// The text of an icon, as characters. A wide emoji that the terminal may show narrow is
/// followed by the variation selector that asks for its emoji form.
pub open spec fn spec_icon_text(icon: StatusIcon) -> Seq<char> {
    match icon {
        StatusIcon::Planned => "\u{1FAB5}"@,
        StatusIcon::Running => "\u{1F525}"@,
        StatusIcon::Ready => "\u{1F356}"@,
        StatusIcon::Success => "\u{2705}\u{FE0F}"@,
        StatusIcon::Failure => "\u{274C}\u{FE0F}"@,
        StatusIcon::UpToDate => "\u{1F96C}"@,
        StatusIcon::NotRun => "\u{1F6AB}"@,
        StatusIcon::Reloading => "\u{267B}\u{FE0F}"@,
        StatusIcon::Unknown => "\u{2753}\u{FE0F}"@,
    }
}

/// The text of an icon.
pub fn icon_text(icon: StatusIcon) -> (r: &'static str)
    ensures
        r@ == spec_icon_text(icon),
{
    match icon {
        StatusIcon::Planned => "\u{1FAB5}",
        StatusIcon::Running => "\u{1F525}",
        StatusIcon::Ready => "\u{1F356}",
        StatusIcon::Success => "\u{2705}\u{FE0F}",
        StatusIcon::Failure => "\u{274C}\u{FE0F}",
        StatusIcon::UpToDate => "\u{1F96C}",
        StatusIcon::NotRun => "\u{1F6AB}",
        StatusIcon::Reloading => "\u{267B}\u{FE0F}",
        StatusIcon::Unknown => "\u{2753}\u{FE0F}",
    }
}

} // verus!
