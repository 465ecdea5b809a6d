use firepit::command::{AppCommand, Direction, ScrollSize, TaskResult, TaskStatus};
use firepit::input::DOUBLE_CLICK_NANOS;
use firepit::layout::LayoutSections;
use firepit::search::{Match, SearchResults};
use firepit::tui_state::{help_dialog_size, HelpRect, Toast, ToastExpiry, TuiAppState, UiEffect, TOAST_NANOS};

fn state(tasks: &[&str]) -> TuiAppState {
    let mut state = TuiAppState::new(tasks, 24, 80, 40, 30);
    state.focus = LayoutSections::Pane;
    state
}

#[test]
fn exits_interaction_when_active_task_finishes() {
    let mut state = state(&["a", "b"]);

    state.finish_task("a", TaskResult::Success).unwrap();

    assert!(matches!(state.focus, LayoutSections::TaskList(None)));
}

#[test]
fn keeps_interaction_when_another_task_finishes() {
    let mut state = state(&["a", "b"]);

    state.finish_task("b", TaskResult::Success).unwrap();

    assert!(matches!(state.focus, LayoutSections::Pane));
}

#[test]
fn keeps_interaction_while_active_task_is_reloading() {
    let mut state = state(&["a", "b"]);

    state.finish_task("a", TaskResult::Reloading).unwrap();

    assert!(matches!(state.focus, LayoutSections::Pane));
}

#[test]
fn keeps_task_list_focus_when_not_interacting() {
    let mut state = state(&["a", "b"]);
    state.focus = LayoutSections::TaskList(None);

    state.finish_task("a", TaskResult::Success).unwrap();

    assert!(matches!(state.focus, LayoutSections::TaskList(None)));
}

#[test]
fn enters_interaction_only_when_task_has_stdin() {
    let mut state = state(&["a", "b"]);
    state.focus = LayoutSections::TaskList(None);

    state.enter_interaction();
    assert!(matches!(state.focus, LayoutSections::TaskList(None)));

    state.insert_stdin("a", true).unwrap();
    state.enter_interaction();
    assert!(matches!(state.focus, LayoutSections::Pane));
}

/// A copy toast whose display time has already passed at `now`.
fn expired_copy_toast(now: u64) -> Toast {
    Toast { expires_at: Some(now), ..Toast::copied(now) }
}

#[test]
fn expires_copy_toast_after_duration() {
    let mut state = state(&["a"]);
    let now = 1_000;

    // A freshly created copy toast is not expired yet
    state.toast = Some(Toast::copied(now));
    assert_eq!(state.expire_toast(now), ToastExpiry::Kept);
    assert!(state.toast.is_some());

    // A toast whose deadline has passed is removed
    state.toast = Some(expired_copy_toast(now));
    assert_eq!(state.expire_toast(now), ToastExpiry::Removed { clear_selection: true });
    assert!(state.toast.is_none());

    // The copy toast lasts its whole duration
    state.toast = Some(Toast::copied(now));
    assert_eq!(state.expire_toast(now + TOAST_NANOS - 1), ToastExpiry::Kept);
    assert_eq!(state.expire_toast(now + TOAST_NANOS), ToastExpiry::Removed { clear_selection: true });
}

#[test]
fn clears_selection_when_copy_toast_expires() {
    let mut state = state(&["a"]);
    state.toast = Some(expired_copy_toast(5));
    assert_eq!(state.expire_toast(5), ToastExpiry::Removed { clear_selection: true });
}

#[test]
fn cancels_copy_toast_when_new_selection_starts() {
    let mut state = state(&["a"]);

    state.toast = Some(Toast::copied(0));
    state.cancel_copy_feedback();
    assert!(state.toast.is_none());

    // Persistent toasts (quit message) are not affected
    state.quit();
    state.cancel_copy_feedback();
    assert!(state.toast.is_some());
}

#[test]
fn keeps_persistent_toast() {
    let mut state = state(&["a"]);

    state.quit();
    assert_eq!(state.expire_toast(u64::MAX), ToastExpiry::Kept);
    assert!(state.toast.is_some());
}

#[test]
fn deferred_copy_waits_for_multi_click_window() {
    let mut state = state(&["a"]);

    // A freshly deferred copy does not run yet
    state.defer_copy_selection(100);
    assert!(!state.take_due_copy(100));
    assert!(state.pending_copy_at.is_some());

    // Once the deadline has passed, the copy runs and the schedule clears
    assert!(state.take_due_copy(100 + DOUBLE_CLICK_NANOS));
    assert!(state.pending_copy_at.is_none());
}

#[test]
fn cancels_deferred_copy_when_new_selection_starts() {
    let mut state = state(&["a"]);

    state.defer_copy_selection(0);
    state.cancel_copy_feedback();
    assert!(state.pending_copy_at.is_none());
    assert!(!state.take_due_copy(u64::MAX));
}

#[test]
fn quitting_twice_forces() {
    let mut state = state(&["a"]);
    state.quit();
    assert!(state.quitting && !state.force_quitting);
    assert_eq!(state.toast.as_ref().unwrap().message, "\u{1FAA3} Quitting... (press q to force quit)");
    state.quit();
    assert!(state.force_quitting);
    assert_eq!(state.toast.as_ref().unwrap().message, "\u{1F4A7} Force quitting...");
}

#[test]
fn selection_stays_on_the_tasks() {
    let mut state = state(&["a", "b", "c"]);
    state.select_previous_task();
    assert_eq!(state.selected_task_index, 0);
    state.select_next_task();
    state.select_next_task();
    state.select_next_task();
    assert_eq!(state.selected_task_index, 2);
    state.select_task(7);
    assert_eq!(state.selected_task_index, 2);
    state.select_task(1);
    assert_eq!(state.selected_task_index, 1);
    assert!(state.finish_task("zz", TaskResult::Success).is_err());
}

#[test]
fn help_scrolls_within_its_bounds() {
    let mut state = state(&["a"]);
    state.open_help(2);
    state.scroll_help_up();
    state.scroll_help_down();
    state.scroll_help_down();
    state.scroll_help_down();
    assert!(matches!(state.focus, LayoutSections::Help { scroll: 2, max_scroll: 2 }));
    state.scroll_help_up();
    assert!(matches!(state.focus, LayoutSections::Help { scroll: 1, max_scroll: 2 }));
}

#[test]
fn search_query_editing() {
    let mut state = state(&["a"]);
    state.enter_search();
    state.search_input_char('f');
    state.search_input_char('o');
    match &state.focus {
        LayoutSections::Search { query } => assert_eq!(query, "fo"),
        _ => panic!("expected the search line"),
    }
    assert!(!state.search_remove_char());
    assert!(!state.search_remove_char());
    assert!(state.search_remove_char());
}

#[test]
fn scroll_sizes() {
    assert_eq!(TuiAppState::scroll_size(ScrollSize::One, 36), 1);
    assert_eq!(TuiAppState::scroll_size(ScrollSize::Half, 36), 18);
    assert_eq!(TuiAppState::scroll_size(ScrollSize::Full, 36), 36);
    assert_eq!(TuiAppState::scroll_size(ScrollSize::Edge, 36), 0);
}

#[test]
fn finishing_a_task_records_its_result_and_drops_its_input() {
    let mut state = state(&["a", "b"]);
    state.insert_stdin("a", true).unwrap();
    let effects = state.update(AppCommand::FinishTask { task: "a".to_string(), result: TaskResult::Failure(3) }, 0, 0).unwrap();
    assert!(matches!(effects.as_slice(), [UiEffect::DropStdin { task }] if task == "a"));
    assert_eq!(state.tasks[0].status, TaskStatus::Finished(TaskResult::Failure(3)));
    assert!(!state.tasks[0].has_stdin);
    assert!(matches!(state.focus, LayoutSections::TaskList(None)));
    assert!(state.update(AppCommand::PlanTask { task: "nope".to_string() }, 0, 0).is_err());
}

#[test]
fn scrolling_moves_the_output_by_the_pane() {
    let mut state = state(&["a"]);
    let effects = state.update(AppCommand::ScrollUp(ScrollSize::Half), 0, 0).unwrap();
    // 24 rows leave 20 for the pane
    assert!(matches!(effects.as_slice(), [UiEffect::ScrollOutput { direction: Direction::Up, stride: 10 }]));
}

#[test]
fn input_goes_to_the_task_only_in_the_pane() {
    let mut state = state(&["a"]);
    let effects = state.update(AppCommand::Input { bytes: b"x".to_vec() }, 0, 0).unwrap();
    assert!(matches!(effects.as_slice(), [UiEffect::ForwardInput { .. }]));
    state.focus = LayoutSections::TaskList(None);
    assert!(state.update(AppCommand::Input { bytes: b"x".to_vec() }, 0, 0).unwrap().is_empty());
}

#[test]
fn quitting_tells_the_runner() {
    let mut state = state(&["a"]);
    let effects = state.update(AppCommand::Quit, 0, 0).unwrap();
    assert!(matches!(effects.as_slice(), [UiEffect::RunnerQuit]));
    assert!(state.quitting);
    let toast = state.toast.as_ref().unwrap();
    assert_eq!(toast.message, "\u{1FAA3} Quitting... (press q to force quit)");
    assert!(toast.expires_at.is_none());
    state.update(AppCommand::Quit, 0, 0).unwrap();
    assert!(state.force_quitting);
    assert_eq!(state.toast.as_ref().unwrap().message, "\u{1F4A7} Force quitting...");
}

#[test]
fn search_results_are_walked_and_marked() {
    let mut state = state(&["a"]);
    state.focus = LayoutSections::TaskList(None);
    let results = SearchResults::new("a", "ab".to_string(), vec![Match(1, 2), Match(5, 0)], 0, false);
    let effects = state.show_search_results(results);
    assert!(matches!(effects.as_slice(), [
        UiEffect::Highlight { row: 1, col: 2, len: 2, on: true },
        UiEffect::ScrollToRow { row: 1 },
    ]));
    let effects = state.update(AppCommand::SearchNext, 0, 0).unwrap();
    assert!(matches!(effects.as_slice(), [
        UiEffect::Highlight { row: 1, col: 2, len: 2, on: false },
        UiEffect::Highlight { row: 5, col: 0, len: 2, on: true },
        UiEffect::ScrollToRow { row: 5 },
    ]));
    let effects = state.update(AppCommand::ExitSearch, 0, 0).unwrap();
    assert!(matches!(effects.as_slice(), [UiEffect::Highlight { row: 5, col: 0, len: 2, on: false }]));
    assert!(matches!(state.focus, LayoutSections::TaskList(None)));
}

#[test]
fn running_a_search_asks_for_the_query() {
    let mut state = state(&["a"]);
    state.update(AppCommand::EnterSearch, 0, 0).unwrap();
    state.update(AppCommand::SearchInputChar('x'), 0, 0).unwrap();
    let effects = state.update(AppCommand::SearchRun, 0, 0).unwrap();
    assert!(matches!(effects.as_slice(), [UiEffect::RunSearch { query }] if query == "x"));
    // Removing the last character and then one more leaves the search
    state.update(AppCommand::SearchBackspace, 0, 0).unwrap();
    state.update(AppCommand::SearchBackspace, 0, 0).unwrap();
    assert!(matches!(state.focus, LayoutSections::TaskList(None)));
}

#[test]
fn help_dialog_is_centered() {
    assert_eq!(help_dialog_size(80, 24, 40, 30), HelpRect { x: 17, y: 2, width: 46, height: 20 });
    let mut state = state(&["a"]);
    state.update(AppCommand::OpenHelp, 0, 0).unwrap();
    // 30 rows of text, 18 of them visible
    assert!(matches!(state.focus, LayoutSections::Help { scroll: 0, max_scroll: 12 }));
}

#[test]
fn toggling_the_sidebar_resizes_the_outputs() {
    let mut state = state(&["a"]);
    let effects = state.update(AppCommand::ToggleSidebar, 0, 0).unwrap();
    assert!(!state.has_sidebar);
    assert!(matches!(effects.as_slice(), [UiEffect::ResizeOutputs { rows: 20, cols: 78 }]));
}
