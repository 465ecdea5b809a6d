use firepit::command::{AppCommand, Direction, ScrollSize};
use firepit::input::{
    translate_key_event, Event, InputHandler, InputOptions, MouseButton, MouseEvent, MouseEventKind,
    DOUBLE_CLICK_NANOS,
};
use firepit::keys::{ctrl_mapping, encode_key, KeyCode, KeyEvent, KeyEventKind, KeyModifiers, ALT, CONTROL, SHIFT};
use firepit::layout::LayoutSections;

fn key(code: KeyCode, bits: u8) -> KeyEvent {
    KeyEvent { code, modifiers: KeyModifiers { bits }, kind: KeyEventKind::Press }
}

fn options(focus: &LayoutSections) -> InputOptions<'_> {
    InputOptions {
        focus,
        has_selection: false,
        task: "p#a".to_string(),
        has_sidebar: true,
        sidebar_width: 20,
        pane_rows: 10,
    }
}

#[test]
fn encodes_plain_and_control_keys() {
    assert_eq!(encode_key(key(KeyCode::Char('a'), 0)), b"a".to_vec());
    assert_eq!(encode_key(key(KeyCode::Char('c'), CONTROL)), vec![3u8]);
    assert_eq!(encode_key(key(KeyCode::Char('x'), ALT)), b"\x1bx".to_vec());
    assert_eq!(encode_key(key(KeyCode::Char('a'), SHIFT | CONTROL)), vec![1u8]);
    assert_eq!(encode_key(key(KeyCode::Enter, 0)), b"\r".to_vec());
    assert_eq!(encode_key(key(KeyCode::Backspace, 0)), vec![0x7fu8]);
    assert_eq!(encode_key(key(KeyCode::Char('é'), 0)), "é".as_bytes().to_vec());
}

#[test]
fn encodes_cursor_editing_and_function_keys() {
    assert_eq!(encode_key(key(KeyCode::Up, 0)), b"\x1b[A".to_vec());
    assert_eq!(encode_key(key(KeyCode::Left, CONTROL)), b"\x1b[1;5D".to_vec());
    assert_eq!(encode_key(key(KeyCode::Delete, 0)), b"\x1b[3~".to_vec());
    assert_eq!(encode_key(key(KeyCode::PageUp, SHIFT)), b"\x1b[52".to_vec());
    assert_eq!(encode_key(key(KeyCode::F(1), 0)), b"\x1bOP".to_vec());
    assert_eq!(encode_key(key(KeyCode::F(5), 0)), b"\x1b[15~".to_vec());
    assert_eq!(encode_key(key(KeyCode::F(12), SHIFT)), b"\x1b[24;2~".to_vec());
    assert_eq!(encode_key(key(KeyCode::Tab, SHIFT)), b"\x1b[Z".to_vec());
    assert_eq!(encode_key(key(KeyCode::Tab, CONTROL)), b"\x1b[9;5u".to_vec());
}

#[test]
fn released_keys_send_nothing() {
    let k = KeyEvent { code: KeyCode::Char('a'), modifiers: KeyModifiers { bits: 0 }, kind: KeyEventKind::Release };
    assert!(encode_key(k).is_empty());
}

#[test]
fn control_mapping_follows_xterm() {
    assert_eq!(ctrl_mapping('a'), Some('\x01'));
    assert_eq!(ctrl_mapping('Z'), Some('\x1a'));
    assert_eq!(ctrl_mapping('@'), Some('\x00'));
    assert_eq!(ctrl_mapping('8'), Some('\x7f'));
    assert_eq!(ctrl_mapping('é'), None);
}

#[test]
fn task_list_keys() {
    let focus = LayoutSections::TaskList(None);
    assert!(matches!(translate_key_event(options(&focus), key(KeyCode::Char('j'), 0)), Some(AppCommand::Down)));
    assert!(matches!(
        translate_key_event(options(&focus), key(KeyCode::Char('G'), 0)),
        Some(AppCommand::ScrollDown(ScrollSize::Edge))
    ));
    match translate_key_event(options(&focus), key(KeyCode::Char('r'), 0)) {
        Some(AppCommand::RestartTask { task, force }) => {
            assert_eq!(task, "p#a");
            assert!(force);
        }
        _ => panic!("expected a restart"),
    }
    assert!(matches!(translate_key_event(options(&focus), key(KeyCode::Esc, 0)), Some(AppCommand::ExitSearch)));
    assert!(matches!(translate_key_event(options(&focus), key(KeyCode::Char('?'), 0)), Some(AppCommand::OpenHelp)));
}

#[test]
fn pane_keys_go_to_the_task() {
    let focus = LayoutSections::Pane;
    match translate_key_event(options(&focus), key(KeyCode::Char('q'), 0)) {
        Some(AppCommand::Input { bytes }) => assert_eq!(bytes, b"q".to_vec()),
        _ => panic!("expected input"),
    }
    assert!(matches!(
        translate_key_event(options(&focus), key(KeyCode::Char('z'), CONTROL)),
        Some(AppCommand::ExitInteractive)
    ));
}

#[test]
fn search_and_help_keys() {
    let focus = LayoutSections::Search { query: String::new() };
    assert!(matches!(
        translate_key_event(options(&focus), key(KeyCode::Char('x'), 0)),
        Some(AppCommand::SearchInputChar('x'))
    ));
    assert!(matches!(translate_key_event(options(&focus), key(KeyCode::Enter, 0)), Some(AppCommand::SearchRun)));
    let focus = LayoutSections::Help { scroll: 0, max_scroll: 3 };
    assert!(matches!(translate_key_event(options(&focus), key(KeyCode::Char('?'), 0)), Some(AppCommand::ExitHelp)));
    assert!(matches!(translate_key_event(options(&focus), key(KeyCode::Char('c'), CONTROL)), Some(AppCommand::Quit)));
}

fn mouse(kind: MouseEventKind, column: u16, row: u16) -> MouseEvent {
    MouseEvent { kind, column, row }
}

#[test]
fn mouse_on_the_task_list_selects() {
    let focus = LayoutSections::TaskList(None);
    let mut h = InputHandler::new();
    let r = h.translate_mouse_event(options(&focus), mouse(MouseEventKind::Down(MouseButton::Left), 3, 5), 0);
    assert!(matches!(r, Some(AppCommand::Select { index: 3 })));
    let r = h.translate_mouse_event(options(&focus), mouse(MouseEventKind::ScrollUp, 3, 5), 0);
    assert!(matches!(r, Some(AppCommand::Up)));
}

#[test]
fn double_click_selects_a_line() {
    let focus = LayoutSections::TaskList(None);
    let mut h = InputHandler::new();
    let click = mouse(MouseEventKind::Down(MouseButton::Left), 30, 6);
    assert!(matches!(h.translate_mouse_event(options(&focus), click, 1_000), Some(AppCommand::ClearSelection)));
    assert_eq!(h.num_of_multiple_clicks(), 1);
    let r = h.translate_mouse_event(options(&focus), click, 1_000 + DOUBLE_CLICK_NANOS);
    assert!(matches!(r, Some(AppCommand::LineSelection { rows: 4 })));
    assert_eq!(h.num_of_multiple_clicks(), 2);
    // Too late to count with the others
    let r = h.translate_mouse_event(options(&focus), click, 2_000 + 3 * DOUBLE_CLICK_NANOS);
    assert!(matches!(r, Some(AppCommand::ClearSelection)));
}

#[test]
fn dragging_past_the_pane_scrolls() {
    let focus = LayoutSections::TaskList(None);
    let mut h = InputHandler::new();
    let r = h.translate_mouse_event(options(&focus), mouse(MouseEventKind::Drag(MouseButton::Left), 25, 0), 0);
    assert!(matches!(r, Some(AppCommand::UpdateSelection { rows: 0, cols: 5, edge: Some(Direction::Up) })));
    let r = h.translate_mouse_event(options(&focus), mouse(MouseEventKind::Drag(MouseButton::Left), 25, 40), 0);
    assert!(matches!(r, Some(AppCommand::UpdateSelection { rows: 9, cols: 5, edge: Some(Direction::Down) })));
}

#[test]
fn resize_events() {
    let focus = LayoutSections::TaskList(None);
    let mut h = InputHandler::new();
    let r = h.handle(Event::Resize(100, 30), options(&focus), 0);
    assert!(matches!(r, Some(AppCommand::Resize { rows: 30, cols: 100 })));
    assert!(h.handle(Event::FocusLost, options(&focus), 0).is_none());
}
