use firepit::size::{width_hint, SizeInfo};

#[test]
fn pane_rows_matches_rendered_terminal_body_height() {
    let tasks = ["#foo"];
    let size = SizeInfo::new(40, 160, &tasks);

    assert_eq!(size.pane_rows(), 36);
}

#[test]
fn pane_rows_keeps_vt100_height_nonzero() {
    let tasks = ["#foo"];
    let size = SizeInfo::new(2, 80, &tasks);

    assert_eq!(size.pane_rows(), 1);
}

#[test]
fn width_hint_is_clamped() {
    assert_eq!(width_hint(&["a"]), 20);
    assert_eq!(width_hint(&["a-task-with-a-rather-long-name-1234"]), 39);
    assert_eq!(width_hint(&["x".repeat(60).as_str()]), 44);
    assert_eq!(width_hint(&[]), 20);
}

#[test]
fn pane_takes_the_room_the_task_list_leaves() {
    let size = SizeInfo::new(24, 100, &["a"]);
    // The task list asks for 20 columns and a border
    assert_eq!(size.pane_cols(true), 79);
    assert_eq!(size.pane_cols(false), 100);
    assert_eq!(size.output_cols(true), 77);
    assert_eq!(size.task_list_width(), 22);
    let narrow = SizeInfo::new(24, 40, &["a"]);
    // Never less than three quarters of the screen
    assert_eq!(narrow.pane_cols(true), 30);
}

#[test]
fn resize_keeps_the_hint() {
    let mut size = SizeInfo::new(24, 100, &["a"]);
    size.resize(30, 120);
    assert_eq!(size.rows(), 30);
    assert_eq!(size.cols(), 120);
    assert_eq!(size.pane_cols(true), 99);
}
