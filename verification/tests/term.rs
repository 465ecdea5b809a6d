use firepit::command::Direction;
use firepit::term::{
    highlight_cells, line_selection_rows, restore_scrollback, rows_in_line, scroll_target, scroll_to_target, view_anchor,
    word_selection_bounds, Cell, SCROLLBACK_LEN,
};

#[test]
fn rows_of_a_line() {
    let wrapped = [true, true, false, false];
    assert_eq!(rows_in_line(&wrapped, 0), 2);
    assert_eq!(rows_in_line(&wrapped, 3), 0);
    assert_eq!(rows_in_line(&[true, true], 0), 0);
}

#[test]
fn anchor_survives_a_rewrap() {
    // Lines of two rows each at the old width
    let old = [true, false, true, false, true, false, true, false];
    // The top row is the second row of the third line
    assert_eq!(view_anchor(&old, 5), (2, 1));
    // At a wider width each line takes one row: the third line starts on row 2 and has no second row
    let new = [false, false, false, false];
    assert_eq!(restore_scrollback(&new, 3, 1, (2, 1)), 1);
    // A line past the grid leaves the view at the bottom
    assert_eq!(restore_scrollback(&new, 3, 1, (9, 0)), 0);
}

#[test]
fn resize_lands_on_the_start_of_a_line_that_lost_the_row() {
    // The second line takes rows 1 to 3
    let new = [false, true, true, false, false];
    // Its third row still exists: the view lands on it
    assert_eq!(restore_scrollback(&new, 5, 1, (1, 2)), 2);
    // It has no fourth row: the view lands on its first row
    assert_eq!(restore_scrollback(&new, 5, 1, (1, 3)), 4);
}

#[test]
fn scrolling() {
    assert_eq!(scroll_target(Direction::Up, 5, 2), 7);
    assert_eq!(scroll_target(Direction::Up, 0, 2), SCROLLBACK_LEN);
    assert_eq!(scroll_target(Direction::Down, 5, 2), 0);
    assert_eq!(scroll_target(Direction::Down, 1, 2), 1);
    assert_eq!(scroll_target(Direction::Down, 0, 9), 0);
    assert_eq!(scroll_to_target(10, 3), 7);
    assert_eq!(scroll_to_target(10, 30), 0);
}

#[test]
fn triple_click_selects_the_wrapped_line() {
    let wrapped = [false, true, true, false, false];
    assert_eq!(line_selection_rows(&wrapped, 2), Some((1, 3)));
    assert_eq!(line_selection_rows(&wrapped, 0), Some((0, 0)));
    assert_eq!(line_selection_rows(&wrapped, 99), Some((4, 4)));
    assert_eq!(line_selection_rows(&[], 0), None);
}

fn cells(text: &str) -> Vec<Cell> {
    text.chars().map(|c| Cell { contents: c.to_string(), wide_continuation: false }).collect()
}

#[test]
fn double_click_selects_a_word_across_a_wrap() {
    let grid = vec![cells("ab cd"), cells("ef gh")];
    let wrapped = [true, false];
    // Click on "d": the word "cdef" goes on in the next row
    assert_eq!(word_selection_bounds(&grid, &wrapped, 5, 0, 4), Some((0, 3, 1, 1)));
    // Click on the blank between the words of the second row
    assert_eq!(word_selection_bounds(&grid, &wrapped, 5, 1, 2), Some((1, 2, 1, 2)));
    assert_eq!(word_selection_bounds(&Vec::new(), &[], 5, 0, 0), None);
}

#[test]
fn highlight_runs_on_into_the_next_row() {
    // A match of 5 cells from column 8 of a screen 10 cells wide
    assert_eq!(highlight_cells(3, 10, 0, 8, 5), vec![(0, 8), (0, 9), (1, 0), (1, 1), (1, 2)]);
    // Within one row
    assert_eq!(highlight_cells(3, 10, 2, 1, 2), vec![(2, 1), (2, 2)]);
}

#[test]
fn highlight_stops_at_the_last_row() {
    assert_eq!(highlight_cells(2, 4, 1, 2, 10), vec![(1, 2), (1, 3)]);
    assert_eq!(highlight_cells(2, 4, 5, 0, 3), vec![]);
    assert_eq!(highlight_cells(2, 4, 0, 0, 0), vec![]);
}

#[test]
fn highlight_past_the_row_end_starts_on_the_next_row() {
    assert_eq!(highlight_cells(3, 4, 0, 6, 2), vec![(1, 0), (1, 1)]);
}
