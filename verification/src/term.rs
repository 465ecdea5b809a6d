//! The arithmetic of the terminal that shows a task's output: scrolling, keeping the view on
//! the same line across a resize, and the selections a double or triple click makes.
//!
//! The grid is given as the wrap flag of each row: a wrapped row goes on in the next one.
use crate::command::Direction;
use crate::text::{chars_of, is_whitespace, spec_is_whitespace};
use vstd::prelude::*;

verus! {

/// The number of rows kept above the screen, enough to hold an entire log.
pub const SCROLLBACK_LEN: usize = 1_048_576;

/// The first position from `k` on whose row is not wrapped, counted from `start`.
pub open spec fn line_end_from(wrapped: Seq<bool>, start: int, k: int) -> Option<int>
    decreases wrapped.len() - k,
{
    if k < start || k >= wrapped.len() {
        None
    } else if !wrapped[k] {
        Some(k - start)
    } else {
        line_end_from(wrapped, start, k + 1)
    }
}

/// The number of rows after the row `start` that belong to its line: up to its first row that
/// is not wrapped, or none when every row from it on is.
pub open spec fn spec_rows_in_line(wrapped: Seq<bool>, start: int) -> int {
    match line_end_from(wrapped, start, start) {
        Some(k) => k,
        None => 0,
    }
}

/// The number of rows after the row `start` that belong to its line.
pub fn rows_in_line(wrapped: &[bool], start: usize) -> (r: usize)
    ensures
        r == spec_rows_in_line(wrapped@, start as int),
{
    let mut k: usize = start;
    while k < wrapped.len()
        invariant
            start <= k,
            line_end_from(wrapped@, start as int, start as int) == line_end_from(wrapped@, start as int, k as int),
        decreases wrapped.len() - k,
    {
        if !wrapped[k] {
            return k - start;
        }
        k = k + 1;
    }
    0
}

/// The line the row `top` belongs to, counting the lines that end before it, and how many rows
/// into that line it is.
pub open spec fn spec_view_anchor(wrapped: Seq<bool>, top: int) -> (int, int)
    decreases top,
{
    if top <= 0 || wrapped.len() == 0 {
        (0, 0)
    } else if top > wrapped.len() {
        spec_view_anchor(wrapped, wrapped.len() as int)
    } else {
        let (line, row) = spec_view_anchor(wrapped, top - 1);
        if wrapped[top - 1] {
            (line, row + 1)
        } else {
            (line + 1, 0)
        }
    }
}

/// Where the view sits, in something a re-wrap does not move: the line the top row `top`
/// belongs to and how far into that line it is.
pub fn view_anchor(wrapped: &[bool], top: usize) -> (r: (usize, usize))
    ensures
        r.0 == spec_view_anchor(wrapped@, top as int).0,
        r.1 == spec_view_anchor(wrapped@, top as int).1,
{
    let n = if top < wrapped.len() {
        top
    } else {
        wrapped.len()
    };
    let mut line: usize = 0;
    let mut row_in_line: usize = 0;
    let mut i: usize = 0;
    while i < n
        invariant
            i <= n <= wrapped.len(),
            line + row_in_line <= i,
            line == spec_view_anchor(wrapped@, i as int).0,
            row_in_line == spec_view_anchor(wrapped@, i as int).1,
        decreases n - i,
    {
        if wrapped[i] {
            row_in_line = row_in_line + 1;
        } else {
            line = line + 1;
            row_in_line = 0;
        }
        i = i + 1;
    }
    (line, row_in_line)
}

/// The first row of the line numbered `line`, searching from row `k` where `seen` lines have
/// ended before.
pub open spec fn line_start_from(wrapped: Seq<bool>, line: int, k: int, seen: int) -> Option<int>
    decreases wrapped.len() - k,
{
    if k < 0 || k >= wrapped.len() {
        None
    } else if seen == line {
        Some(k)
    } else {
        line_start_from(wrapped, line, k + 1, if wrapped[k] { seen } else { seen + 1 })
    }
}

/// The scrollback that puts the anchor `(line, row_in_line)` back at the top of the view, on a
/// grid with `scrollback_len` rows above a screen of `screen_rows` rows. The view lands on the
/// same row of the line where that row still exists, and on the line's first row where the line
/// now has fewer rows; a line past the grid leaves the view at the bottom.
pub open spec fn spec_restore_scrollback(
    wrapped: Seq<bool>,
    scrollback_len: int,
    screen_rows: int,
    line: int,
    row_in_line: int,
) -> int {
    let top = match line_start_from(wrapped, line, 0, 0) {
        Some(idx) => idx + (if row_in_line <= spec_rows_in_line(wrapped, idx) {
            row_in_line
        } else {
            0
        }),
        None => scrollback_len + screen_rows,
    };
    if scrollback_len > top {
        scrollback_len - top
    } else {
        0
    }
}

/// The scrollback that scrolls the line of the anchor back to the top of the view.
pub fn restore_scrollback(wrapped: &[bool], scrollback_len: usize, screen_rows: u16, anchor: (usize, usize)) -> (r: usize)
    requires
        scrollback_len + screen_rows <= usize::MAX,
    ensures
        r == spec_restore_scrollback(wrapped@, scrollback_len as int, screen_rows as int, anchor.0 as int, anchor.1 as int),
{
    let (line, row_in_line) = anchor;
    let mut seen: usize = 0;
    let mut top: usize = scrollback_len + screen_rows as usize;
    let mut idx: usize = 0;
    while idx < wrapped.len()
        invariant
            idx <= wrapped.len(),
            seen <= idx,
            scrollback_len + screen_rows <= usize::MAX,
            top == scrollback_len + screen_rows,
            line == anchor.0,
            row_in_line == anchor.1,
            line_start_from(wrapped@, line as int, 0, 0) == line_start_from(wrapped@, line as int, idx as int, seen as int),
        decreases wrapped.len() - idx,
    {
        if seen == line {
            // A narrower terminal can leave the line with fewer rows than it had
            let in_line = rows_in_line(wrapped, idx);
            let offset = if row_in_line <= in_line {
                row_in_line
            } else {
                0
            };
            proof {
                assert(line_end_from(wrapped@, idx as int, idx as int) matches Some(k) ==> k < wrapped.len() - idx) by {
                    lemma_line_end_bound(wrapped@, idx as int, idx as int);
                }
            }
            let t = idx + offset;
            return if scrollback_len > t {
                scrollback_len - t
            } else {
                0
            };
        }
        if !wrapped[idx] {
            seen = seen + 1;
        }
        idx = idx + 1;
    }
    if scrollback_len > top {
        scrollback_len - top
    } else {
        0
    }
}

/// The end of a line found from `k` on lies inside the grid.
proof fn lemma_line_end_bound(wrapped: Seq<bool>, start: int, k: int)
    ensures
        line_end_from(wrapped, start, k) matches Some(e) ==> 0 <= e && start + e < wrapped.len(),
    decreases wrapped.len() - k,
{
    if k >= start && k < wrapped.len() && wrapped[k] {
        lemma_line_end_bound(wrapped, start, k + 1);
    }
}

/// The scrollback asked for by scrolling `stride` rows in `direction` from `scrollback`: a
/// stride of 0 goes to the far end.
pub open spec fn spec_scroll_target(direction: Direction, stride: int, scrollback: int) -> int {
    match direction {
        Direction::Up => if stride == 0 {
            SCROLLBACK_LEN as int
        } else {
            scrollback + stride
        },
        Direction::Down => if stride == 0 {
            0
        } else if scrollback > stride {
            scrollback - stride
        } else {
            0
        },
    }
}

/// The scrollback asked for by scrolling `stride` rows in `direction` from `scrollback`.
pub fn scroll_target(direction: Direction, stride: usize, scrollback: usize) -> (r: usize)
    requires
        direction is Up && stride > 0 ==> scrollback + stride <= usize::MAX,
    ensures
        r == spec_scroll_target(direction, stride as int, scrollback as int),
{
    match direction {
        Direction::Up => if stride == 0 {
            SCROLLBACK_LEN
        } else {
            scrollback + stride
        },
        Direction::Down => if stride == 0 {
            0
        } else {
            scrollback.saturating_sub(stride)
        },
    }
}

/// The scrollback that brings the grid row `row` to the top of the view.
pub fn scroll_to_target(scrollback_len: usize, row: usize) -> (r: usize)
    ensures
        r == (if scrollback_len > row { scrollback_len - row } else { 0 }),
{
    scrollback_len.saturating_sub(row)
}

/// The first row of the line the visible row `row` belongs to.
pub open spec fn line_start(wrapped: Seq<bool>, row: int) -> int
    decreases row,
{
    if row <= 0 || !wrapped[row - 1] {
        row
    } else {
        line_start(wrapped, row - 1)
    }
}

/// The last row of the line the visible row `row` belongs to.
pub open spec fn line_end(wrapped: Seq<bool>, row: int) -> int
    decreases wrapped.len() - row,
{
    if row + 1 >= wrapped.len() || !wrapped[row] {
        row
    } else {
        line_end(wrapped, row + 1)
    }
}

/// The rows a triple click on row `row` selects: the whole line it belongs to, wrapped rows
/// included, with the row taken to the last visible one. Nothing when no row is visible.
pub fn line_selection_rows(wrapped: &[bool], row: u16) -> (r: Option<(u16, u16)>)
    ensures
        wrapped.len() == 0 ==> r is None,
        wrapped.len() > 0 ==> ({
            let max_row = (wrapped.len() - 1) as u16;
            let row = if row < max_row { row } else { max_row };
            r == Some((line_start(wrapped@, row as int) as u16, line_end(wrapped@, row as int) as u16))
        }),
{
    if wrapped.len() == 0 {
        return None;
    }
    let n = wrapped.len();
    let max_row = #[verifier::truncate] ((n - 1) as u16);
    proof {
        assert((max_row as usize) <= n - 1) by (bit_vector)
            requires
                max_row == ((n - 1) as u16),
                n > 0,
        ;
    }
    let row = if row < max_row {
        row
    } else {
        max_row
    };
    let row = row as usize;
    // Find the start row of the line if wrapped
    let mut start = row;
    while start > 0 && wrapped[start - 1]
        invariant
            start <= row < wrapped.len(),
            line_start(wrapped@, row as int) == line_start(wrapped@, start as int),
        decreases start,
    {
        start = start - 1;
    }
    // Find the end row of the line of wrapped
    let mut end = row;
    while end + 1 < wrapped.len() && wrapped[end]
        invariant
            row <= end < wrapped.len(),
            line_end(wrapped@, row as int) == line_end(wrapped@, end as int),
        decreases wrapped.len() - end,
    {
        end = end + 1;
    }
    Some((start as u16, end as u16))
}

/// A cell of the screen: what it shows, and whether it is the right half of a wide character.
#[derive(Debug, Clone)]
pub struct Cell {
    pub contents: String,
    pub wide_continuation: bool,
}

/// Whether a cell shows something that is not white space.
pub open spec fn shows_word(cell: Cell) -> bool {
    cell.contents@.len() > 0 && exists|i: int| 0 <= i < cell.contents@.len() && !spec_is_whitespace(cell.contents@[i])
}

/// Whether the cell at row `r` and column `c` belongs to a word: a cell that shows something
/// other than white space, or the right half of such a wide character. A cell off the screen
/// does not.
pub open spec fn spec_is_word(cells: Seq<Seq<Cell>>, r: int, c: int) -> bool {
    if 0 <= r < cells.len() && 0 <= c < cells[r].len() {
        let cell = cells[r][c];
        if cell.wide_continuation {
            c > 0 && shows_word(cells[r][c - 1])
        } else {
            shows_word(cell)
        }
    } else {
        false
    }
}

/// Whether a cell shows something that is not white space.
fn cell_shows_word(cell: &Cell) -> (r: bool)
    ensures
        r == shows_word(*cell),
{
    let chars = chars_of(cell.contents.as_str());
    let mut i: usize = 0;
    while i < chars.len()
        invariant
            i <= chars.len(),
            chars@ == cell.contents@,
            forall|j: int| 0 <= j < i ==> spec_is_whitespace(chars@[j]),
        decreases chars.len() - i,
    {
        if !is_whitespace(chars[i]) {
            return true;
        }
        i = i + 1;
    }
    false
}

/// The views of the cells of the screen.
pub open spec fn cells_view(cells: Seq<Vec<Cell>>) -> Seq<Seq<Cell>> {
    cells.map_values(|row: Vec<Cell>| row@)
}

/// Whether the cell at row `r` and column `c` belongs to a word.
fn is_word(cells: &Vec<Vec<Cell>>, r: u16, c: u16) -> (b: bool)
    ensures
        b == spec_is_word(cells_view(cells@), r as int, c as int),
{
    let r = r as usize;
    let c = c as usize;
    if r < cells.len() && c < cells[r].len() {
        let cell = &cells[r][c];
        if cell.wide_continuation {
            c > 0 && cell_shows_word(&cells[r][c - 1])
        } else {
            cell_shows_word(cell)
        }
    } else {
        false
    }
}

/// One step left from `(r, c)`, crossing into the row above when it wraps into this one, while
/// the cell there is of the class `word`; `None` where the word ends.
pub open spec fn step_left(cells: Seq<Seq<Cell>>, wrapped: Seq<bool>, cols: int, word: bool, r: int, c: int) -> Option<(int, int)> {
    if c > 0 {
        if spec_is_word(cells, r, c - 1) == word {
            Some((r, c - 1))
        } else {
            None
        }
    } else if r > 0 && wrapped[r - 1] {
        if spec_is_word(cells, r - 1, cols - 1) == word {
            Some((r - 1, cols - 1))
        } else {
            None
        }
    } else {
        None
    }
}

/// One step right from `(r, c)`, crossing into the next row when this one wraps, while the
/// cell there is of the class `word`; `None` where the word ends.
pub open spec fn step_right(cells: Seq<Seq<Cell>>, wrapped: Seq<bool>, cols: int, word: bool, r: int, c: int) -> Option<(int, int)> {
    if c + 1 < cols {
        if spec_is_word(cells, r, c + 1) == word {
            Some((r, c + 1))
        } else {
            None
        }
    } else if 0 <= r < wrapped.len() && wrapped[r] {
        if spec_is_word(cells, r + 1, 0) == word {
            Some((r + 1, 0))
        } else {
            None
        }
    } else {
        None
    }
}

/// The start of the word from `(r, c)`: steps left as long as they go.
pub open spec fn expand_left(cells: Seq<Seq<Cell>>, wrapped: Seq<bool>, cols: int, word: bool, r: int, c: int) -> (int, int)
    decreases r * cols + c,
{
    if cols <= 0 || r < 0 || c < 0 || c >= cols {
        (r, c)
    } else {
        match step_left(cells, wrapped, cols, word, r, c) {
            Some((r2, c2)) => {
                proof {
                    assert(r2 * cols + c2 < r * cols + c) by (nonlinear_arith)
                        requires
                            (r2 == r && c2 == c - 1) || (r2 == r - 1 && c2 == cols - 1 && c == 0),
                    ;
                    assert(r2 * cols + c2 >= 0) by (nonlinear_arith)
                        requires
                            r2 >= 0,
                            c2 >= 0,
                            cols > 0,
                    ;
                }
                expand_left(cells, wrapped, cols, word, r2, c2)
            },
            None => (r, c),
        }
    }
}

/// The end of the word from `(r, c)`: steps right as long as they go.
pub open spec fn expand_right(cells: Seq<Seq<Cell>>, wrapped: Seq<bool>, cols: int, word: bool, r: int, c: int) -> (int, int)
    decreases wrapped.len() + 1 - r, cols - c,
{
    if cols <= 0 || r < 0 || c < 0 || c >= cols || r > wrapped.len() {
        (r, c)
    } else {
        match step_right(cells, wrapped, cols, word, r, c) {
            Some((r2, c2)) => expand_right(cells, wrapped, cols, word, r2, c2),
            None => (r, c),
        }
    }
}

/// The cells a double click at `(row, col)` selects: the run of word cells, or of blank cells,
/// around it, across wrapped rows, with the click taken onto the screen. Nothing when no row is
/// visible. `cells` holds the visible rows, `wrapped` their wrap flags, and `cols` the width of
/// the screen, which has at least one column.
pub fn word_selection_bounds(cells: &Vec<Vec<Cell>>, wrapped: &[bool], cols: u16, row: u16, col: u16) -> (r: Option<(u16, u16, u16, u16)>)
    requires
        wrapped.len() <= u16::MAX,
        cols > 0,
    ensures
        wrapped.len() == 0 ==> r is None,
        wrapped.len() > 0 ==> ({
            let max_row = (wrapped.len() - 1) as int;
            let row = if row < max_row { row as int } else { max_row };
            let col = if col < cols - 1 { col as int } else { cols - 1 };
            let word = spec_is_word(cells_view(cells@), row, col);
            let (sr, sc) = expand_left(cells_view(cells@), wrapped@, cols as int, word, row, col);
            let (er, ec) = expand_right(cells_view(cells@), wrapped@, cols as int, word, row, col);
            r == Some((sr as u16, sc as u16, er as u16, ec as u16))
        }),
{
    if wrapped.len() == 0 {
        return None;
    }
    let max_row = (wrapped.len() - 1) as u16;
    let row = if row < max_row {
        row
    } else {
        max_row
    };
    let col = if col < cols.saturating_sub(1) {
        col
    } else {
        cols.saturating_sub(1)
    };
    let ghost g = cells_view(cells@);
    let ghost w = wrapped@;
    let target_is_word = is_word(cells, row, col);

    // Expand left, crossing wrapped line boundaries
    let mut start_row = row;
    let mut start_col = col;
    loop
        invariant
            cols > 0,
            start_col < cols,
            (start_row as int) <= (row as int),
            (row as int) < wrapped.len(),
            g == cells_view(cells@),
            w == wrapped@,
            wrapped.len() <= u16::MAX,
            expand_left(g, w, cols as int, target_is_word, row as int, col as int) == expand_left(
                g,
                w,
                cols as int,
                target_is_word,
                start_row as int,
                start_col as int,
            ),
        ensures
            expand_left(g, w, cols as int, target_is_word, row as int, col as int) == (start_row as int, start_col as int),
        decreases (start_row as int) * (cols as int) + (start_col as int),
    {
        let ghost before = (start_row as int, start_col as int);
        if start_col > 0 {
            if is_word(cells, start_row, start_col - 1) == target_is_word {
                start_col = start_col - 1;
            } else {
                break;
            }
        } else if start_row > 0 && wrapped[start_row as usize - 1] {
            if is_word(cells, start_row - 1, cols - 1) == target_is_word {
                start_row = start_row - 1;
                start_col = cols - 1;
            } else {
                break;
            }
        } else {
            break;
        }
        proof {
            assert((start_row as int) * (cols as int) + (start_col as int) < before.0 * (cols as int) + before.1) by (nonlinear_arith)
                requires
                    ((start_row as int) == before.0 && (start_col as int) == before.1 - 1) || ((start_row as int) == before.0 - 1
                        && (start_col as int) == (cols as int) - 1 && before.1 == 0),
            ;
        }
    }

    // Expand right, crossing wrapped line boundaries
    let mut end_row = row;
    let mut end_col = col;
    loop
        invariant
            cols > 0,
            end_col < cols,
            (end_row as int) <= wrapped.len(),
            g == cells_view(cells@),
            w == wrapped@,
            wrapped.len() <= u16::MAX,
            expand_right(g, w, cols as int, target_is_word, row as int, col as int) == expand_right(
                g,
                w,
                cols as int,
                target_is_word,
                end_row as int,
                end_col as int,
            ),
        ensures
            expand_right(g, w, cols as int, target_is_word, row as int, col as int) == (end_row as int, end_col as int),
            end_col < cols,
            (end_row as int) <= wrapped.len(),
        decreases wrapped.len() + 1 - end_row, cols - end_col,
    {
        if end_col + 1 < cols {
            if is_word(cells, end_row, end_col + 1) == target_is_word {
                end_col = end_col + 1;
            } else {
                break;
            }
        } else if (end_row as usize) < wrapped.len() && wrapped[end_row as usize] {
            if is_word(cells, end_row + 1, 0) == target_is_word {
                end_row = end_row + 1;
                end_col = 0;
            } else {
                break;
            }
        } else {
            break;
        }
    }
    Some((start_row, start_col, end_row, end_col))
}

/// What the start found from `(r, c)` is: no step goes left of it, every cell from it up to
/// `(r, c)`, in reading order, is of the class `word`, and every row it crosses wraps.
proof fn lemma_expand_left(cells: Seq<Seq<Cell>>, wrapped: Seq<bool>, cols: int, word: bool, r: int, c: int)
    requires
        cols > 0,
        0 <= r < wrapped.len(),
        0 <= c < cols,
    ensures
        ({
            let (sr, sc) = expand_left(cells, wrapped, cols, word, r, c);
            &&& 0 <= sr <= r
            &&& 0 <= sc < cols
            &&& (sr < r || sc <= c)
            &&& step_left(cells, wrapped, cols, word, sr, sc) is None
            &&& forall|q: int, d: int|
                0 <= d < cols && (sr < q || (sr == q && sc <= d)) && (q < r || (q == r && d < c)) ==> #[trigger] spec_is_word(
                    cells,
                    q,
                    d,
                ) == word
            &&& forall|q: int| sr <= q < r ==> #[trigger] wrapped[q]
        }),
    decreases r * cols + c,
{
    match step_left(cells, wrapped, cols, word, r, c) {
        Some((r2, c2)) => {
            assert(r2 * cols + c2 < r * cols + c) by (nonlinear_arith)
                requires
                    (r2 == r && c2 == c - 1) || (r2 == r - 1 && c2 == cols - 1 && c == 0),
            ;
            assert(r2 * cols + c2 >= 0) by (nonlinear_arith)
                requires
                    r2 >= 0,
                    c2 >= 0,
                    cols > 0,
            ;
            lemma_expand_left(cells, wrapped, cols, word, r2, c2);
        },
        None => {},
    }
}

/// What the end found from `(r, c)` is: no step goes right of it, every cell after `(r, c)` up
/// to it, in reading order, is of the class `word`, and every row it crosses wraps.
proof fn lemma_expand_right(cells: Seq<Seq<Cell>>, wrapped: Seq<bool>, cols: int, word: bool, r: int, c: int)
    requires
        cols > 0,
        0 <= r <= wrapped.len(),
        0 <= c < cols,
    ensures
        ({
            let (er, ec) = expand_right(cells, wrapped, cols, word, r, c);
            &&& r <= er <= wrapped.len()
            &&& 0 <= ec < cols
            &&& (r < er || c <= ec)
            &&& step_right(cells, wrapped, cols, word, er, ec) is None
            &&& forall|q: int, d: int|
                0 <= d < cols && (r < q || (r == q && c < d)) && (q < er || (q == er && d <= ec)) ==> #[trigger] spec_is_word(
                    cells,
                    q,
                    d,
                ) == word
            &&& forall|q: int| r <= q < er ==> #[trigger] wrapped[q]
        }),
    decreases wrapped.len() + 1 - r, cols - c,
{
    match step_right(cells, wrapped, cols, word, r, c) {
        Some((r2, c2)) => {
            lemma_expand_right(cells, wrapped, cols, word, r2, c2);
        },
        None => {},
    }
}

/// A double click selects the whole run of cells of the clicked cell's class around it: from
/// the start to the end, in reading order and going on to the next row only where a row wraps,
/// every cell is of that class, and neither end can be moved further out by a step.
pub proof fn law_word_selection_is_maximal_run(cells: Seq<Seq<Cell>>, wrapped: Seq<bool>, cols: int, r: int, c: int)
    requires
        cols > 0,
        0 <= r < wrapped.len(),
        0 <= c < cols,
    ensures
        ({
            let word = spec_is_word(cells, r, c);
            let (sr, sc) = expand_left(cells, wrapped, cols, word, r, c);
            let (er, ec) = expand_right(cells, wrapped, cols, word, r, c);
            &&& (sr < r || (sr == r && sc <= c))
            &&& (r < er || (r == er && c <= ec))
            &&& forall|q: int, d: int|
                0 <= d < cols && (sr < q || (sr == q && sc <= d)) && (q < er || (q == er && d <= ec)) ==> #[trigger] spec_is_word(
                    cells,
                    q,
                    d,
                ) == word
            &&& forall|q: int| sr <= q < er ==> #[trigger] wrapped[q]
            &&& step_left(cells, wrapped, cols, word, sr, sc) is None
            &&& step_right(cells, wrapped, cols, word, er, ec) is None
        }),
{
    let word = spec_is_word(cells, r, c);
    lemma_expand_left(cells, wrapped, cols, word, r, c);
    lemma_expand_right(cells, wrapped, cols, word, r, c);
}

/// The cells a match of `rest` cells marks from `row` and `col` on, on a screen of `rows` rows
/// of `cols` cells: the match runs to the end of its row and goes on at the start of the next,
/// and stops at the last row.
pub open spec fn highlight_from(rows: nat, cols: nat, row: nat, col: nat, rest: nat) -> Seq<(usize, usize)>
    decreases rows - row,
{
    if rest == 0 || row >= rows {
        Seq::empty()
    } else {
        let n: nat = if cols > col {
            if cols - col < rest { (cols - col) as nat } else { rest }
        } else {
            0
        };
        Seq::new(n, |k: int| (row as usize, (col + k) as usize)) + highlight_from(
            rows,
            cols,
            row + 1,
            0,
            (rest - n) as nat,
        )
    }
}

/// The cells, as row and column, that mark or unmark a match of `len` cells found at `row` and
/// `col` on a screen of `rows` rows of `cols` cells; see [`highlight_from`].
pub fn highlight_cells(rows: usize, cols: usize, row: usize, col: usize, len: usize) -> (r: Vec<(usize, usize)>)
    ensures
        r@ == highlight_from(rows as nat, cols as nat, row as nat, col as nat, len as nat),
{
    let ghost target = highlight_from(rows as nat, cols as nat, row as nat, col as nat, len as nat);
    let mut out: Vec<(usize, usize)> = Vec::new();
    let mut rest = len;
    let mut r = row;
    let mut c = col;
    while rest > 0 && r < rows
        invariant
            out@ + highlight_from(rows as nat, cols as nat, r as nat, c as nat, rest as nat) == target,
        decreases rows - r,
    {
        let ghost before = out@;
        let ghost rest0 = rest;
        let mut idx = c;
        while idx < cols && rest > 0
            invariant
                c <= idx,
                idx == c || idx <= cols,
                rest0 == rest + (idx - c),
                out@ =~= before + Seq::new((idx - c) as nat, |k: int| (r, (c + k) as usize)),
            decreases cols - idx,
        {
            out.push((r, idx));
            rest = rest - 1;
            idx = idx + 1;
        }
        proof {
            let n: nat = if cols > c {
                if cols - c < rest0 { (cols - c) as nat } else { rest0 as nat }
            } else {
                0
            };
            assert(n == idx - c);
            let piece = Seq::new(n, |k: int| (r, (c + k) as usize));
            assert(highlight_from(rows as nat, cols as nat, r as nat, c as nat, rest0 as nat) == piece
                + highlight_from(rows as nat, cols as nat, (r + 1) as nat, 0, rest as nat));
            assert(out@ + highlight_from(rows as nat, cols as nat, (r + 1) as nat, 0, rest as nat) =~= before
                + highlight_from(rows as nat, cols as nat, r as nat, c as nat, rest0 as nat));
        }
        r = r + 1;
        c = 0;
    }
    assert(out@ =~= target);
    out
}

} // verus!
