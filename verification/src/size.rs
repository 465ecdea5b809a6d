//! The layout of the terminal user interface: how the screen is shared between the task list
//! and the pane that shows the output of a task.
use vstd::prelude::*;

verus! {

/// The widest the task names make the task list.
pub const MAX_WIDTH: usize = 40;

/// The width of the status column of the task list.
pub const STATUS_COLUMN_WIDTH: u16 = 3;

/// The width of the navigation help of the task list, `[↑↓]Navigate`, in bytes.
pub const NAVIGATE_HELP_WIDTH: usize = 16;

/// The length in bytes of the longest name, or 0 when there is none.
pub open spec fn longest_name(names: Seq<Seq<char>>) -> nat
    decreases names.len(),
{
    if names.len() == 0 {
        0
    } else {
        let rest = longest_name(names.drop_last());
        let last = vstd::utf8::encode_utf8(names.last()).len() as usize as nat;
        if last > rest {
            last
        } else {
            rest
        }
    }
}

/// The suggested width of the task list for tasks with the given names.
pub open spec fn spec_width_hint(names: Seq<Seq<char>>) -> int {
    let longest = longest_name(names);
    let name_width = if longest < NAVIGATE_HELP_WIDTH {
        NAVIGATE_HELP_WIDTH as int
    } else if longest > MAX_WIDTH {
        MAX_WIDTH as int
    } else {
        longest as int
    };
    name_width + STATUS_COLUMN_WIDTH + 1
}

/// The names of the tasks as characters.
pub open spec fn names_view(tasks: Seq<&str>) -> Seq<Seq<char>> {
    tasks.map_values(|t: &str| t@)
}

/// Provides a suggested width for the task list: the longest name, at least as wide as the
/// navigation help and at most [`MAX_WIDTH`], with room for the status column.
pub fn width_hint(tasks: &[&str]) -> (r: u16)
    ensures
        r == spec_width_hint(names_view(tasks@)),
{
    let ghost names = names_view(tasks@);
    let mut longest: usize = 0;
    let mut i: usize = 0;
    while i < tasks.len()
        invariant
            i <= tasks.len(),
            names == names_view(tasks@),
            longest == longest_name(names.take(i as int)),
        decreases tasks.len() - i,
    {
        proof {
            assert(names.take(i + 1).drop_last() =~= names.take(i as int));
            assert(names.take(i + 1).last() == tasks@[i as int]@);
        }
        let len = tasks[i].len();
        if len > longest {
            longest = len;
        }
        i = i + 1;
    }
    proof {
        assert(names.take(names.len() as int) =~= names);
    }
    let name_width: u16 = if longest < NAVIGATE_HELP_WIDTH {
        16
    } else if longest > MAX_WIDTH {
        40
    } else {
        longest as u16
    };
    // Additional spaces before and after status emoji
    name_width + STATUS_COLUMN_WIDTH + 1
}

/// The size of the screen, and the width the task list asks for.
#[derive(Debug, Clone, Copy)]
pub struct SizeInfo {
    task_width_hint: u16,
    rows: u16,
    cols: u16,
}

/// What a [`SizeInfo`] holds.
pub struct SizeInfoView {
    pub task_width_hint: u16,
    pub rows: u16,
    pub cols: u16,
}

impl View for SizeInfo {
    type V = SizeInfoView;

    closed spec fn view(&self) -> SizeInfoView {
        SizeInfoView { task_width_hint: self.task_width_hint, rows: self.rows, cols: self.cols }
    }
}

/// The width of the pane: the screen less the task list and its border when the task list is
/// shown, and at least three quarters of the screen.
pub open spec fn spec_pane_cols(s: SizeInfoView, has_sidebar: bool) -> int {
    let ratio = s.cols * 3 / 4;
    let full = if has_sidebar {
        if s.cols >= s.task_width_hint + 1 {
            s.cols - (s.task_width_hint + 1)
        } else {
            0
        }
    } else {
        s.cols as int
    };
    if full > ratio {
        full
    } else {
        ratio
    }
}

impl SizeInfo {
    /// Whether the task list asks for a width that a suggested width can have.
    pub closed spec fn wf(&self) -> bool {
        self.task_width_hint <= MAX_WIDTH + STATUS_COLUMN_WIDTH + 1
    }

    /// The size of a screen of `rows` rows and `cols` columns, for tasks with the given names.
    pub fn new(rows: u16, cols: u16, tasks: &[&str]) -> (r: SizeInfo)
        ensures
            r.wf(),
            r@.rows == rows,
            r@.cols == cols,
            r@.task_width_hint == spec_width_hint(names_view(tasks@)),
    {
        let task_width_hint = width_hint(tasks);
        SizeInfo { rows, cols, task_width_hint }
    }

    /// The number of rows of the screen.
    pub fn rows(&self) -> (r: u16)
        ensures
            r == self@.rows,
    {
        self.rows
    }

    /// The number of columns of the screen.
    pub fn cols(&self) -> (r: u16)
        ensures
            r == self@.cols,
    {
        self.cols
    }

    /// Takes the new size of the screen.
    pub fn resize(&mut self, rows: u16, cols: u16)
        requires
            old(self).wf(),
        ensures
            final(self).wf(),
            final(self)@.rows == rows,
            final(self)@.cols == cols,
            final(self)@.task_width_hint == old(self)@.task_width_hint,
    {
        self.rows = rows;
        self.cols = cols;
    }

    /// The number of rows of the pane: the screen less the title, the top padding and the
    /// footer, and at least one row.
    pub fn pane_rows(&self) -> (r: u16)
        ensures
            r == (if self@.rows >= 5 { self@.rows - 4 } else { 1 }),
    {
        // Account for title (1), top padding (1), and footer (2) in layout
        let rows = self.rows.saturating_sub(4);
        // Always allocate at least one row as the terminal emulator cannot have a zero area
        if rows < 1 {
            1
        } else {
            rows
        }
    }

    /// The number of columns of the pane, as wide as it can be.
    pub fn pane_cols(&self, has_sidebar: bool) -> (r: u16)
        requires
            self.wf(),
        ensures
            r == spec_pane_cols(self@, has_sidebar),
            r <= self@.cols,
    {
        // Three quarters of the screen, rounded down.
        let ratio_pane_width = ((self.cols as u32) * 3 / 4) as u16;
        let full_task_width = if has_sidebar {
            // We need to account for the left border of the pane
            self.cols.saturating_sub(self.task_width_hint + 1)
        } else {
            self.cols
        };
        if full_task_width > ratio_pane_width {
            full_task_width
        } else {
            ratio_pane_width
        }
    }

    /// The number of columns of the output: the pane less its scroll bar, and at least two.
    pub fn output_cols(&self, has_sidebar: bool) -> (r: u16)
        requires
            self.wf(),
        ensures
            r == (if spec_pane_cols(self@, has_sidebar) >= 4 { spec_pane_cols(self@, has_sidebar) - 2 } else { 2 }),
    {
        // Account for the pane scrollbar width (2).
        // Always allocate at least 2 columns in case of wide chars
        let cols = self.pane_cols(has_sidebar).saturating_sub(2);
        if cols < 2 {
            2
        } else {
            cols
        }
    }

    /// The actual width of the task list: what the pane leaves of the screen, and its border.
    pub fn task_list_width(&self) -> (r: u16)
        requires
            self.wf(),
        ensures
            r == self@.cols - spec_pane_cols(self@, true) + 1,
    {
        self.cols - self.pane_cols(true) + 1
    }
}

} // verus!
