//! Searching the output of a task: every occurrence of a query over the whole grid, and the
//! walk through the matches in the direction the search was started in.
use crate::text::{
    chars_of, display_width, find_from, find_from_exec, lemma_find_from_bounds, rows_view, str_width,
    substring, ScreenRow,
};
use vstd::prelude::*;

verus! {

/// The row and column a match starts at, counted over the whole grid including the scrollback.
#[derive(Debug, Clone, Copy, PartialEq, Eq, Structural)]
pub struct Match(pub usize, pub usize);

/// The matches of a search in the output of a task, and the one shown.
#[derive(Debug, Clone)]
pub struct SearchResults {
    pub task: String,
    pub query: String,
    pub matches: Vec<Match>,
    pub index: usize,
    /// Search direction, as chosen by `/` or `?`.
    /// It decides which way `n` walks the matches; `N` always walks the other way.
    pub backward: bool,
}

impl SearchResults {
    /// Whether the index points at a match, or there is none.
    pub open spec fn wf(&self) -> bool {
        self.matches.len() == 0 || self.index < self.matches.len()
    }

    /// Starts a search showing the match at `index`.
    pub fn new(task: &str, query: String, matches: Vec<Match>, index: usize, backward: bool) -> (r: SearchResults)
        ensures
            r.task@ == task@,
            r.query@ == query@,
            r.matches@ == matches@,
            r.index == index,
            r.backward == backward,
    {
        SearchResults { task: task.to_string(), query, matches, index, backward }
    }

    /// The match shown, if there is any.
    pub fn current(&self) -> (r: Option<Match>)
        requires
            self.wf(),
        ensures
            self.matches.len() == 0 ==> r is None,
            self.matches.len() > 0 ==> r == Some(self.matches@[self.index as int]),
    {
        if self.matches.len() == 0 {
            return None;
        }
        Some(self.matches[self.index])
    }

    /// Moves to the match `n` would show next: down the log for a forward search, up for a
    /// backward one.
    pub fn next(&mut self) -> (r: Option<Match>)
        requires
            old(self).wf(),
        ensures
            final(self).wf(),
            final(self).matches == old(self).matches,
            final(self).task == old(self).task,
            final(self).query == old(self).query,
            final(self).backward == old(self).backward,
            final(self).index == (if old(self).backward {
                step_up_index(old(self).index as int, old(self).matches.len() as int)
            } else {
                step_down_index(old(self).index as int, old(self).matches.len() as int)
            }),
            old(self).matches.len() == 0 ==> r is None,
            old(self).matches.len() > 0 ==> r == Some(final(self).matches@[final(self).index as int]),
    {
        if self.backward {
            self.step_up()
        } else {
            self.step_down()
        }
    }

    /// Moves to the match `N` would show: the opposite way from [`Self::next`].
    pub fn previous(&mut self) -> (r: Option<Match>)
        requires
            old(self).wf(),
        ensures
            final(self).wf(),
            final(self).matches == old(self).matches,
            final(self).task == old(self).task,
            final(self).query == old(self).query,
            final(self).backward == old(self).backward,
            final(self).index == (if old(self).backward {
                step_down_index(old(self).index as int, old(self).matches.len() as int)
            } else {
                step_up_index(old(self).index as int, old(self).matches.len() as int)
            }),
            old(self).matches.len() == 0 ==> r is None,
            old(self).matches.len() > 0 ==> r == Some(final(self).matches@[final(self).index as int]),
    {
        if self.backward {
            self.step_down()
        } else {
            self.step_up()
        }
    }

    /// Moves one match down the log, from the last back to the first.
    pub fn step_down(&mut self) -> (r: Option<Match>)
        requires
            old(self).wf(),
        ensures
            final(self).wf(),
            final(self).matches == old(self).matches,
            final(self).task == old(self).task,
            final(self).query == old(self).query,
            final(self).backward == old(self).backward,
            final(self).index == step_down_index(old(self).index as int, old(self).matches.len() as int),
            old(self).matches.len() == 0 ==> r is None,
            old(self).matches.len() > 0 ==> r == Some(final(self).matches@[final(self).index as int]),
    {
        if self.matches.len() == 0 {
            return None;
        }
        self.index = if self.index == self.matches.len() - 1 {
            0
        } else {
            self.index + 1
        };
        Some(self.matches[self.index])
    }

    /// Moves one match up the log, from the first round to the last.
    pub fn step_up(&mut self) -> (r: Option<Match>)
        requires
            old(self).wf(),
        ensures
            final(self).wf(),
            final(self).matches == old(self).matches,
            final(self).task == old(self).task,
            final(self).query == old(self).query,
            final(self).backward == old(self).backward,
            final(self).index == step_up_index(old(self).index as int, old(self).matches.len() as int),
            old(self).matches.len() == 0 ==> r is None,
            old(self).matches.len() > 0 ==> r == Some(final(self).matches@[final(self).index as int]),
    {
        if self.matches.len() == 0 {
            return None;
        }
        self.index = if self.index == 0 {
            self.matches.len() - 1
        } else {
            self.index - 1
        };
        Some(self.matches[self.index])
    }

    /// Clears the query and the matches.
    pub fn reset(&mut self)
        ensures
            final(self).query@ == Seq::<char>::empty(),
            final(self).matches@ == Seq::<Match>::empty(),
            final(self).task == old(self).task,
            final(self).index == old(self).index,
            final(self).backward == old(self).backward,
            final(self).wf(),
    {
        self.query = String::new();
        self.matches.clear();
    }
}

/// The index after a step down through `n` matches: the next, or the first after the last.
pub open spec fn step_down_index(i: int, n: int) -> int {
    if n == 0 {
        i
    } else if i == n - 1 {
        0
    } else {
        i + 1
    }
}

/// The index after a step up through `n` matches: the one before, or the last before the first.
pub open spec fn step_up_index(i: int, n: int) -> int {
    if n == 0 {
        i
    } else if i == 0 {
        n - 1
    } else {
        i - 1
    }
}

/// A step up undoes a step down, and a step down undoes a step up: `n` then `N` comes back to
/// the match it started from, whichever way the search goes.
pub proof fn law_next_previous_inverse(i: int, n: int)
    requires
        0 <= i < n,
    ensures
        step_up_index(step_down_index(i, n), n) == i,
        step_down_index(step_up_index(i, n), n) == i,
        0 <= step_down_index(i, n) < n,
        0 <= step_up_index(i, n) < n,
{
}

/// The positions where `q` occurs in `line` from `start` on, left to right and without
/// overlap, as `str::match_indices` finds them. An empty query occurs at every position.
pub open spec fn match_positions(line: Seq<char>, q: Seq<char>, start: nat) -> Seq<nat>
    decreases line.len() + 1 - start,
{
    match find_from(line, q, start) {
        None => Seq::empty(),
        Some(a) => {
            proof {
                lemma_find_from_bounds(line, q, start);
            }
            let next = (if q.len() == 0 { a + 1 } else { a + q.len() }) as nat;
            seq![a] + match_positions(line, q, next)
        },
    }
}

/// The row, counted from `j`, and the column at which column `col` of a line falls, given the
/// widths of its rows.
pub open spec fn locate(col: int, widths: Seq<usize>, j: int) -> Option<(int, int)>
    decreases widths.len() - j,
{
    if j < 0 || j >= widths.len() {
        None
    } else if col < widths[j] {
        Some((j, col))
    } else {
        locate(col - widths[j], widths, j + 1)
    }
}

/// The match of the occurrence at `a` of a line that ends on row `row`, whose earlier rows
/// have the widths `previous` and whose last row has the width `current`.
pub open spec fn match_at(line: Seq<char>, previous: Seq<usize>, current: usize, row: int, a: int) -> Seq<Match> {
    let col = str_width(line.take(a)) as int;
    if previous.len() == 0 {
        seq![Match(row as usize, col as usize)]
    } else {
        match locate(col, previous.push(current), 0) {
            Some((j, c)) => seq![Match((row - previous.len() + j) as usize, c as usize)],
            None => Seq::empty(),
        }
    }
}

/// The matches of the occurrences `positions` in a line.
pub open spec fn matches_at(line: Seq<char>, previous: Seq<usize>, current: usize, row: int, positions: Seq<nat>) -> Seq<Match>
    decreases positions.len(),
{
    if positions.len() == 0 {
        Seq::empty()
    } else {
        matches_at(line, previous, current, row, positions.drop_last()) + match_at(
            line,
            previous,
            current,
            row,
            positions.last() as int,
        )
    }
}

/// The scan of the first rows of the grid: the matches in the lines they complete, and the
/// line still open with the widths of its rows.
pub open spec fn scan_matches(rows: Seq<(Seq<char>, bool)>, q: Seq<char>) -> (Seq<Match>, Seq<char>, Seq<usize>)
    decreases rows.len(),
{
    if rows.len() == 0 {
        (Seq::empty(), Seq::empty(), Seq::empty())
    } else {
        let (ms, line, previous) = scan_matches(rows.drop_last(), q);
        let row = rows.last();
        let line2 = line + row.0;
        let w = str_width(row.0);
        if row.1 {
            (ms, line2, previous.push(w))
        } else {
            (ms + matches_at(line2, previous, w, rows.len() - 1, match_positions(line2, q, 0)), Seq::empty(), Seq::empty())
        }
    }
}

/// Every match of `q` over the grid: rows are joined into logical lines where they wrap, and
/// each occurrence is given at the row and column it starts on. A line still open after the
/// last row is not searched.
pub open spec fn grid_matches(rows: Seq<(Seq<char>, bool)>, q: Seq<char>) -> Seq<Match> {
    scan_matches(rows, q).0
}

/// The number of the last wrapped rows of a scan is at most the number of rows.
proof fn lemma_scan_matches_previous(rows: Seq<(Seq<char>, bool)>, q: Seq<char>)
    ensures
        scan_matches(rows, q).2.len() <= rows.len(),
    decreases rows.len(),
{
    if rows.len() > 0 {
        lemma_scan_matches_previous(rows.drop_last(), q);
    }
}

/// The row and column at which column `col` of a line falls, given the widths of its rows.
fn locate_exec(col: usize, widths: &Vec<usize>) -> (r: Option<(usize, usize)>)
    ensures
        r matches Some((j, c)) ==> locate(col as int, widths@, 0) == Some((j as int, c as int)) && j < widths.len(),
        r is None ==> locate(col as int, widths@, 0) is None,
{
    let mut c = col;
    let mut j: usize = 0;
    while j < widths.len()
        invariant
            j <= widths.len(),
            locate(col as int, widths@, 0) == locate(c as int, widths@, j as int),
        decreases widths.len() - j,
    {
        if c < widths[j] {
            return Some((j, c));
        }
        c = c - widths[j];
        j = j + 1;
    }
    None
}

/// Records the matches of `query` in a line that ends on row `row`.
fn line_matches(
    line: &Vec<char>,
    query: &Vec<char>,
    previous: &Vec<usize>,
    current: usize,
    row: usize,
    matches: &mut Vec<Match>,
)
    requires
        previous.len() <= row,
    ensures
        final(matches)@ == old(matches)@ + matches_at(line@, previous@, current, row as int, match_positions(line@, query@, 0)),
{
    let ghost l = line@;
    let ghost q = query@;
    let ghost mut done: Seq<nat> = Seq::empty();
    let mut widths = previous.clone();
    widths.push(current);
    proof {
        assert(match_positions(l, q, 0) =~= done + match_positions(l, q, 0));
        assert(matches@ =~= old(matches)@ + matches_at(l, previous@, current, row as int, done));
    }
    let mut start: usize = 0;
    while start <= line.len()
        invariant_except_break
            start <= line.len() + 1,
            match_positions(l, q, 0) == done + match_positions(l, q, start as nat),
        invariant
            l == line@,
            q == query@,
            previous.len() <= row,
            widths@ == previous@.push(current),
            matches@ == old(matches)@ + matches_at(l, previous@, current, row as int, done),
        ensures
            match_positions(l, q, 0) == done,
            matches@ == old(matches)@ + matches_at(l, previous@, current, row as int, done),
        decreases line.len() + 1 - start,
    {
        let found = find_from_exec(line, query, start);
        match found {
            None => {
                proof {
                    assert(match_positions(l, q, start as nat) =~= Seq::<nat>::empty());
                    assert(match_positions(l, q, 0) =~= done);
                }
                break;
            },
            Some(a) => {
                proof {
                    lemma_find_from_bounds(l, q, start as nat);
                }
                // An empty query matches at every position, the end of the line too.
                let at_end = query.len() == 0 && a >= line.len();
                let next = if at_end {
                    a
                } else if query.len() == 0 {
                    a + 1
                } else {
                    a + query.len()
                };
                let ghost next_spec: nat = (if q.len() == 0 { a + 1 } else { a + q.len() }) as nat;
                proof {
                    let rest = match_positions(l, q, next_spec);
                    assert(match_positions(l, q, start as nat) == seq![a as nat] + rest);
                    assert(done + (seq![a as nat] + rest) =~= done.push(a as nat) + rest);
                    assert(done.push(a as nat).drop_last() =~= done);
                }
                let col = display_width(substring(line, 0, a).as_str());
                proof {
                    assert(l.subrange(0, a as int) =~= l.take(a as int));
                }
                if previous.len() == 0 {
                    matches.push(Match(row, col));
                } else {
                    let located = locate_exec(col, &widths);
                    match located {
                        Some((j, c)) => {
                            matches.push(Match(row - previous.len() + j, c));
                        },
                        None => {},
                    }
                }
                proof {
                    assert(matches@ =~= old(matches)@ + matches_at(l, previous@, current, row as int, done.push(a as nat)));
                    done = done.push(a as nat);
                }
                if at_end || next > line.len() {
                    proof {
                        assert(find_from(l, q, next_spec) is None);
                        assert(match_positions(l, q, next_spec) =~= Seq::<nat>::empty());
                        assert(match_positions(l, q, 0) =~= done);
                    }
                    break;
                }
                start = next;
            },
        }
    }
}

/// Finds every occurrence of `query` over the whole grid, scrollback included.
///
/// Rows are joined into logical lines first, so a match broken up by a wrap is still found, and
/// the offset within the line is then mapped back to the row the match starts on.
pub fn find_matches(rows: &[ScreenRow], query: &str) -> (r: Vec<Match>)
    ensures
        r@ == grid_matches(rows_view(rows@), query@),
{
    let ghost view = rows_view(rows@);
    let q = chars_of(query);
    let mut matches: Vec<Match> = Vec::new();
    let mut line_buf: Vec<char> = Vec::new();
    let mut previous_row_widths: Vec<usize> = Vec::new();
    let mut row_idx: usize = 0;
    while row_idx < rows.len()
        invariant
            row_idx <= rows.len(),
            view == rows_view(rows@),
            q@ == query@,
            ({
                let (m, l, p) = scan_matches(view.take(row_idx as int), q@);
                matches@ == m && line_buf@ == l && previous_row_widths@ == p
            }),
        decreases rows.len() - row_idx,
    {
        proof {
            assert(view.take(row_idx + 1).drop_last() =~= view.take(row_idx as int));
            assert(view.take(row_idx + 1).last() == view[row_idx as int]);
            lemma_scan_matches_previous(view.take(row_idx as int), q@);
        }
        let mut text = chars_of(rows[row_idx].text.as_str());
        let current_row_width = display_width(rows[row_idx].text.as_str());
        line_buf.append(&mut text);
        if rows[row_idx].wrapped {
            previous_row_widths.push(current_row_width);
        } else {
            line_matches(&line_buf, &q, &previous_row_widths, current_row_width, row_idx, &mut matches);
            previous_row_widths = Vec::new();
            line_buf = Vec::new();
        }
        row_idx = row_idx + 1;
    }
    proof {
        assert(view.take(view.len() as int) =~= view);
    }
    matches
}

/// The rows the matches start on.
pub open spec fn match_rows(matches: Seq<Match>) -> Seq<usize> {
    matches.map_values(|m: Match| m.0)
}

/// Picks the match to show first: the one past the view in the direction being searched, or
/// the match at the far end of the log when there is none left that way. `offset` is the grid
/// row the top of the view shows.
pub fn initial_index(matches: &[Match], offset: usize, backward: bool) -> (r: usize)
    ensures
        ({
            let rows = match_rows(matches@);
            if backward {
                (exists|i: int| 0 <= i < rows.len() && rows[i] < offset) ==> (r < matches.len() && rows[r as int]
                    < offset && forall|j: int| r < j < rows.len() ==> !(rows[j] < offset))
            } else {
                (exists|i: int| 0 <= i < rows.len() && offset <= rows[i]) ==> (r < matches.len() && offset
                    <= rows[r as int] && forall|j: int| 0 <= j < r ==> !(offset <= rows[j]))
            }
        }),
        ({
            let rows = match_rows(matches@);
            (if backward {
                !exists|i: int| 0 <= i < rows.len() && rows[i] < offset
            } else {
                !exists|i: int| 0 <= i < rows.len() && offset <= rows[i]
            }) ==> r == (if matches.len() == 0 { 0 } else { matches.len() - 1 })
        }),
{
    let ghost rows = match_rows(matches@);
    if backward {
        let mut i: usize = matches.len();
        while i > 0
            invariant
                i <= matches.len(),
                backward,
                rows == match_rows(matches@),
                forall|j: int| i <= j < rows.len() ==> !(rows[j] < offset),
            decreases i,
        {
            if matches[i - 1].0 < offset {
                proof {
                    assert(rows[i - 1] == matches@[i - 1].0);
                }
                return i - 1;
            }
            i = i - 1;
        }
    } else {
        let mut i: usize = 0;
        while i < matches.len()
            invariant
                i <= matches.len(),
                !backward,
                rows == match_rows(matches@),
                forall|j: int| 0 <= j < i ==> !(offset <= rows[j]),
            decreases matches.len() - i,
        {
            if offset <= matches[i].0 {
                proof {
                    assert(rows[i as int] == matches@[i as int].0);
                }
                return i;
            }
            i = i + 1;
        }
    }
    matches.len().saturating_sub(1)
}

/// The grid row the top of the view currently shows: the length of the scrollback less how far
/// the view is scrolled back.
pub fn first_visible_row(scrollback_len: usize, scrollback: usize) -> (r: usize)
    requires
        scrollback <= scrollback_len,
    ensures
        r == scrollback_len - scrollback,
{
    scrollback_len - scrollback
}

} // verus!
