//! The terminal operations that make the links found on a task's screen clickable. Each
//! segment of a link is drawn again over the cells it covers, in the colours and attributes
//! of those cells, between the two OSC 8 sequences that open and close a hyperlink.
use crate::hyperlink::{spans_view, UrlSegment, UrlSpan, UrlSpanView};
use crate::text::{chars_of, decimal_text, push_decimal, string_from_chars};
use vstd::prelude::*;

verus! {

/// The colour of a cell: the terminal's own, one of its 256 indexed colours, or an RGB value.
#[derive(Debug, Clone, Copy, PartialEq, Eq, Structural)]
pub enum CellColor {
    Default,
    Idx(u8),
    Rgb(u8, u8, u8),
}

/// A cell of the screen as drawn: what it shows and how.
#[derive(Debug, Clone)]
pub struct StyledCell {
    pub contents: String,
    pub fg: CellColor,
    pub bg: CellColor,
    pub bold: bool,
    pub underline: bool,
    /// The right half of a wide character, drawn together with the cell before it
    pub wide_continuation: bool,
}

/// What a [`StyledCell`] holds.
pub struct StyledCellView {
    pub contents: Seq<char>,
    pub fg: CellColor,
    pub bg: CellColor,
    pub bold: bool,
    pub underline: bool,
    pub wide_continuation: bool,
}

impl View for StyledCell {
    type V = StyledCellView;

    open spec fn view(&self) -> StyledCellView {
        StyledCellView {
            contents: self.contents@,
            fg: self.fg,
            bg: self.bg,
            bold: self.bold,
            underline: self.underline,
            wide_continuation: self.wide_continuation,
        }
    }
}

/// The cells of a screen, row by row.
pub open spec fn grid_view(cells: Seq<Vec<StyledCell>>) -> Seq<Seq<StyledCellView>> {
    cells.map_values(|r: Vec<StyledCell>| r@.map_values(|c: StyledCell| c@))
}

/// An operation on the terminal. The colour [`CellColor::Default`] resets a colour to the
/// terminal's own.
#[derive(Debug, Clone, PartialEq, Eq)]
pub enum TermOp {
    SavePosition,
    RestorePosition,
    /// Move the cursor to a column and a row
    MoveTo(u16, u16),
    /// Write these characters as they are: an escape sequence
    Write(String),
    SetForeground(CellColor),
    SetBackground(CellColor),
    SetBold,
    SetUnderlined,
    /// Reset every attribute
    ResetAttributes,
    /// Print text in the current colours and attributes
    Print(String),
}

/// What a [`TermOp`] says.
pub enum TermOpView {
    SavePosition,
    RestorePosition,
    MoveTo(u16, u16),
    Write(Seq<char>),
    SetForeground(CellColor),
    SetBackground(CellColor),
    SetBold,
    SetUnderlined,
    ResetAttributes,
    Print(Seq<char>),
}

impl View for TermOp {
    type V = TermOpView;

    open spec fn view(&self) -> TermOpView {
        match self {
            TermOp::SavePosition => TermOpView::SavePosition,
            TermOp::RestorePosition => TermOpView::RestorePosition,
            TermOp::MoveTo(x, y) => TermOpView::MoveTo(*x, *y),
            TermOp::Write(s) => TermOpView::Write(s@),
            TermOp::SetForeground(c) => TermOpView::SetForeground(*c),
            TermOp::SetBackground(c) => TermOpView::SetBackground(*c),
            TermOp::SetBold => TermOpView::SetBold,
            TermOp::SetUnderlined => TermOpView::SetUnderlined,
            TermOp::ResetAttributes => TermOpView::ResetAttributes,
            TermOp::Print(s) => TermOpView::Print(s@),
        }
    }
}

/// The views of a list of operations.
pub open spec fn ops_view(s: Seq<TermOp>) -> Seq<TermOpView> {
    s.map_values(|o: TermOp| o@)
}

/// The sequence that opens the hyperlink number `id` to `url`; the id groups the segments of
/// one link.
pub open spec fn osc8_open(id: nat, url: Seq<char>) -> Seq<char> {
    "\x1b]8;id=firepit-"@ + decimal_text(id) + ";"@ + url + "\x1b\\"@
}

/// The sequence that closes a hyperlink.
pub open spec fn osc8_close() -> Seq<char> {
    "\x1b]8;;\x1b\\"@
}

/// The cell at `row` and `col`, if the screen has one there.
pub open spec fn cell_at(grid: Seq<Seq<StyledCellView>>, row: int, col: int) -> Option<StyledCellView> {
    if 0 <= row < grid.len() && 0 <= col < grid[row].len() {
        Some(grid[row][col])
    } else {
        None
    }
}

/// Drawing the cell `c` when the colours last set are `last_fg` and `last_bg` (`None`: not
/// known): each colour is set when it differs, then the attributes, then the text, and the
/// attributes are reset after a bold or underlined cell.
pub open spec fn cell_ops(c: StyledCellView, last_fg: Option<CellColor>, last_bg: Option<CellColor>) -> Seq<
    TermOpView,
> {
    (if last_fg == Some(c.fg) {
        Seq::empty()
    } else {
        seq![TermOpView::SetForeground(c.fg)]
    }) + (if last_bg == Some(c.bg) {
        Seq::empty()
    } else {
        seq![TermOpView::SetBackground(c.bg)]
    }) + (if c.bold {
        seq![TermOpView::SetBold]
    } else {
        Seq::empty()
    }) + (if c.underline {
        seq![TermOpView::SetUnderlined]
    } else {
        Seq::empty()
    }) + (if c.contents.len() > 0 {
        seq![TermOpView::Print(c.contents)]
    } else {
        Seq::empty()
    }) + (if c.bold || c.underline {
        seq![TermOpView::ResetAttributes]
    } else {
        Seq::empty()
    })
}

/// Drawing the cells of `row` from `col` up to `end`, skipping the columns the screen does not
/// have and the right halves of wide characters. A reset of the attributes forgets the colours.
pub open spec fn run_ops(
    grid: Seq<Seq<StyledCellView>>,
    row: int,
    col: int,
    end: int,
    last_fg: Option<CellColor>,
    last_bg: Option<CellColor>,
) -> Seq<TermOpView>
    decreases end - col,
{
    if col >= end {
        Seq::empty()
    } else {
        match cell_at(grid, row, col) {
            None => run_ops(grid, row, col + 1, end, last_fg, last_bg),
            Some(c) => if c.wide_continuation {
                run_ops(grid, row, col + 1, end, last_fg, last_bg)
            } else {
                let reset = c.bold || c.underline;
                cell_ops(c, last_fg, last_bg) + run_ops(
                    grid,
                    row,
                    col + 1,
                    end,
                    if reset { None } else { Some(c.fg) },
                    if reset { None } else { Some(c.bg) },
                )
            },
        }
    }
}

/// Drawing one segment of a link opened by `open`, on a screen drawn at `offset_x` and
/// `offset_y`.
pub open spec fn segment_ops(
    grid: Seq<Seq<StyledCellView>>,
    seg: UrlSegment,
    offset_x: u16,
    offset_y: u16,
    open: Seq<char>,
) -> Seq<TermOpView> {
    seq![
        TermOpView::MoveTo((offset_x + seg.start_col) as u16, (offset_y + seg.row) as u16),
        TermOpView::Write(open),
    ] + run_ops(grid, seg.row as int, seg.start_col as int, seg.end_col as int, None, None) + seq![
        TermOpView::Write(osc8_close()),
    ]
}

/// Drawing the segments of one link, in order.
pub open spec fn segments_ops(
    grid: Seq<Seq<StyledCellView>>,
    segs: Seq<UrlSegment>,
    offset_x: u16,
    offset_y: u16,
    open: Seq<char>,
) -> Seq<TermOpView>
    decreases segs.len(),
{
    if segs.len() == 0 {
        Seq::empty()
    } else {
        segments_ops(grid, segs.drop_last(), offset_x, offset_y, open) + segment_ops(
            grid,
            segs.last(),
            offset_x,
            offset_y,
            open,
        )
    }
}

/// Drawing the links in order, each numbered by its place in the list.
pub open spec fn links_ops(
    grid: Seq<Seq<StyledCellView>>,
    urls: Seq<UrlSpanView>,
    offset_x: u16,
    offset_y: u16,
) -> Seq<TermOpView>
    decreases urls.len(),
{
    if urls.len() == 0 {
        Seq::empty()
    } else {
        links_ops(grid, urls.drop_last(), offset_x, offset_y) + segments_ops(
            grid,
            urls.last().segments,
            offset_x,
            offset_y,
            osc8_open((urls.len() - 1) as nat, urls.last().url),
        )
    }
}

/// Everything written for the links `urls`: nothing when there is none; else the links between
/// a save and a restore of the cursor, and a reset of the colours and attributes.
pub open spec fn spec_hyperlink_ops(
    grid: Seq<Seq<StyledCellView>>,
    urls: Seq<UrlSpanView>,
    offset_x: u16,
    offset_y: u16,
) -> Seq<TermOpView> {
    if urls.len() == 0 {
        Seq::empty()
    } else {
        seq![TermOpView::SavePosition] + links_ops(grid, urls, offset_x, offset_y) + seq![
            TermOpView::SetForeground(CellColor::Default),
            TermOpView::SetBackground(CellColor::Default),
            TermOpView::ResetAttributes,
            TermOpView::RestorePosition,
        ]
    }
}

/// Whether each segment of the links, moved by the offsets, still has a position on the
/// terminal.
pub open spec fn fits_on_screen(urls: Seq<UrlSpanView>, offset_x: u16, offset_y: u16) -> bool {
    forall|i: int, j: int|
        0 <= i < urls.len() && 0 <= j < urls[i].segments.len() ==> offset_x + (#[trigger] urls[i].segments[j]).start_col
            <= u16::MAX && offset_y + urls[i].segments[j].row <= u16::MAX
}

fn push_op(ops: &mut Vec<TermOp>, op: TermOp)
    ensures
        ops_view(final(ops)@) == ops_view(old(ops)@).push(op@),
{
    ops.push(op);
    proof {
        assert(ops_view(ops@) =~= ops_view(old(ops)@).push(op@));
    }
}

fn same_color(last: Option<CellColor>, c: CellColor) -> (r: bool)
    ensures
        r == (last == Some(c)),
{
    match last {
        Some(l) => l == c,
        None => false,
    }
}

/// Appends the operations that draw the cell `c`; see [`cell_ops`].
fn write_cell(ops: &mut Vec<TermOp>, c: &StyledCell, last_fg: Option<CellColor>, last_bg: Option<CellColor>)
    ensures
        ops_view(final(ops)@) == ops_view(old(ops)@) + cell_ops(c@, last_fg, last_bg),
{
    let ghost base = ops_view(ops@);
    let ghost v = c@;
    let ghost p1: Seq<TermOpView> = if last_fg == Some(v.fg) {
        Seq::empty()
    } else {
        seq![TermOpView::SetForeground(v.fg)]
    };
    let ghost p2: Seq<TermOpView> = if last_bg == Some(v.bg) {
        Seq::empty()
    } else {
        seq![TermOpView::SetBackground(v.bg)]
    };
    let ghost p3: Seq<TermOpView> = if v.bold {
        seq![TermOpView::SetBold]
    } else {
        Seq::empty()
    };
    let ghost p4: Seq<TermOpView> = if v.underline {
        seq![TermOpView::SetUnderlined]
    } else {
        Seq::empty()
    };
    let ghost p5: Seq<TermOpView> = if v.contents.len() > 0 {
        seq![TermOpView::Print(v.contents)]
    } else {
        Seq::empty()
    };
    let ghost p6: Seq<TermOpView> = if v.bold || v.underline {
        seq![TermOpView::ResetAttributes]
    } else {
        Seq::empty()
    };
    if !same_color(last_fg, c.fg) {
        push_op(ops, TermOp::SetForeground(c.fg));
    }
    assert(ops_view(ops@) =~= base + p1);
    if !same_color(last_bg, c.bg) {
        push_op(ops, TermOp::SetBackground(c.bg));
    }
    assert(ops_view(ops@) =~= base + p1 + p2);
    if c.bold {
        push_op(ops, TermOp::SetBold);
    }
    assert(ops_view(ops@) =~= base + p1 + p2 + p3);
    if c.underline {
        push_op(ops, TermOp::SetUnderlined);
    }
    assert(ops_view(ops@) =~= base + p1 + p2 + p3 + p4);
    if !c.contents.as_str().is_empty() {
        push_op(ops, TermOp::Print(c.contents.clone()));
    }
    assert(ops_view(ops@) =~= base + p1 + p2 + p3 + p4 + p5);
    if c.bold || c.underline {
        push_op(ops, TermOp::ResetAttributes);
    }
    assert(ops_view(ops@) =~= base + p1 + p2 + p3 + p4 + p5 + p6);
    assert(cell_ops(v, last_fg, last_bg) =~= p1 + p2 + p3 + p4 + p5 + p6);
    assert(ops_view(ops@) =~= base + cell_ops(v, last_fg, last_bg));
}

/// Appends the operations that draw the cells of `row` from `start` up to `end`; see
/// [`run_ops`].
fn write_run(ops: &mut Vec<TermOp>, cells: &Vec<Vec<StyledCell>>, row: u16, start: u16, end: u16)
    ensures
        ops_view(final(ops)@) == ops_view(old(ops)@) + run_ops(
            grid_view(cells@),
            row as int,
            start as int,
            end as int,
            None,
            None,
        ),
{
    let ghost g = grid_view(cells@);
    let ghost target = ops_view(ops@) + run_ops(g, row as int, start as int, end as int, None, None);
    let mut last_fg: Option<CellColor> = None;
    let mut last_bg: Option<CellColor> = None;
    let mut col: u16 = start;
    while col < end
        invariant
            g == grid_view(cells@),
            ops_view(ops@) + run_ops(g, row as int, col as int, end as int, last_fg, last_bg) == target,
        decreases end - col,
    {
        let ghost before = ops_view(ops@);
        let ghost lf = last_fg;
        let ghost lb = last_bg;
        let r = row as usize;
        let k = col as usize;
        if r < cells.len() && k < cells[r].len() {
            let c = &cells[r][k];
            assert(cell_at(g, row as int, col as int) == Some(c@));
            if !c.wide_continuation {
                write_cell(ops, c, last_fg, last_bg);
                if c.bold || c.underline {
                    last_fg = None;
                    last_bg = None;
                } else {
                    last_fg = Some(c.fg);
                    last_bg = Some(c.bg);
                }
                assert(ops_view(ops@) + run_ops(g, row as int, col + 1, end as int, last_fg, last_bg) =~= before
                    + run_ops(g, row as int, col as int, end as int, lf, lb));
            }
        } else {
            assert(cell_at(g, row as int, col as int) is None);
        }
        col = col + 1;
    }
    assert(ops_view(ops@) =~= target);
}

/// Appends the operations that draw one segment of a link; see [`segment_ops`].
fn write_segment(
    ops: &mut Vec<TermOp>,
    cells: &Vec<Vec<StyledCell>>,
    seg: UrlSegment,
    offset_x: u16,
    offset_y: u16,
    open: &String,
)
    requires
        offset_x + seg.start_col <= u16::MAX,
        offset_y + seg.row <= u16::MAX,
    ensures
        ops_view(final(ops)@) == ops_view(old(ops)@) + segment_ops(grid_view(cells@), seg, offset_x, offset_y, open@),
{
    let ghost base = ops_view(ops@);
    push_op(ops, TermOp::MoveTo(offset_x + seg.start_col, offset_y + seg.row));
    push_op(ops, TermOp::Write(open.clone()));
    write_run(ops, cells, seg.row, seg.start_col, seg.end_col);
    let close = string_from_chars(chars_of("\x1b]8;;\x1b\\").as_slice());
    push_op(ops, TermOp::Write(close));
    assert(ops_view(ops@) =~= base + segment_ops(grid_view(cells@), seg, offset_x, offset_y, open@));
}

/// The sequence that opens the hyperlink number `id` to `url`; see [`osc8_open`].
fn osc8_open_text(id: usize, url: &String) -> (r: String)
    ensures
        r@ == osc8_open(id as nat, url@),
{
    let mut chars = chars_of("\x1b]8;id=firepit-");
    push_decimal(id as u64, &mut chars);
    let mut sep = chars_of(";");
    chars.append(&mut sep);
    let mut u = chars_of(url.as_str());
    chars.append(&mut u);
    let mut end = chars_of("\x1b\\");
    chars.append(&mut end);
    string_from_chars(chars.as_slice())
}

/// Writes, as operations appended to `ops`, the hyperlinks over the links `urls` found on a
/// screen whose cells are `screen` and which is drawn at `offset_x` and `offset_y`: nothing
/// when there is no link; else each segment of each link drawn again, in the colours and
/// attributes of its cells, between the sequences that open and close the link, all between a
/// save and a restore of the cursor and followed by a reset of the colours and attributes.
pub fn write_hyperlinks(
    ops: &mut Vec<TermOp>,
    urls: &[UrlSpan],
    screen: &Vec<Vec<StyledCell>>,
    offset_x: u16,
    offset_y: u16,
)
    requires
        fits_on_screen(spans_view(urls@), offset_x, offset_y),
    ensures
        ops_view(final(ops)@) == ops_view(old(ops)@) + spec_hyperlink_ops(
            grid_view(screen@),
            spans_view(urls@),
            offset_x,
            offset_y,
        ),
{
    let ghost g = grid_view(screen@);
    let ghost u = spans_view(urls@);
    let ghost base = ops_view(ops@);
    if urls.len() == 0 {
        assert(ops_view(ops@) =~= base + spec_hyperlink_ops(g, u, offset_x, offset_y));
        return;
    }
    push_op(ops, TermOp::SavePosition);
    assert(u.len() == urls.len());
    let mut i: usize = 0;
    while i < urls.len()
        invariant
            i <= urls.len(),
            g == grid_view(screen@),
            u == spans_view(urls@),
            u.len() == urls.len(),
            fits_on_screen(u, offset_x, offset_y),
            ops_view(ops@) == base + seq![TermOpView::SavePosition] + links_ops(g, u.take(i as int), offset_x, offset_y),
        decreases urls.len() - i,
    {
        let open = osc8_open_text(i, &urls[i].url);
        let ghost before = ops_view(ops@);
        let ghost segs = urls@[i as int].segments@;
        assert(u[i as int].segments == segs);
        let mut j: usize = 0;
        while j < urls[i].segments.len()
            invariant
                i < urls.len(),
                u.len() == urls.len(),
                j <= segs.len(),
                segs == urls@[i as int].segments@,
                segs == u[i as int].segments,
                g == grid_view(screen@),
                fits_on_screen(u, offset_x, offset_y),
                ops_view(ops@) == before + segments_ops(g, segs.take(j as int), offset_x, offset_y, open@),
            decreases segs.len() - j,
        {
            let seg = urls[i].segments[j];
            assert(u[i as int].segments[j as int] == seg);
            assert(0 <= i < u.len() && 0 <= j < u[i as int].segments.len());
            assert(offset_x + u[i as int].segments[j as int].start_col <= u16::MAX);
            write_segment(ops, screen, seg, offset_x, offset_y, &open);
            proof {
                assert(segs.take(j + 1).drop_last() =~= segs.take(j as int));
                assert(segs.take(j + 1).last() == seg);
                assert(ops_view(ops@) =~= before + segments_ops(g, segs.take(j + 1), offset_x, offset_y, open@));
            }
            j = j + 1;
        }
        proof {
            assert(segs.take(segs.len() as int) =~= segs);
            assert(u.take(i + 1).drop_last() =~= u.take(i as int));
            assert(u.take(i + 1).last() == u[i as int]);
            assert(u[i as int].url == urls@[i as int].url@);
            assert(ops_view(ops@) =~= base + seq![TermOpView::SavePosition] + links_ops(
                g,
                u.take(i + 1),
                offset_x,
                offset_y,
            ));
        }
        i = i + 1;
    }
    proof {
        assert(u.take(u.len() as int) =~= u);
    }
    push_op(ops, TermOp::SetForeground(CellColor::Default));
    push_op(ops, TermOp::SetBackground(CellColor::Default));
    push_op(ops, TermOp::ResetAttributes);
    push_op(ops, TermOp::RestorePosition);
    assert(ops_view(ops@) =~= base + spec_hyperlink_ops(g, u, offset_x, offset_y));
}

} // verus!
