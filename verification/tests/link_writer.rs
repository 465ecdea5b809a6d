use firepit::hyperlink::{UrlSegment, UrlSpan};
use firepit::link_writer::{write_hyperlinks, CellColor, StyledCell, TermOp};

fn cell(c: &str, fg: CellColor, bold: bool) -> StyledCell {
    StyledCell {
        contents: c.to_string(),
        fg,
        bg: CellColor::Default,
        bold,
        underline: false,
        wide_continuation: false,
    }
}

#[test]
fn no_link_writes_nothing() {
    let mut ops = vec![];
    write_hyperlinks(&mut ops, &[], &vec![], 0, 0);
    assert!(ops.is_empty());
}

#[test]
fn link_is_redrawn_between_osc8_sequences() {
    let screen = vec![vec![
        cell("a", CellColor::Idx(2), false),
        cell("b", CellColor::Idx(2), false),
        cell("c", CellColor::Rgb(1, 2, 3), true),
        cell("d", CellColor::Rgb(1, 2, 3), false),
    ]];
    let urls = vec![UrlSpan {
        url: "http://x".to_string(),
        segments: vec![UrlSegment { row: 0, start_col: 0, end_col: 4 }],
    }];
    let mut ops = vec![];
    write_hyperlinks(&mut ops, &urls, &screen, 2, 3);
    assert_eq!(
        ops,
        vec![
            TermOp::SavePosition,
            TermOp::MoveTo(2, 3),
            TermOp::Write("\x1b]8;id=firepit-0;http://x\x1b\\".to_string()),
            TermOp::SetForeground(CellColor::Idx(2)),
            TermOp::SetBackground(CellColor::Default),
            TermOp::Print("a".to_string()),
            TermOp::Print("b".to_string()),
            TermOp::SetForeground(CellColor::Rgb(1, 2, 3)),
            TermOp::SetBold,
            TermOp::Print("c".to_string()),
            TermOp::ResetAttributes,
            TermOp::SetForeground(CellColor::Rgb(1, 2, 3)),
            TermOp::SetBackground(CellColor::Default),
            TermOp::Print("d".to_string()),
            TermOp::Write("\x1b]8;;\x1b\\".to_string()),
            TermOp::SetForeground(CellColor::Default),
            TermOp::SetBackground(CellColor::Default),
            TermOp::ResetAttributes,
            TermOp::RestorePosition,
        ]
    );
}

#[test]
fn links_are_numbered_and_cells_off_screen_skipped() {
    let mut wide = cell("", CellColor::Default, false);
    wide.wide_continuation = true;
    let screen = vec![vec![cell("x", CellColor::Default, false), wide]];
    let seg = |row: u16, start_col: u16, end_col: u16| UrlSegment { row, start_col, end_col };
    let mut urls: Vec<UrlSpan> = (0..11)
        .map(|_| UrlSpan { url: "u".to_string(), segments: vec![] })
        .collect();
    urls.push(UrlSpan { url: "v".to_string(), segments: vec![seg(0, 0, 5), seg(4, 0, 1)] });
    let mut ops = vec![TermOp::SetBold];
    write_hyperlinks(&mut ops, &urls, &screen, 0, 0);
    let open = TermOp::Write("\x1b]8;id=firepit-11;v\x1b\\".to_string());
    let close = TermOp::Write("\x1b]8;;\x1b\\".to_string());
    assert_eq!(
        ops,
        vec![
            TermOp::SetBold,
            TermOp::SavePosition,
            TermOp::MoveTo(0, 0),
            open.clone(),
            TermOp::SetForeground(CellColor::Default),
            TermOp::SetBackground(CellColor::Default),
            TermOp::Print("x".to_string()),
            close.clone(),
            TermOp::MoveTo(0, 4),
            open,
            close,
            TermOp::SetForeground(CellColor::Default),
            TermOp::SetBackground(CellColor::Default),
            TermOp::ResetAttributes,
            TermOp::RestorePosition,
        ]
    );
}
