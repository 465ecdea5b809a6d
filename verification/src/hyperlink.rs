//! Finding `http://` and `https://` links in the rows of a terminal screen, and where each
//! link lies on the screen, row by row.
use crate::text::{
    chars_of, display_width, find_from, find_from_exec, is_whitespace, lemma_find_from_bounds, rows_view,
    spec_is_whitespace, str_width, substring, ScreenRow,
};
use vstd::prelude::*;

verus! {

/// A single-row portion of a URL on screen: the row, and the columns from `start_col` up to
/// `end_col`.
#[derive(Debug, Clone, Copy, PartialEq, Eq, Structural)]
pub struct UrlSegment {
    pub row: u16,
    pub start_col: u16,
    pub end_col: u16,
}

/// A URL and the segments of the screen it covers.
#[derive(Debug, Clone)]
pub struct UrlSpan {
    pub url: String,
    pub segments: Vec<UrlSegment>,
}

/// What a [`UrlSpan`] holds.
pub struct UrlSpanView {
    pub url: Seq<char>,
    pub segments: Seq<UrlSegment>,
}

impl View for UrlSpan {
    type V = UrlSpanView;

    open spec fn view(&self) -> UrlSpanView {
        UrlSpanView { url: self.url@, segments: self.segments@ }
    }
}

/// The views of a list of spans.
pub open spec fn spans_view(s: Seq<UrlSpan>) -> Seq<UrlSpanView> {
    s.map_values(|u: UrlSpan| u@)
}

/// The total width of the rows: the column at which the row after them starts.
pub open spec fn widths_total(rows: Seq<(u16, usize)>) -> int
    decreases rows.len(),
{
    if rows.len() == 0 {
        0
    } else {
        widths_total(rows.drop_last()) + rows.last().1
    }
}

/// The part of the range from `start` up to `end` that lies on `row`, which starts at
/// `row_start` in the joined line: nothing when they do not overlap.
pub open spec fn row_segment(start: int, end: int, row: (u16, usize), row_start: int) -> Seq<UrlSegment> {
    let row_end = row_start + row.1;
    if start < row_end && end > row_start {
        seq![
            UrlSegment {
                row: row.0,
                start_col: (if start > row_start { start - row_start } else { 0 }) as u16,
                end_col: (if end < row_end { end - row_start } else { row.1 as int }) as u16,
            },
        ]
    } else {
        Seq::empty()
    }
}

/// The segments of the range from `start` up to `end` of a line made of `rows`, in row order.
pub open spec fn segments_of(start: int, end: int, rows: Seq<(u16, usize)>) -> Seq<UrlSegment>
    decreases rows.len(),
{
    if rows.len() == 0 {
        Seq::empty()
    } else {
        segments_of(start, end, rows.drop_last()) + row_segment(start, end, rows.last(), widths_total(rows.drop_last()))
    }
}

/// Maps a display-width range to the segments of the rows it covers. Each row is given with
/// its index and width; the rows are joined one after another into one logical line.
pub fn map_to_segments(display_start: usize, display_width: usize, row_widths: &[(u16, usize)]) -> (r: Vec<UrlSegment>)
    requires
        display_start + display_width <= usize::MAX,
        widths_total(row_widths@) <= usize::MAX,
    ensures
        r@ == segments_of(display_start as int, display_start + display_width, row_widths@),
{
    let display_end = display_start + display_width;
    let mut segments: Vec<UrlSegment> = Vec::new();
    let mut cumulative: usize = 0;
    let mut i: usize = 0;
    while i < row_widths.len()
        invariant
            i <= row_widths.len(),
            display_end == display_start + display_width,
            widths_total(row_widths@) <= usize::MAX,
            cumulative == widths_total(row_widths@.take(i as int)),
            segments@ == segments_of(display_start as int, display_end as int, row_widths@.take(i as int)),
        decreases row_widths.len() - i,
    {
        let (row_idx, row_width) = row_widths[i];
        proof {
            let t = row_widths@.take(i + 1);
            assert(t.drop_last() =~= row_widths@.take(i as int));
            assert(t.last() == row_widths@[i as int]);
            lemma_widths_total_prefix(row_widths@, i + 1);
        }
        let row_start = cumulative;
        let row_end = cumulative + row_width;
        if display_start < row_end && display_end > row_start {
            let seg_start = display_start.saturating_sub(row_start) as u16;
            let seg_end = if display_end < row_end {
                (display_end - row_start) as u16
            } else {
                row_width as u16
            };
            segments.push(UrlSegment { row: row_idx, start_col: seg_start, end_col: seg_end });
        }
        cumulative = row_end;
        i = i + 1;
    }
    proof {
        assert(row_widths@.take(row_widths@.len() as int) =~= row_widths@);
    }
    segments
}

/// The widths of the first rows add up to no more than those of all the rows.
proof fn lemma_widths_total_prefix(rows: Seq<(u16, usize)>, n: int)
    requires
        0 <= n <= rows.len(),
    ensures
        widths_total(rows.take(n)) <= widths_total(rows),
    decreases rows.len() - n,
{
    if n < rows.len() {
        lemma_widths_total_prefix(rows, n + 1);
        assert(rows.take(n + 1).drop_last() =~= rows.take(n));
    } else {
        assert(rows.take(n) =~= rows);
    }
}

/// The link prefix `https://`.
pub open spec fn https_prefix() -> Seq<char> {
    seq!['h', 't', 't', 'p', 's', ':', '/', '/']
}

/// The link prefix `http://`.
pub open spec fn http_prefix() -> Seq<char> {
    seq!['h', 't', 't', 'p', ':', '/', '/']
}

/// Whether `c` ends a URL: white space, a quote, an angle bracket, a closing bracket or a bar.
pub open spec fn is_url_delim(c: char) -> bool {
    spec_is_whitespace(c) || c == '\'' || c == '"' || c == '>' || c == '<' || c == ')' || c == ']' || c == '|'
}

/// The first position from `k` on that holds a character ending a URL, or the end of the line.
pub open spec fn delim_from(line: Seq<char>, k: nat) -> nat
    decreases line.len() - k,
{
    if k >= line.len() {
        line.len()
    } else if is_url_delim(line[k as int]) {
        k
    } else {
        delim_from(line, k + 1)
    }
}

/// The end of a URL found from `k` on lies from `k` on, inside the line.
pub proof fn lemma_delim_from_bounds(line: Seq<char>, k: nat)
    requires
        k <= line.len(),
    ensures
        k <= delim_from(line, k) <= line.len(),
    decreases line.len() - k,
{
    if k < line.len() && !is_url_delim(line[k as int]) {
        lemma_delim_from_bounds(line, k + 1);
    }
}

/// The links of `line` that start with `p`, searched from `start` on, as the position where
/// each starts and the position where it ends. The search goes on after the end of each.
pub open spec fn url_hits(line: Seq<char>, p: Seq<char>, start: nat) -> Seq<(nat, nat)>
    decreases line.len() - start,
{
    if p.len() == 0 || start > line.len() {
        Seq::empty()
    } else {
        match find_from(line, p, start) {
            None => Seq::empty(),
            Some(a) => {
                proof {
                    lemma_find_from_bounds(line, p, start);
                    lemma_delim_from_bounds(line, (a + p.len()) as nat);
                }
                let e = delim_from(line, (a + p.len()) as nat);
                seq![(a, e)] + url_hits(line, p, e)
            },
        }
    }
}

/// The span recorded for the link of `line` from `a` up to `e` with prefix `p`: none when the
/// link is the bare prefix, lies on no row, or ends past the largest width.
pub open spec fn span_for(line: Seq<char>, p: Seq<char>, rows: Seq<(u16, usize)>, a: int, e: int) -> Seq<UrlSpanView> {
    let start = str_width(line.take(a)) as int;
    let end = start + str_width(line.subrange(a, e));
    let segments = segments_of(start, end, rows);
    if e - a <= p.len() || end > usize::MAX || segments.len() == 0 {
        Seq::empty()
    } else {
        seq![UrlSpanView { url: line.subrange(a, e), segments }]
    }
}

/// The spans recorded for the links `hits` of `line`, in order.
pub open spec fn spans_for(line: Seq<char>, p: Seq<char>, rows: Seq<(u16, usize)>, hits: Seq<(nat, nat)>) -> Seq<UrlSpanView>
    decreases hits.len(),
{
    if hits.len() == 0 {
        Seq::empty()
    } else {
        spans_for(line, p, rows, hits.drop_last()) + span_for(line, p, rows, hits.last().0 as int, hits.last().1 as int)
    }
}

/// The spans recorded for the links of `line` with prefix `p`.
pub open spec fn line_spans(line: Seq<char>, p: Seq<char>, rows: Seq<(u16, usize)>) -> Seq<UrlSpanView> {
    spans_for(line, p, rows, url_hits(line, p, 0))
}

/// The first position from `k` on that ends a URL, or the length of `chars`.
fn delim_from_exec(chars: &Vec<char>, k: usize) -> (r: usize)
    requires
        k <= chars.len(),
    ensures
        r == delim_from(chars@, k as nat),
{
    let mut i: usize = k;
    while i < chars.len()
        invariant
            k <= i <= chars.len(),
            delim_from(chars@, k as nat) == delim_from(chars@, i as nat),
        decreases chars.len() - i,
    {
        let c = chars[i];
        if is_whitespace(c) || c == '\'' || c == '"' || c == '>' || c == '<' || c == ')' || c == ']' || c == '|' {
            return i;
        }
        i = i + 1;
    }
    i
}

/// Records the links of `line` that start with `prefix`, one span each.
fn find_prefixed_urls(chars: &Vec<char>, prefix: &Vec<char>, row_widths: &[(u16, usize)], urls: &mut Vec<UrlSpan>)
    requires
        prefix.len() > 0,
        widths_total(row_widths@) <= usize::MAX,
    ensures
        spans_view(final(urls)@) == spans_view(old(urls)@) + line_spans(chars@, prefix@, row_widths@),
{
    let ghost line = chars@;
    let ghost p = prefix@;
    let ghost rows = row_widths@;
    let ghost mut done: Seq<(nat, nat)> = Seq::empty();
    let mut search_start: usize = 0;
    proof {
        assert(url_hits(line, p, 0) =~= done + url_hits(line, p, 0));
        assert(spans_view(urls@) =~= spans_view(old(urls)@) + spans_for(line, p, rows, done));
    }
    while search_start <= chars.len()
        invariant
            line == chars@,
            p == prefix@,
            rows == row_widths@,
            p.len() > 0,
            widths_total(rows) <= usize::MAX,
            search_start <= chars.len(),
            url_hits(line, p, 0) == done + url_hits(line, p, search_start as nat),
            spans_view(urls@) == spans_view(old(urls)@) + spans_for(line, p, rows, done),
        ensures
            url_hits(line, p, 0) == done,
            spans_view(urls@) == spans_view(old(urls)@) + spans_for(line, p, rows, done),
        decreases chars.len() + 1 - search_start,
    {
        let found = find_from_exec(chars, prefix, search_start);
        match found {
            None => {
                proof {
                    assert(url_hits(line, p, search_start as nat) =~= Seq::<(nat, nat)>::empty());
                    assert(url_hits(line, p, 0) =~= done);
                }
                break;
            },
            Some(abs_start) => {
                proof {
                    lemma_find_from_bounds(line, p, search_start as nat);
                    lemma_delim_from_bounds(line, (abs_start + p.len()) as nat);
                }
                // The prefix holds no character that ends a URL.
                let url_end = delim_from_exec(chars, abs_start + prefix.len());
                let ghost hit = (abs_start as nat, url_end as nat);
                proof {
                    assert(url_hits(line, p, search_start as nat) == seq![hit] + url_hits(line, p, url_end as nat));
                    assert(done + (seq![hit] + url_hits(line, p, url_end as nat)) =~= done.push(hit) + url_hits(
                        line,
                        p,
                        url_end as nat,
                    ));
                    assert(done.push(hit).drop_last() =~= done);
                }
                let ghost before = urls@;
                if url_end - abs_start > prefix.len() {
                    let display_start = display_width(substring(chars, 0, abs_start).as_str());
                    let url_display_width = display_width(substring(chars, abs_start, url_end).as_str());
                    proof {
                        assert(line.subrange(0, abs_start as int) =~= line.take(abs_start as int));
                    }
                    if display_start <= usize::MAX - url_display_width {
                        let segments = map_to_segments(display_start, url_display_width, row_widths);
                        if segments.len() > 0 {
                            let url = substring(chars, abs_start, url_end);
                            urls.push(UrlSpan { url, segments });
                            proof {
                                assert(spans_view(urls@) =~= spans_view(before).push(urls@.last()@));
                            }
                        }
                    }
                }
                proof {
                    assert(spans_view(urls@) =~= spans_view(old(urls)@) + spans_for(line, p, rows, done.push(hit)));
                    done = done.push(hit);
                }
                search_start = url_end;
            },
        }
    }
}

/// Finds the `https://` links of a logical line and then its `http://` links, and records
/// each with the segments of the rows it covers. The line is made of the rows of
/// `row_widths`, given with their indices and widths. A link that is only its prefix is
/// skipped, and so is one that lies on none of the rows.
pub fn find_urls_in_line(line: &str, row_widths: &[(u16, usize)], urls: &mut Vec<UrlSpan>)
    requires
        widths_total(row_widths@) <= usize::MAX,
    ensures
        spans_view(final(urls)@) == spans_view(old(urls)@) + line_spans(line@, https_prefix(), row_widths@)
            + line_spans(line@, http_prefix(), row_widths@),
{
    let chars = chars_of(line);
    let https: Vec<char> = vec!['h', 't', 't', 'p', 's', ':', '/', '/'];
    let http: Vec<char> = vec!['h', 't', 't', 'p', ':', '/', '/'];
    proof {
        assert(https@ =~= https_prefix());
        assert(http@ =~= http_prefix());
    }
    find_prefixed_urls(&chars, &https, row_widths, urls);
    find_prefixed_urls(&chars, &http, row_widths, urls);
}

/// The spans of the `https://` links of a line, then those of its `http://` links.
pub open spec fn line_urls(line: Seq<char>, rows: Seq<(u16, usize)>) -> Seq<UrlSpanView> {
    if widths_total(rows) <= usize::MAX {
        line_spans(line, https_prefix(), rows) + line_spans(line, http_prefix(), rows)
    } else {
        Seq::empty()
    }
}

/// The scan of the first rows of a screen: the spans found in the lines they complete, and the
/// line still open, with the index and width of each of its rows.
pub open spec fn scan_rows(rows: Seq<(Seq<char>, bool)>) -> (Seq<UrlSpanView>, Seq<char>, Seq<(u16, usize)>)
    decreases rows.len(),
{
    if rows.len() == 0 {
        (Seq::empty(), Seq::empty(), Seq::empty())
    } else {
        let (urls, line, widths) = scan_rows(rows.drop_last());
        let row = rows.last();
        let line2 = line + row.0;
        let widths2 = widths.push((((rows.len() - 1) as int) as u16, str_width(row.0)));
        if row.1 {
            (urls, line2, widths2)
        } else {
            (urls + line_urls(line2, widths2), Seq::empty(), Seq::empty())
        }
    }
}

/// The links on a screen: the rows are joined into logical lines where they wrap, and the
/// links of each line are found in turn, the last line too when it is left open.
pub open spec fn screen_urls(rows: Seq<(Seq<char>, bool)>) -> Seq<UrlSpanView> {
    let (urls, line, widths) = scan_rows(rows);
    if line.len() > 0 {
        urls + line_urls(line, widths)
    } else {
        urls
    }
}

/// Adds `w` to the total `total` of the widths, or gives `None` past the largest width.
fn add_width(total: Option<usize>, w: usize) -> (r: Option<usize>)
    ensures
        r matches Some(t) ==> total matches Some(u) && t == u + w,
        r is None ==> total is None || total->0 + w > usize::MAX,
{
    match total {
        Some(u) => u.checked_add(w),
        None => None,
    }
}

/// Records the links of a logical line, unless its rows are wider than the largest width.
fn find_line_urls(line: &Vec<char>, row_widths: &Vec<(u16, usize)>, total: Option<usize>, urls: &mut Vec<UrlSpan>)
    requires
        total matches Some(t) ==> t == widths_total(row_widths@),
        total is None ==> widths_total(row_widths@) > usize::MAX,
    ensures
        spans_view(final(urls)@) == spans_view(old(urls)@) + line_urls(line@, row_widths@),
{
    if total.is_some() {
        let https: Vec<char> = vec!['h', 't', 't', 'p', 's', ':', '/', '/'];
        let http: Vec<char> = vec!['h', 't', 't', 'p', ':', '/', '/'];
        proof {
            assert(https@ =~= https_prefix());
            assert(http@ =~= http_prefix());
        }
        find_prefixed_urls(line, &https, row_widths.as_slice(), urls);
        find_prefixed_urls(line, &http, row_widths.as_slice(), urls);
    } else {
        proof {
            assert(spans_view(urls@) =~= spans_view(urls@) + Seq::<UrlSpanView>::empty());
        }
    }
}

/// Detects the links on the rows of a screen: rows that wrap are joined into one logical line,
/// the links of each line are found, and each is mapped back to the rows it covers.
pub fn detect_urls(rows: &[ScreenRow]) -> (r: Vec<UrlSpan>)
    ensures
        spans_view(r@) == screen_urls(rows_view(rows@)),
{
    let ghost view = rows_view(rows@);
    let mut urls: Vec<UrlSpan> = Vec::new();
    let mut line_buf: Vec<char> = Vec::new();
    let mut row_widths: Vec<(u16, usize)> = Vec::new();
    let mut total: Option<usize> = Some(0);
    let mut i: usize = 0;
    while i < rows.len()
        invariant
            i <= rows.len(),
            view == rows_view(rows@),
            ({
                let (u, l, w) = scan_rows(view.take(i as int));
                spans_view(urls@) == u && line_buf@ == l && row_widths@ == w
            }),
            total matches Some(t) ==> t == widths_total(row_widths@),
            total is None ==> widths_total(row_widths@) > usize::MAX,
        decreases rows.len() - i,
    {
        proof {
            assert(view.take(i + 1).drop_last() =~= view.take(i as int));
            assert(view.take(i + 1).last() == view[i as int]);
        }
        let text = chars_of(rows[i].text.as_str());
        let current_row_width = display_width(rows[i].text.as_str());
        let ghost widths_before = row_widths@;
        row_widths.push((#[verifier::truncate] (i as u16), current_row_width));
        proof {
            assert(row_widths@.drop_last() =~= widths_before);
        }
        total = add_width(total, current_row_width);
        let mut t = text;
        line_buf.append(&mut t);
        if !rows[i].wrapped {
            find_line_urls(&line_buf, &row_widths, total, &mut urls);
            line_buf = Vec::new();
            row_widths = Vec::new();
            total = Some(0);
        }
        i = i + 1;
    }
    proof {
        assert(view.take(view.len() as int) =~= view);
    }
    // Handle trailing wrapped rows
    if line_buf.len() > 0 {
        find_line_urls(&line_buf, &row_widths, total, &mut urls);
    }
    urls
}

} // verus!
