use firepit::hyperlink::{detect_urls, find_urls_in_line, map_to_segments, UrlSpan};
use firepit::text::ScreenRow;
use unicode_width::UnicodeWidthStr;

#[test]
fn test_map_to_segments_single_row() {
    // URL at cols 5..15 in a single row of width 80
    let row_widths = vec![(0, 80)];
    let segments = map_to_segments(5, 10, &row_widths);
    assert_eq!(segments.len(), 1);
    assert_eq!(segments[0].row, 0);
    assert_eq!(segments[0].start_col, 5);
    assert_eq!(segments[0].end_col, 15);
}

#[test]
fn test_map_to_segments_wrapped() {
    // Two rows of width 40 each. URL starts at col 35 of row 0, 15 chars wide.
    // Row 0: cols 35..40 (5 chars)
    // Row 1: cols 0..10 (10 chars)
    let row_widths = vec![(0, 40), (1, 40)];
    let segments = map_to_segments(35, 15, &row_widths);
    assert_eq!(segments.len(), 2);
    assert_eq!(segments[0].row, 0);
    assert_eq!(segments[0].start_col, 35);
    assert_eq!(segments[0].end_col, 40);
    assert_eq!(segments[1].row, 1);
    assert_eq!(segments[1].start_col, 0);
    assert_eq!(segments[1].end_col, 10);
}

#[test]
fn test_map_to_segments_entirely_in_second_row() {
    let row_widths = vec![(0, 40), (1, 40)];
    let segments = map_to_segments(45, 10, &row_widths);
    assert_eq!(segments.len(), 1);
    assert_eq!(segments[0].row, 1);
    assert_eq!(segments[0].start_col, 5);
    assert_eq!(segments[0].end_col, 15);
}

#[test]
fn test_find_urls_in_line_basic() {
    let line = "Visit https://example.com for more info";
    let row_widths = vec![(0, line.width())];
    let mut urls = Vec::new();
    find_urls_in_line(line, &row_widths, &mut urls);
    assert_eq!(urls.len(), 1);
    assert_eq!(urls[0].url, "https://example.com");
}

#[test]
fn test_find_urls_in_line_multiple() {
    let line = "Go to https://a.com and http://b.com now";
    let row_widths = vec![(0, line.width())];
    let mut urls = Vec::new();
    find_urls_in_line(line, &row_widths, &mut urls);
    assert_eq!(urls.len(), 2);
    assert_eq!(urls[0].url, "https://a.com");
    assert_eq!(urls[1].url, "http://b.com");
}

#[test]
fn test_find_urls_in_line_no_url() {
    let line = "No URLs here";
    let row_widths = vec![(0, line.width())];
    let mut urls = Vec::new();
    find_urls_in_line(line, &row_widths, &mut urls);
    assert!(urls.is_empty());
}

#[test]
fn test_find_urls_skips_bare_prefix() {
    let line = "Invalid https:// alone";
    let row_widths = vec![(0, line.width())];
    let mut urls = Vec::new();
    find_urls_in_line(line, &row_widths, &mut urls);
    assert!(urls.is_empty());
}

#[test]
fn url_stops_at_delimiters() {
    let line = "see <https://x.io/a?b=1> and 'http://y.io'|z";
    let row_widths = vec![(0, line.width())];
    let mut urls: Vec<UrlSpan> = Vec::new();
    find_urls_in_line(line, &row_widths, &mut urls);
    assert_eq!(urls.len(), 2);
    assert_eq!(urls[0].url, "https://x.io/a?b=1");
    assert_eq!(urls[0].segments[0].start_col, 5);
    assert_eq!(urls[0].segments[0].end_col, 23);
    assert_eq!(urls[1].url, "http://y.io");
}

#[test]
fn url_column_counts_wide_characters() {
    // Each of the two wide characters takes two columns
    let line = "日本 https://a.jp";
    let row_widths = vec![(3, line.width())];
    let mut urls = Vec::new();
    find_urls_in_line(line, &row_widths, &mut urls);
    assert_eq!(urls.len(), 1);
    assert_eq!(urls[0].segments[0].row, 3);
    assert_eq!(urls[0].segments[0].start_col, 5);
    assert_eq!(urls[0].segments[0].end_col, 17);
}

#[test]
fn detects_a_url_broken_by_a_wrap() {
    let rows = vec![
        ScreenRow { text: "link: https://exa".to_string(), wrapped: true },
        ScreenRow { text: "mple.com end".to_string(), wrapped: false },
        ScreenRow { text: "plain".to_string(), wrapped: false },
    ];
    let urls = detect_urls(&rows);
    assert_eq!(urls.len(), 1);
    assert_eq!(urls[0].url, "https://example.com");
    assert_eq!(urls[0].segments.len(), 2);
    assert_eq!(urls[0].segments[0].row, 0);
    assert_eq!(urls[0].segments[0].start_col, 6);
    assert_eq!(urls[0].segments[0].end_col, 17);
    assert_eq!(urls[0].segments[1].row, 1);
    assert_eq!(urls[0].segments[1].start_col, 0);
    assert_eq!(urls[0].segments[1].end_col, 8);
}

#[test]
fn detects_urls_in_trailing_wrapped_rows() {
    let rows = vec![ScreenRow { text: "http://t.co".to_string(), wrapped: true }];
    let urls = detect_urls(&rows);
    assert_eq!(urls.len(), 1);
    assert_eq!(urls[0].url, "http://t.co");
}
