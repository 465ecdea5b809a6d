use firepit::search::{find_matches, first_visible_row, initial_index, Match, SearchResults};
use firepit::text::ScreenRow;

fn row(text: &str, wrapped: bool) -> ScreenRow {
    ScreenRow { text: text.to_string(), wrapped }
}

#[test]
fn finds_every_match_in_order() {
    let rows = vec![row("foo bar foo", false), row("nothing", false), row("xfoo", false)];
    let m = find_matches(&rows, "foo");
    assert_eq!(m, vec![Match(0, 0), Match(0, 8), Match(2, 1)]);
}

#[test]
fn matches_do_not_overlap() {
    let rows = vec![row("aaaa", false)];
    assert_eq!(find_matches(&rows, "aa"), vec![Match(0, 0), Match(0, 2)]);
}

#[test]
fn finds_a_match_broken_by_a_wrap() {
    let rows = vec![row("abcfo", true), row("obar", false)];
    // The match starts on the first row at column 3
    assert_eq!(find_matches(&rows, "foo"), vec![Match(0, 3)]);
    // A match on the second row of the line
    assert_eq!(find_matches(&rows, "bar"), vec![Match(1, 1)]);
}

#[test]
fn an_open_line_at_the_end_is_not_searched() {
    let rows = vec![row("foo", true)];
    assert!(find_matches(&rows, "foo").is_empty());
}

#[test]
fn columns_count_wide_characters() {
    let rows = vec![row("日本foo", false)];
    assert_eq!(find_matches(&rows, "foo"), vec![Match(0, 4)]);
}

fn results(n: usize, index: usize, backward: bool) -> SearchResults {
    let matches = (0..n).map(|i| Match(i, 0)).collect();
    SearchResults::new("p#a", "q".to_string(), matches, index, backward)
}

#[test]
fn next_and_previous_wrap_around() {
    let mut r = results(3, 2, false);
    assert_eq!(r.current(), Some(Match(2, 0)));
    assert_eq!(r.next(), Some(Match(0, 0)));
    assert_eq!(r.previous(), Some(Match(2, 0)));
    assert_eq!(r.previous(), Some(Match(1, 0)));
}

#[test]
fn backward_search_walks_up() {
    let mut r = results(3, 0, true);
    assert_eq!(r.next(), Some(Match(2, 0)));
    assert_eq!(r.previous(), Some(Match(0, 0)));
}

#[test]
fn no_match_no_move() {
    let mut r = results(0, 0, false);
    assert_eq!(r.current(), None);
    assert_eq!(r.next(), None);
    assert_eq!(r.previous(), None);
}

#[test]
fn reset_clears_the_search() {
    let mut r = results(2, 1, false);
    r.reset();
    assert!(r.query.is_empty());
    assert!(r.matches.is_empty());
}

#[test]
fn first_match_is_past_the_view() {
    let m = vec![Match(1, 0), Match(5, 0), Match(9, 0)];
    assert_eq!(initial_index(&m, 4, false), 1);
    assert_eq!(initial_index(&m, 4, true), 0);
    assert_eq!(initial_index(&m, 10, false), 2);
    assert_eq!(initial_index(&m, 0, true), 2);
    assert_eq!(initial_index(&[], 0, false), 0);
    assert_eq!(first_visible_row(100, 30), 70);
}
