use ls_rs::entry::DisplayEntry;
use ls_rs::grid::{effective_width, render_grid};
use ls_rs::style::StyleTag;

fn plain(name: &str) -> DisplayEntry {
    DisplayEntry {
        raw_name: name.to_string(),
        rendered_name: name.to_string(),
        is_hidden: name.starts_with('.'),
        style_tag: StyleTag::Regular,
    }
}

fn plain_entries(names: &[&str]) -> Vec<DisplayEntry> {
    names.iter().map(|n| plain(n)).collect()
}

#[test]
fn column_major_adjacency() {
    // max name length 2, column width 4, width 8 -> 2 columns, 3 rows
    let entries = plain_entries(&["a", "bb", "c", "dd", "e"]);
    let lines = render_grid(&entries, 8);
    assert_eq!(lines, vec!["a   dd", "bb  e", "c"]);
}

#[test]
fn degenerate_single_column() {
    // width 3 is narrower than the column width: one name per line
    let entries = plain_entries(&["a", "bb", "c", "dd", "e"]);
    let lines = render_grid(&entries, 3);
    assert_eq!(lines, vec!["a", "bb", "c", "dd", "e"]);
}

#[test]
fn few_entries_fit_one_per_line() {
    // both entries fit in one row: still one name per line
    let entries = plain_entries(&["one", "two"]);
    let lines = render_grid(&entries, 200);
    assert_eq!(lines, vec!["one", "two"]);
}

#[test]
fn empty_listing_has_no_lines() {
    let entries: Vec<DisplayEntry> = Vec::new();
    let lines = render_grid(&entries, 80);
    assert_eq!(lines.len(), 0);
}

#[test]
fn longest_name_gets_exactly_two_spaces() {
    // "aa" has the maximum length; padded cells end two spaces before
    // the next column
    let entries = plain_entries(&["aa", "bb", "cc", "dd", "e"]);
    let lines = render_grid(&entries, 8);
    assert_eq!(lines, vec!["aa  dd", "bb  e", "cc"]);
}

#[test]
fn no_padding_after_last_populated_cell() {
    let entries = plain_entries(&["a", "bb", "c", "dd", "e"]);
    for line in render_grid(&entries, 8) {
        assert!(!line.ends_with(' '));
    }
}

#[test]
fn lines_fit_the_terminal_width() {
    let entries = plain_entries(&["alpha", "bet", "gamma", "d", "epsilon", "ze", "eta"]);
    for width in 9..40usize {
        for line in render_grid(&entries, width) {
            assert!(line.chars().count() <= width);
        }
    }
}

#[test]
fn styled_names_align_by_raw_length() {
    // width math uses the raw names, so escape sequences do not shift
    // the columns
    let mut entries = plain_entries(&["a", "bb", "c", "dd", "e"]);
    entries[0].rendered_name = "\u{1b}[34ma\u{1b}[0m".to_string();
    entries[0].style_tag = StyleTag::Directory;
    let lines = render_grid(&entries, 8);
    assert_eq!(lines[0], "\u{1b}[34ma\u{1b}[0m   dd");
    assert_eq!(lines[1], "bb  e");
}

#[test]
fn even_grid_fills_both_columns() {
    // max name length 1, column width 3, width 8 -> 2 columns, 2 rows
    let entries = plain_entries(&["a", "b", "c", "d"]);
    let lines = render_grid(&entries, 8);
    assert_eq!(lines, vec!["a  c", "b  d"]);
}

#[test]
fn width_equal_to_column_width_gives_one_column() {
    let entries = plain_entries(&["a", "bb", "c", "dd", "e"]);
    let lines = render_grid(&entries, 4);
    // 4 / 4 = 1 column: one name per line
    assert_eq!(lines, vec!["a", "bb", "c", "dd", "e"]);
}

#[test]
fn multibyte_names_measure_by_characters() {
    let entries = plain_entries(&["\u{e9}", "bb", "c", "dd", "e"]);
    let lines = render_grid(&entries, 8);
    assert_eq!(lines, vec!["\u{e9}   dd", "bb  e", "c"]);
    for line in render_grid(&entries, 8) {
        assert!(line.chars().count() <= 8);
    }
}

#[test]
fn effective_width_uses_query_or_default() {
    assert_eq!(effective_width(Some(120)), 120);
    assert_eq!(effective_width(Some(1)), 1);
    assert_eq!(effective_width(None), 80);
}
