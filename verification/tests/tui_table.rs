use kiwix_chat::tui::table::{is_delimiter_row, is_table_start, parse_align, split_table_row, Align};

#[test]
fn detects_table_header_and_delimiter() {
    let lines = vec!["| A | B |", "| --- | :--: |", "| 1 | 2 |"];
    assert!(is_table_start(&lines, 0));
    // A pipe line with no delimiter row below is not a table.
    let prose = vec!["value | other", "more prose here"];
    assert!(!is_table_start(&prose, 0));
    // A `---` thematic break after a pipe line must not trigger a table.
    let thematic = vec!["a | b", "---"];
    assert!(!is_table_start(&thematic, 0));
}

#[test]
fn parses_cells_and_alignment() {
    assert_eq!(split_table_row("| A | B | C |"), vec!["A", "B", "C"]);
    assert_eq!(split_table_row("A | B"), vec!["A", "B"]);
    assert_eq!(parse_align(":---"), Align::Left);
    assert_eq!(parse_align(":--:"), Align::Center);
    assert_eq!(parse_align("---:"), Align::Right);
    assert!(is_delimiter_row("| --- | :---: |"));
    assert!(!is_delimiter_row("| not | a delim |"));
}

#[test]
fn last_line_cannot_start_a_table() {
    let lines = vec!["| A | B |"];
    assert!(!is_table_start(&lines, 0));
}

#[test]
fn empty_cells_are_kept_between_bars() {
    assert_eq!(split_table_row("|a||b|"), vec!["a", "", "b"]);
    assert_eq!(split_table_row(""), vec![""]);
    assert!(!is_delimiter_row("| --- | |"));
}
