use kiwix_chat::kiwix::grep::{grep_lines, grep_prepared};

const SAMPLE: &str = "\
line one
line two has a Cat
line three
line four
line five
line six mentions a cat again
line seven";

#[test]
fn matches_with_context() {
    let r = grep_lines(SAMPLE, "cat", 1);
    assert_eq!(r.total_lines, 7);
    assert_eq!(r.match_count, 2);
    assert_eq!(r.blocks.len(), 2);
    assert_eq!(r.blocks[0].start_line, 1);
    assert_eq!(
        r.blocks[0].lines,
        vec!["line one", "line two has a Cat", "line three"]
    );
    assert_eq!(r.blocks[1].start_line, 5);
    assert_eq!(
        r.blocks[1].lines,
        vec!["line five", "line six mentions a cat again", "line seven"]
    );
}

#[test]
fn case_insensitive() {
    let r = grep_lines(SAMPLE, "CAT", 0);
    assert_eq!(r.match_count, 2);
    assert_eq!(r.blocks[0].lines, vec!["line two has a Cat"]);
}

#[test]
fn merges_adjacent_windows() {
    let text = "a\nMATCH one\nb\nc\nMATCH two\nd";
    let r = grep_lines(text, "MATCH", 2);
    assert_eq!(r.match_count, 2);
    // Windows [0..=3] and [2..=5] overlap -> single merged block of all 6 lines.
    assert_eq!(r.blocks.len(), 1);
    assert_eq!(r.blocks[0].start_line, 1);
    assert_eq!(r.blocks[0].lines.len(), 6);
}

#[test]
fn clamps_at_edges() {
    let r = grep_lines(SAMPLE, "line one", 5);
    assert_eq!(r.blocks.len(), 1);
    assert_eq!(r.blocks[0].start_line, 1);
    // Context runs off the start (clamped) and 5 lines forward.
    assert_eq!(r.blocks[0].lines.len(), 6);
}

#[test]
fn no_matches() {
    let r = grep_lines(SAMPLE, "elephant", 3);
    assert_eq!(r.match_count, 0);
    assert!(r.blocks.is_empty());
}

#[test]
fn empty_query_matches_nothing() {
    let r = grep_lines(SAMPLE, "", 3);
    assert_eq!(r.match_count, 0);
    assert!(r.blocks.is_empty());
}

#[test]
fn directly_adjacent_windows_merge() {
    // Windows [0..=1] and [2..=3] touch without overlapping: one block.
    let r = grep_lines("x\nmatch\nmatch\ny\nz", "match", 0);
    assert_eq!(r.match_count, 2);
    assert_eq!(r.blocks.len(), 1);
    assert_eq!(r.blocks[0].start_line, 2);
    assert_eq!(r.blocks[0].lines, vec!["match", "match"]);
}

#[test]
fn blocks_separated_by_an_unreported_line() {
    let r = grep_lines("m\na\nb\nm", "m", 0);
    assert_eq!(r.blocks.len(), 2);
    assert_eq!(r.blocks[0].start_line, 1);
    assert_eq!(r.blocks[1].start_line, 4);
}

#[test]
fn crlf_line_endings_are_stripped() {
    let r = grep_lines("alpha\r\nbeta\r\n", "BETA", 0);
    assert_eq!(r.total_lines, 2);
    assert_eq!(r.blocks[0].lines, vec!["beta"]);
}

#[test]
fn huge_context_does_not_overflow() {
    let r = grep_lines(SAMPLE, "four", usize::MAX);
    assert_eq!(r.blocks.len(), 1);
    assert_eq!(r.blocks[0].start_line, 1);
    assert_eq!(r.blocks[0].lines.len(), 7);
}

#[test]
fn grep_prepared_matches_lowered_lines() {
    let chars = |s: &str| s.chars().collect::<Vec<char>>();
    let lines = vec![chars("Alpha"), chars("Beta"), chars("GAMMA")];
    let lowered = vec![chars("alpha"), chars("beta"), chars("gamma")];
    let r = grep_prepared(lines, lowered, chars("mm"), 0);
    assert_eq!(r.total_lines, 3);
    assert_eq!(r.match_count, 1);
    assert_eq!(r.blocks.len(), 1);
    assert_eq!(r.blocks[0].start_line, 3);
    assert_eq!(r.blocks[0].lines, vec!["GAMMA".to_string()]);
    let none = grep_prepared(vec![chars("a")], vec![chars("a")], vec![], 0);
    assert_eq!(none.match_count, 0);
}
