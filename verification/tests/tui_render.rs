use kiwix_chat::tui::app::{DisplayKind, DisplayMessage};
use kiwix_chat::tui::columns::{column_widths, fit_cols};
use kiwix_chat::tui::input::{chat_scroll, input_cursor, input_height, input_inner_width, input_rows, wrap_input};
use kiwix_chat::tui::markdown::{classify_block, find_double_star, find_single_star, parse_inline, parse_link};
use kiwix_chat::tui::render::{emit_lines, render_body, render_message, render_subagent, render_thinking, style_for};
use kiwix_chat::tui::style::{code_inline, link_label, link_url, thinking, Seg, Style};
use kiwix_chat::tui::table::{render_table, table_rule};
use kiwix_chat::tui::wrap::wrap_segments;

/// Concatenate the text of a parsed inline segment list.
fn text_of(segs: &[Seg]) -> String {
    segs.iter().map(|(t, _)| t.as_str()).collect()
}

/// Visible column count of a rendered segment line.
fn line_width(segs: &[Seg]) -> usize {
    segs.iter().map(|(t, _)| t.chars().count()).sum()
}

fn chars(s: &str) -> Vec<char> {
    s.chars().collect()
}

#[test]
fn renders_link_as_label_and_visible_url() {
    let base = Style::plain();
    let segs = parse_inline("See [Ada Lovelace](http://localhost:8080/content/w/A/Ada)", base);
    assert_eq!(text_of(&segs), "See Ada Lovelace (http://localhost:8080/content/w/A/Ada)");
    // The label carries the underlined link style.
    assert!(segs.iter().any(|(t, s)| t == "Ada Lovelace" && *s == link_label()));
    // The URL is present as its own styled segment.
    assert!(segs.iter().any(|(t, s)| t.contains("localhost") && *s == link_url()));
}

#[test]
fn leaves_non_link_brackets_as_text() {
    let base = Style::plain();
    let segs = parse_inline("an array a[i] and (parens)", base);
    assert_eq!(text_of(&segs), "an array a[i] and (parens)");
}

#[test]
fn parses_bold_italic_and_code() {
    let base = Style::plain();
    let segs = parse_inline("a **b** *c* `d`", base);
    assert_eq!(
        segs,
        vec![
            ("a ".to_string(), base),
            ("b".to_string(), base.bold()),
            (" ".to_string(), base),
            ("c".to_string(), base.italic()),
            (" ".to_string(), base),
            ("d".to_string(), code_inline()),
        ]
    );
}

#[test]
fn unmatched_markup_stays_text() {
    let base = Style::plain();
    assert_eq!(parse_inline("2 * 3 and **open", base), vec![("2 * 3 and **open".to_string(), base)]);
    assert_eq!(parse_inline("", base), vec![(String::new(), base)]);
    // An empty code span renders to nothing.
    assert_eq!(parse_inline("x``y", base), vec![("x".to_string(), base), ("y".to_string(), base)]);
}

#[test]
fn link_helpers() {
    let ch = chars("[a](b) rest");
    assert_eq!(parse_link(&ch, 0), Some(("a".to_string(), "b".to_string(), 6)));
    assert_eq!(parse_link(&chars("[a]( )"), 0), None);
    assert_eq!(parse_link(&chars("[a] (b)"), 0), None);
    assert_eq!(find_double_star(&chars("x**y**"), 3), Some(4));
    assert_eq!(find_double_star(&chars("x*y"), 0), None);
    assert_eq!(find_single_star(&chars("*a *b* c"), 1), Some(5));
    assert_eq!(find_single_star(&chars("*a **"), 1), Some(4));
    assert_eq!(find_single_star(&chars("*a b"), 1), None);
}

#[test]
fn classifies_blocks() {
    let base = Style::plain();
    let h = classify_block("## Title", base);
    assert_eq!((h.text.as_str(), h.style, h.marker.as_str(), h.hang), ("Title", base.bold(), "", 0));
    let q = classify_block("> quoted", base);
    assert_eq!((q.text.as_str(), q.marker.as_str(), q.hang), ("quoted", "│ ", 2));
    let b = classify_block("  - item", base);
    assert_eq!((b.text.as_str(), b.marker.as_str(), b.hang), ("item", "• ", 2));
    let n = classify_block("12. twelfth", base);
    assert_eq!((n.text.as_str(), n.marker.as_str(), n.hang), ("twelfth", "12. ", 4));
    let p = classify_block("  #hashtag", base);
    assert_eq!((p.text.as_str(), p.marker.as_str(), p.hang), ("  #hashtag", "", 0));
    let seven = classify_block("####### x", base);
    assert_eq!(seven.text, "####### x");
}

#[test]
fn wraps_words_and_splits_long_ones() {
    let base = Style::plain();
    let segs = vec![("hello world foo".to_string(), base)];
    let lines = wrap_segments(&segs, 11);
    let texts: Vec<String> = lines.iter().map(|l| text_of(l)).collect();
    assert_eq!(texts, vec!["hello world", "foo"]);
    let long = vec![("abcdefgh".to_string(), base)];
    let texts: Vec<String> = wrap_segments(&long, 3).iter().map(|l| text_of(l)).collect();
    assert_eq!(texts, vec!["abc", "def", "gh"]);
    // Nothing to wrap still gives one (empty) line.
    assert_eq!(wrap_segments(&[], 5), vec![Vec::<Seg>::new()]);
    for l in wrap_segments(&[("a bb ccc dddd eeeee".to_string(), base)], 4) {
        assert!(line_width(&l) <= 4);
    }
}

#[test]
fn wrapping_keeps_styles_apart() {
    let base = Style::plain();
    let segs = vec![("ab".to_string(), base), ("cd".to_string(), base.bold())];
    assert_eq!(
        wrap_segments(&segs, 10),
        vec![vec![("ab".to_string(), base), ("cd".to_string(), base.bold())]]
    );
}

#[test]
fn fits_and_sizes_columns() {
    let cells = vec!["a".to_string(), "b".to_string(), "c".to_string()];
    assert_eq!(fit_cols(&cells, 2), vec!["a", "b"]);
    assert_eq!(fit_cols(&cells, 4), vec!["a", "b", "c", ""]);
    let grid = vec![vec!["abc".to_string(), "de".to_string()], vec!["x".to_string(), "".to_string()]];
    // Natural widths fit.
    assert_eq!(column_widths(&grid, 2, 100), vec![3, 2]);
    // Too narrow to shrink: one column each.
    assert_eq!(column_widths(&grid, 2, 8), vec![1, 1]);
    // Shrunk in proportion: budget 12 - 7 = 5, natural 3 + 2.
    assert_eq!(column_widths(&grid, 2, 12), vec![3, 2]);
    let wide = vec![vec!["aaaaaaaaaa".to_string(), "bbbbbbbbbb".to_string()]];
    let w = column_widths(&wide, 2, 17);
    assert_eq!(w.iter().sum::<usize>(), 10);
    assert_eq!(w, vec![5, 5]);
}

#[test]
fn draws_rules() {
    let rule = table_rule(&vec![1, 2], "┌", "┬", "┐");
    assert_eq!(rule.len(), 1);
    assert_eq!(rule[0].0, "┌───┬────┐");
}

#[test]
fn table_fits_within_available_width() {
    let rows = vec![
        "| Name | Description |",
        "| --- | --- |",
        "| alpha | a rather long description that will not fit a narrow pane |",
        "| beta | short |",
    ];
    let avail = 30;
    let out = render_table(&rows, avail);
    assert!(!out.is_empty());
    for segs in &out {
        assert!(line_width(segs) <= avail, "line exceeds width: {}", line_width(segs));
    }
    // Border rows top and bottom.
    assert!(out[0].iter().any(|(t, _)| t.starts_with('┌')));
    assert!(out.last().unwrap().iter().any(|(t, _)| t.starts_with('└')));
}

#[test]
fn table_renders_without_panicking_when_very_narrow() {
    let rows = vec!["| A | B | C |", "| --- | --- | --- |", "| 1 | 2 | 3 |"];
    // Narrower than the per-column overhead — must still produce output.
    let out = render_table(&rows, 4);
    assert!(!out.is_empty());
}

#[test]
fn renders_a_small_table_exactly() {
    let rows = vec!["| A | B |", "| :-- | --: |", "| x | yy |"];
    let out = render_table(&rows, 40);
    let texts: Vec<String> = out.iter().map(|l| text_of(l)).collect();
    assert_eq!(
        texts,
        vec!["┌───┬────┐", "│ A │  B │", "├───┼────┤", "│ x │ yy │", "└───┴────┘"]
    );
}

#[test]
fn labels_messages_with_hanging_indent() {
    let msg = DisplayMessage {
        kind: DisplayKind::User,
        text: "hello there world".to_string(),
        collapsed: false,
        title: None,
    };
    let mut lines = Vec::new();
    render_message(&mut lines, &msg, 12, false);
    let texts: Vec<String> = lines.iter().map(|l| text_of(l)).collect();
    assert_eq!(texts, vec!["You: hello", "     there", "     world"]);
    let (label, style) = style_for(DisplayKind::User);
    assert_eq!(lines[0][0], ("You: ".to_string(), style));
    assert_eq!(label, "You");
    let empty = DisplayMessage { kind: DisplayKind::Info, text: String::new(), collapsed: false, title: None };
    let mut lines = Vec::new();
    render_message(&mut lines, &empty, 20, false);
    let texts: Vec<String> = lines.iter().map(|l| text_of(l)).collect();
    assert_eq!(texts, vec!["i: "]);
}

#[test]
fn markdown_bodies_drop_fences_and_mark_lists() {
    let mut lines = Vec::new();
    let mut first = true;
    render_body(&mut lines, "```\ncode line\n```\n- item", 20, true, "AI: ", Style::plain(), "    ", Style::plain(), &mut first);
    let texts: Vec<String> = lines.iter().map(|l| text_of(l)).collect();
    assert_eq!(texts, vec!["AI: code line", "    • item"]);
    assert!(!first);
}

#[test]
fn collapsed_blocks_show_one_header() {
    let msg = DisplayMessage {
        kind: DisplayKind::Thinking,
        text: "one\ntwo".to_string(),
        collapsed: true,
        title: None,
    };
    let mut lines = Vec::new();
    render_thinking(&mut lines, &msg, false, 40);
    assert_eq!(lines, vec![vec![("▸ thinking (2 lines) — Tab to expand".to_string(), thinking())]]);
    let mut lines = Vec::new();
    render_thinking(&mut lines, &msg, true, 40);
    let texts: Vec<String> = lines.iter().map(|l| text_of(l)).collect();
    assert_eq!(texts, vec!["▾ thinking", "  one", "  two"]);
    let research = DisplayMessage {
        kind: DisplayKind::Subagent,
        text: "answer".to_string(),
        collapsed: false,
        title: Some("why?".to_string()),
    };
    let mut lines = Vec::new();
    render_subagent(&mut lines, &research, false, 40);
    let texts: Vec<String> = lines.iter().map(|l| text_of(l)).collect();
    assert_eq!(texts, vec!["▾ research: \"why?\"", "  answer"]);
}

#[test]
fn emits_prefix_once() {
    let mut lines = Vec::new();
    let mut first = true;
    let block = vec![vec![("a".to_string(), Style::plain())], vec![("b".to_string(), Style::plain())]];
    emit_lines(&mut lines, block, "P: ", Style::plain(), "   ", &mut first);
    let texts: Vec<String> = lines.iter().map(|l| text_of(l)).collect();
    assert_eq!(texts, vec!["P: a", "   b"]);
    assert!(!first);
}

#[test]
fn input_box_geometry() {
    assert_eq!(input_inner_width(0), 1);
    assert_eq!(input_inner_width(10), 8);
    assert_eq!(input_rows("abc", 10), 1);
    // "> " plus 8 characters fills a 10-column row: the cursor opens another.
    assert_eq!(input_rows("abcdefgh", 10), 2);
    assert_eq!(wrap_input("abcdefgh", 10), vec!["> abcdefgh"]);
    assert_eq!(wrap_input("abcdefghi", 5), vec!["> abc", "defgh", "i"]);
    assert_eq!(input_cursor("abc", 10, 1, 1), (5, 0));
    assert_eq!(input_cursor("abcdefgh", 10, 2, 1), (0, 1 - 1));
    assert_eq!(input_height(1, 20), 3);
    assert_eq!(input_height(30, 20), 16);
    assert_eq!(input_height(5, 3), 3);
    assert_eq!(chat_scroll(true, 0, 50, 20), 30);
    assert_eq!(chat_scroll(false, 40, 50, 20), 30);
    assert_eq!(chat_scroll(false, 5, 50, 20), 5);
    assert_eq!(chat_scroll(false, 5, 10, 20), 0);
}

#[test]
fn column_widths_take_any_available_width() {
    let grid = vec![vec!["abc".to_string(), "de".to_string()]];
    assert_eq!(column_widths(&grid, 2, usize::MAX), vec![3, 2]);
    let wide = vec![vec!["a".repeat(40), "b".repeat(40)]];
    let w = column_widths(&wide, 2, 17);
    assert_eq!(w, vec![5, 5]);
}
