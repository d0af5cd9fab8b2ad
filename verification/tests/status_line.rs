use kiwix_chat::tui::app::App;
use kiwix_chat::tui::render::status_segments;
use kiwix_chat::tui::style::{make_rgb, Color, Style};

fn app(reachable: bool) -> App {
    App::new("qwen".to_string(), "http://l/v1".to_string(), "http://k".to_string(), reachable, "eng".to_string(), 6)
}

fn texts(a: &App, ctx: Option<String>) -> Vec<String> {
    status_segments(a, ctx).into_iter().map(|(t, _)| t).collect()
}

#[test]
fn status_line_shows_model_kiwix_and_language() {
    let a = app(true);
    assert_eq!(
        texts(&a, None),
        vec![" qwen ", " ", "kiwix✓", "  lang:eng  ", "ready", "  ctx:—", "  PgUp/PgDn scroll · Tab thinking · /quit"]
    );
}

#[test]
fn status_line_marks_unreachable_kiwix_busy_and_context() {
    let mut a = app(false);
    a.busy = true;
    let t = texts(&a, Some("1.2k".to_string()));
    assert_eq!(t[2], "kiwix✗");
    assert_eq!(t[4], "busy");
    assert_eq!(t[5], "  ctx:1.2k");
}

#[test]
fn status_line_styles() {
    let a = app(true);
    let segs = status_segments(&a, None);
    assert_eq!(segs.len(), 7);
    assert_eq!(segs[0].1, Style::plain().in_black().with_bg(Color::Rgb(make_rgb(0x7A, 0xA2, 0xC0))));
    assert_eq!(segs[2].1, Style::plain().with_fg(make_rgb(0x8F, 0xB0, 0x8F)));
    assert_eq!(segs[4].1, Style::plain().dim());
    assert_eq!(segs[6].1, Style::plain());
}
