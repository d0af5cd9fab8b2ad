use kiwix_chat::tui::math::normalize_math;

#[test]
fn normalizes_common_latex() {
    assert_eq!(
        normalize_math("Energy is \\(E = mc^2\\)."),
        "Energy is E = mc²."
    );
    assert_eq!(normalize_math("$$\\frac{a}{b}$$"), "(a)/(b)");
    assert_eq!(
        normalize_math("speed \\approx 3 \\times 10^8"),
        "speed ≈ 3 × 10⁸"
    );
    assert_eq!(normalize_math("$\\sqrt{2}$"), "√(2)");
}

#[test]
fn leaves_plain_text_and_currency_untouched() {
    assert_eq!(normalize_math("no math here at all"), "no math here at all");
    assert_eq!(
        normalize_math("it costs $5 or $10 total"),
        "it costs $5 or $10 total"
    );
}

#[test]
fn nested_fractions_and_braced_superscripts() {
    assert_eq!(normalize_math("\\frac{\\sqrt{x}}{2}"), "(√(x))/(2)");
    assert_eq!(normalize_math("$x^{10}$"), "x¹⁰");
    assert_eq!(normalize_math("\\leq \\le \\alpha"), "≤ ≤ α");
}

#[test]
fn unmapped_superscript_is_left_alone() {
    assert_eq!(normalize_math("\\(a^{xy}\\)"), "a^{xy}");
}
