use just::diagnostic::{headline, rendered, Severity, Span};

fn span(line: u64, column: usize, width: usize, text: &str) -> Span {
    Span {
        line,
        column,
        width,
        text: text.to_owned(),
    }
}

#[test]
fn headline_names_the_severity() {
    assert_eq!(headline(Severity::Error, "boom"), "error: boom");
    assert_eq!(headline(Severity::Warning, "careful"), "warning: careful");
}

#[test]
fn rendered_underlines_the_span() {
    assert_eq!(
        rendered(Severity::Error, "Unknown start of token:", &span(5, 2, 4, "a bcde f")),
        "error: Unknown start of token:\n  |\n5 | a bcde f\n  |   ^^^^"
    );
}

#[test]
fn rendered_right_aligns_wide_line_numbers() {
    assert_eq!(
        rendered(Severity::Warning, "deprecated", &span(12, 0, 1, "x = 1")),
        "warning: deprecated\n   |\n12 | x = 1\n   | ^"
    );
}

#[test]
fn rendered_expands_tabs_for_caret_position() {
    assert_eq!(
        rendered(Severity::Error, "bad", &span(3, 1, 2, "\tab")),
        "error: bad\n  |\n3 | \tab\n  |     ^^"
    );
}

#[test]
fn rendered_marks_an_empty_span_with_one_caret() {
    assert_eq!(
        rendered(Severity::Error, "unexpected end", &span(1, 3, 0, "abc")),
        "error: unexpected end\n  |\n1 | abc\n  |    ^"
    );
}
