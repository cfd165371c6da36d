use dropshot_api_manager::wrap::{render_plain, write_wrapped, Indent, Line, StyleRole, WrapPiece};
use owo_colors::{OwoColorize, Style};

/// Render `line` at the given `width` with an indent of `indent` ASCII
/// spaces, returning the resulting string.
fn render(line: &Line, width: usize, indent: &str) -> String {
    let indent = Indent::spaces(indent);
    let pieces = write_wrapped(line, width, &indent);
    render_plain(&pieces, &indent)
}

/// Render with terminal styles, as the command-line output does.
fn render_styled(line: &Line, width: usize, indent: &str) -> String {
    let indent = Indent::spaces(indent);
    let mut out = String::new();
    for piece in write_wrapped(line, width, &indent) {
        match piece {
            WrapPiece::Text { text, style } => {
                let style = match style {
                    StyleRole::Bold => Style::new().bold(),
                    _ => Style::new(),
                };
                out.push_str(&format!("{}", text.style(style)));
            }
            WrapPiece::Spaces(n) => out.push_str(&" ".repeat(n)),
            WrapPiece::Break => {
                out.push('\n');
                out.push_str(&indent.string);
            }
        }
    }
    out
}

#[test]
fn test_fit_on_one_line() {
    let mut line = Line::new();
    line.push_plain("GET ");
    line.push_plain("/short");
    assert_eq!(render(&line, 80, "    "), "GET /short");
}

#[test]
fn test_break_at_whitespace() {
    let mut line = Line::new();
    line.push_plain("alpha beta");
    // Width 7: "alpha" (5) fits, "beta" (4) won't fit alongside it
    // (5+1+4=10>7) and fits fine on a line of its own, so it
    // breaks.
    assert_eq!(render(&line, 7, "  "), "alpha\n  beta");
}

#[test]
fn test_adjacent_spans_form_one_word() {
    let mut line = Line::new();
    line.push_plain("AB");
    line.push_plain("CD");
    // "ABCD" is 4 chars; at width 3, a naive per-span breaker would
    // split between "AB" and "CD" — but they form one word here, so
    // the whole thing extends past the limit on a single line.
    assert_eq!(render(&line, 3, "  "), "ABCD");
}

#[test]
fn test_long_word_overflows() {
    let mut line = Line::new();
    line.push_plain("a ");
    line.push_plain("loooooooooong ");
    line.push_plain("z");
    // Width 5: each word goes on its own line ("a" fits, the long
    // word overflows alone, "z" fits).
    assert_eq!(render(&line, 5, ""), "a\nloooooooooong\nz");
}

#[test]
fn test_preserve_styles_across_wrap() {
    let bold = Style::new().bold();
    let mut line = Line::new();
    line.push_plain("aa bb ");
    line.push("CC", StyleRole::Bold);
    line.push_plain("-dd");
    // Width 7 unindented: "aa bb" (5) fits on line 1; "CC-dd" (5)
    // doesn't fit alongside it (5+1+5=11>7) and starts line 2 with
    // the bold styling on CC preserved.
    let expected = format!("aa bb\n{}-dd", "CC".style(bold));
    assert_eq!(render_styled(&line, 7, ""), expected);
}

#[test]
fn empty_line_writes_nothing() {
    let mut line = Line::new();
    line.push_plain("");
    assert!(write_wrapped(&line, 10, &Indent::spaces("  ")).is_empty());
}

#[test]
fn slices_keep_their_span_styles_and_widths_count_columns() {
    let mut line = Line::new();
    line.push("GET", StyleRole::SuccessHeader);
    line.push_plain(" ");
    line.push("/a", StyleRole::Filename);
    let pieces = write_wrapped(&line, 80, &Indent::spaces(""));
    assert_eq!(
        pieces,
        vec![
            WrapPiece::Text { text: "GET".to_string(), style: StyleRole::SuccessHeader },
            WrapPiece::Spaces(1),
            WrapPiece::Text { text: "/a".to_string(), style: StyleRole::Filename },
        ]
    );
    // Wide characters take two columns each: "日本" (4) and "x" do not fit
    // together in 5 columns, since the word is measured by display width.
    let mut wide = Line::new();
    wide.push_plain("日本 xy");
    assert_eq!(render(&wide, 5, ""), "日本\nxy");
}

#[test]
fn leading_spaces_form_an_empty_word() {
    let mut line = Line::new();
    line.push_plain("  ab");
    // The leading spaces are kept before the first word on its line.
    assert_eq!(render(&line, 80, ""), "  ab");
}

#[test]
fn wrapping_keeps_every_non_space_character_in_its_style() {
    let mut line = Line::new();
    line.push_plain("one two ");
    line.push("three four", StyleRole::Bold);
    line.push_plain(" five");
    let mut expected: Vec<(char, StyleRole)> = Vec::new();
    for c in "onetwo".chars() {
        expected.push((c, StyleRole::Plain));
    }
    for c in "threefour".chars() {
        expected.push((c, StyleRole::Bold));
    }
    for c in "five".chars() {
        expected.push((c, StyleRole::Plain));
    }
    for width in [1usize, 4, 9, 12, 80] {
        let mut got: Vec<(char, StyleRole)> = Vec::new();
        for piece in write_wrapped(&line, width, &Indent::spaces("  ")) {
            if let WrapPiece::Text { text, style } = piece {
                for c in text.chars() {
                    got.push((c, style));
                }
            }
        }
        assert_eq!(got, expected, "width {}", width);
    }
}
