use tms::ansi::{str_to_text, Color, Style};

#[test]
fn ansi_round_trip_two_runs() {
    let text = str_to_text("\x1b[31mred\x1b[0m plain", 80);
    assert_eq!(text.lines.len(), 1);
    let line = &text.lines[0];
    assert_eq!(line.spans.len(), 2);
    assert_eq!(line.spans[0].content, "red");
    assert_eq!(line.spans[0].style.fg, Some(Color::Red));
    assert_eq!(line.spans[1].content, " plain");
    assert_eq!(line.spans[1].style, Style::plain());
}

#[test]
fn ansi_wrap_never_splits_codepoints() {
    // five two-byte codepoints wrapped at width 2: three lines, no broken
    // character
    let text = str_to_text("\u{e1}\u{e9}\u{ed}\u{f3}\u{fa}", 2);
    assert_eq!(text.lines.len(), 3);
    let joined: String = text
        .lines
        .iter()
        .flat_map(|l| l.spans.iter().map(|s| s.content.clone()))
        .collect();
    assert_eq!(joined, "\u{e1}\u{e9}\u{ed}\u{f3}\u{fa}");
    for line in &text.lines {
        let width: usize = line.spans.iter().map(|s| s.content.chars().count()).sum();
        assert!(width <= 2);
    }
}

#[test]
fn ansi_style_persists_across_lines() {
    let text = str_to_text("\x1b[1mbold\nstill", 80);
    assert_eq!(text.lines.len(), 2);
    assert!(text.lines[0].spans[0].style.bold);
    assert!(text.lines[1].spans[0].style.bold);
}

#[test]
fn ansi_malformed_escape_is_dropped() {
    // an unterminated escape swallows the rest of the line without failing
    let text = str_to_text("ok\x1b[31", 80);
    assert_eq!(text.lines.len(), 1);
    assert_eq!(text.lines[0].spans.len(), 1);
    assert_eq!(text.lines[0].spans[0].content, "ok");
}

#[test]
fn ansi_unrecognized_code_keeps_style() {
    let text = str_to_text("\x1b[1m\x1b[999ma", 80);
    let span = &text.lines[0].spans[0];
    assert!(span.style.bold);
    assert_eq!(span.style.fg, None);
}

#[test]
fn ansi_extended_colors() {
    let text = str_to_text("\x1b[38;5;196mx\x1b[48;2;1;2;3my", 80);
    let line = &text.lines[0];
    assert_eq!(line.spans[0].content, "x");
    assert_eq!(line.spans[0].style.fg, Some(Color::Indexed(196)));
    assert_eq!(line.spans[1].content, "y");
    assert_eq!(line.spans[1].style.bg, Some(Color::Rgb(1, 2, 3)));
}

#[test]
fn ansi_spans_are_maximal_runs() {
    // an escape that leaves the style unchanged does not split the run
    let text = str_to_text("\x1b[31mred\x1b[31mder", 80);
    assert_eq!(text.lines.len(), 1);
    assert_eq!(text.lines[0].spans.len(), 1);
    assert_eq!(text.lines[0].spans[0].content, "redder");
    assert_eq!(text.lines[0].spans[0].style.fg, Some(Color::Red));
}

#[test]
fn ansi_bright_and_background() {
    let text = str_to_text("\x1b[92m\x1b[41mz", 80);
    let span = &text.lines[0].spans[0];
    assert_eq!(span.style.fg, Some(Color::LightGreen));
    assert_eq!(span.style.bg, Some(Color::Red));
}
