use sawskas_profiler::frontend::paint::{
    bare_of, bold_of, default_palette, render, show, slanted_of, tinted_of, DIM_SLATE, NEON_CYAN,
    NEON_GREEN, NEON_MAGENTA, NEON_PURPLE, NEON_RED, NEON_YELLOW,
};

/// The forms that a coloured text may have: in full colour or in the nearest of
/// the sixteen basic ones.
fn forms(style: &str, full: &str, basic: &str, text: &str) -> Vec<String> {
    vec![
        format!("\u{1b}[{}{}m{}\u{1b}[0m", style, full, text),
        format!("\u{1b}[{}{}m{}\u{1b}[0m", style, basic, text),
    ]
}

/// The override of the colours holds for the whole process, so that what needs it
/// is tested in one piece.
#[test]
fn spans_are_coloured_where_colours_are_on() {
    coloured_spans();
    coloured_lines();
    plain_spans();
}

fn coloured_spans() {
    colored::control::set_override(true);
    let cyan = show(&tinted_of("text", NEON_CYAN));
    assert!(forms("", "38;2;0;247;255", "96", "text").contains(&cyan), "{:?}", cyan);
    let green = show(&bold_of("text", NEON_GREEN));
    assert!(forms("1;", "38;2;0;255;140", "36", "text").contains(&green), "{:?}", green);
    let purple = show(&slanted_of("text", NEON_PURPLE));
    assert!(forms("3;", "38;2;162;0;255", "35", "text").contains(&purple), "{:?}", purple);
    let grey = show(&tinted_of("", DIM_SLATE));
    assert!(forms("", "38;2;88;96;124", "90", "").contains(&grey), "{:?}", grey);
    assert_eq!(show(&bare_of("text")), "text");
}

fn plain_spans() {
    colored::control::set_override(false);
    let line = vec![
        bare_of("  "),
        tinted_of("a", NEON_RED),
        bold_of("b", NEON_YELLOW),
        slanted_of("c", NEON_MAGENTA),
    ];
    assert_eq!(render(&line), "  abc");
}

fn coloured_lines() {
    colored::control::set_override(true);
    let line = vec![bare_of("> "), tinted_of("one", NEON_CYAN), bold_of(" two", NEON_RED)];
    let shown = render(&line);
    assert_ne!(shown, "> one two");
    let mut seen = String::new();
    let mut inside = false;
    for c in shown.chars() {
        if inside {
            inside = c != 'm';
        } else if c == '\u{1b}' {
            inside = true;
        } else {
            seen.push(c);
        }
    }
    assert_eq!(seen, "> one two");
}

#[test]
fn the_palette_has_five_colours() {
    assert_eq!(
        default_palette(),
        vec![0x00f7ff, 0xff00c7, 0xfcee09, 0x00ff8c, 0xa200ff]
    );
}
