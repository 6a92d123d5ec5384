//! The menu: arrow keys move through it, Enter picks.

use vstd::prelude::*;

use super::paint::{
    bare, bare_of, bold, bold_of, spans, tinted, tinted_of, Span, SpanModel, DIM_SLATE, NEON_CYAN,
    NEON_GREEN, NEON_MAGENTA, NEON_RED, NEON_YELLOW,
};
use super::screen::{pad_to, sheet, PANEL_WIDTH};
use crate::text::{chars_of, decimal, decimal_of, left_aligned, repeat_of, repeated};

verus! {

/// The states of the terminal UI.
#[derive(Clone, Copy, PartialEq, Eq, Structural, Debug)]
pub enum UiState {
    Start,
    Input,
    Run,
    Bulk,
    Sweep,
    Export,
    Exit,
    Error,
}

/// The number of rows of the menu.
pub const MENU_ROWS: usize = 5;

/// The label of a row.
pub open spec fn row_label(i: int) -> Seq<char> {
    if i == 0 {
        "RUN DAEMON"@
    } else if i == 1 {
        "BULK THROUGHPUT"@
    } else if i == 2 {
        "BLOCK-SIZE SWEEP"@
    } else if i == 3 {
        "EXPORT REPORT"@
    } else {
        "TERMINATE SESSION"@
    }
}

/// The state that a row leads to.
pub open spec fn row_target(i: int) -> UiState {
    if i == 0 {
        UiState::Run
    } else if i == 1 {
        UiState::Bulk
    } else if i == 2 {
        UiState::Sweep
    } else if i == 3 {
        UiState::Export
    } else {
        UiState::Exit
    }
}

fn row_label_of(i: usize) -> (s: &'static str)
    ensures
        s@ == row_label(i as int),
{
    if i == 0 {
        "RUN DAEMON"
    } else if i == 1 {
        "BULK THROUGHPUT"
    } else if i == 2 {
        "BLOCK-SIZE SWEEP"
    } else if i == 3 {
        "EXPORT REPORT"
    } else {
        "TERMINATE SESSION"
    }
}

fn row_target_of(i: usize) -> (t: UiState)
    ensures
        t == row_target(i as int),
{
    if i == 0 {
        UiState::Run
    } else if i == 1 {
        UiState::Bulk
    } else if i == 2 {
        UiState::Sweep
    } else if i == 3 {
        UiState::Export
    } else {
        UiState::Exit
    }
}

// ── drawing ─────────────────────────────────────────────────────────────────

/// The title in the top border.
pub open spec fn border_title() -> Seq<char> {
    "═ SELECT AN OPERATION "@
}

/// The top border with the title in it.
pub open spec fn top_border() -> Seq<SpanModel> {
    seq![
        bare("  "@),
        bold(
            "╔"@ + border_title() + repeated(
                '═',
                if border_title().len() < PANEL_WIDTH {
                    PANEL_WIDTH - border_title().len()
                } else {
                    0
                },
            ) + "╗"@,
            NEON_MAGENTA,
        ),
    ]
}

/// The inside of a row.
pub open spec fn row_text(i: int, selected: bool) -> Seq<char> {
    left_aligned(
        "  "@ + (if selected {
            "▸"@
        } else {
            " "@
        }) + " ["@ + decimal((i + 1) as nat) + "] "@ + row_label(i),
        PANEL_WIDTH as nat,
    )
}

/// A row of the menu.
pub open spec fn menu_row(i: int, selected: bool) -> Seq<SpanModel> {
    seq![
        bare("  "@),
        bold("║"@, NEON_MAGENTA),
        if selected {
            bold(row_text(i, true), NEON_YELLOW)
        } else {
            tinted(row_text(i, false), NEON_CYAN)
        },
        bold("║"@, NEON_MAGENTA),
    ]
}

/// The bottom border.
pub open spec fn bottom_border() -> Seq<SpanModel> {
    seq![bare("  "@), bold("╚"@ + repeated('═', PANEL_WIDTH as int) + "╝"@, NEON_MAGENTA)]
}

/// The hint below the menu.
pub open spec fn menu_hint() -> Seq<SpanModel> {
    seq![
        bare("   "@),
        tinted("↑/↓ navigate"@, DIM_SLATE),
        bare("  "@),
        tinted("↵ execute"@, NEON_GREEN),
        bare("  "@),
        tinted("q abort"@, NEON_RED),
    ]
}

/// The prompt below the hint; the cursor stays behind it.
pub open spec fn menu_prompt() -> Seq<SpanModel> {
    seq![
        bare("  "@),
        bold("root@sawskas"@, NEON_GREEN),
        tinted(":~$"@, DIM_SLATE),
        bare(" "@),
        tinted("▮"@, NEON_GREEN),
        bare(" "@),
    ]
}

/// The lines of the menu before its prompt, with row `selected` highlighted.
pub open spec fn menu_lines(selected: int) -> Seq<Seq<SpanModel>> {
    seq![
        top_border(),
        menu_row(0, selected == 0),
        menu_row(1, selected == 1),
        menu_row(2, selected == 2),
        menu_row(3, selected == 3),
        menu_row(4, selected == 4),
        bottom_border(),
        Seq::empty(),
        menu_hint(),
        Seq::empty(),
    ]
}

/// The lines that are drawn before the prompt: the top border, the rows, the
/// bottom border, a blank line, the hint and a blank line.
pub const MENU_LINES_BEFORE_PROMPT: usize = 10;

/// What takes the cursor back to the top of the menu and clears the screen from
/// there.
pub open spec fn rewind() -> Seq<char> {
    "\u{1b}["@ + decimal(MENU_LINES_BEFORE_PROMPT as nat) + "A\r\u{1b}[J"@
}

/// Going back by the number of lines before the prompt leads to the top of the
/// menu, whichever row is highlighted.
pub proof fn law_the_menu_is_redrawn_in_place(selected: int)
    ensures
        menu_lines(selected).len() == MENU_LINES_BEFORE_PROMPT,
        menu_lines(selected).len() == MENU_ROWS + 5,
{
}

fn border_of(left: &str, title: &str, right: &str) -> (v: Vec<Span>)
    ensures
        spans(v@) == seq![
            bare("  "@),
            bold(
                left@ + title@ + repeated(
                    '═',
                    if title@.len() < PANEL_WIDTH {
                        PANEL_WIDTH - title@.len()
                    } else {
                        0
                    },
                ) + right@,
                NEON_MAGENTA,
            ),
        ],
{
    let n = chars_of(title).len();
    let fill: usize = if n < PANEL_WIDTH {
        PANEL_WIDTH - n
    } else {
        0
    };
    let mut t = left.to_owned();
    t.append(title);
    t.append(repeat_of('═', fill).as_str());
    t.append(right);
    let mut v: Vec<Span> = Vec::new();
    v.push(bare_of("  "));
    v.push(bold_of(t.as_str(), NEON_MAGENTA));
    assert(spans(v@) == seq![bare("  "@), bold(t@, NEON_MAGENTA)]);
    v
}

fn row_text_of(i: usize, selected: bool) -> (s: String)
    requires
        i < MENU_ROWS,
    ensures
        s@ == row_text(i as int, selected),
{
    let mut s = "  ".to_owned();
    s.append(
        if selected {
            "▸"
        } else {
            " "
        },
    );
    s.append(" [");
    s.append(decimal_of(i as u128 + 1).as_str());
    s.append("] ");
    s.append(row_label_of(i));
    pad_to(s.as_str(), PANEL_WIDTH)
}

fn menu_row_of(i: usize, selected: bool) -> (v: Vec<Span>)
    requires
        i < MENU_ROWS,
    ensures
        spans(v@) == menu_row(i as int, selected),
{
    let text = row_text_of(i, selected);
    let mut v: Vec<Span> = Vec::new();
    v.push(bare_of("  "));
    v.push(bold_of("║", NEON_MAGENTA));
    if selected {
        v.push(bold_of(text.as_str(), NEON_YELLOW));
    } else {
        v.push(tinted_of(text.as_str(), NEON_CYAN));
    }
    v.push(bold_of("║", NEON_MAGENTA));
    assert(spans(v@) == menu_row(i as int, selected));
    v
}

fn bottom_border_of() -> (v: Vec<Span>)
    ensures
        spans(v@) == bottom_border(),
{
    let mut t = "╚".to_owned();
    t.append(repeat_of('═', PANEL_WIDTH).as_str());
    t.append("╝");
    let mut v: Vec<Span> = Vec::new();
    v.push(bare_of("  "));
    v.push(bold_of(t.as_str(), NEON_MAGENTA));
    assert(spans(v@) == bottom_border());
    v
}

fn menu_hint_of() -> (v: Vec<Span>)
    ensures
        spans(v@) == menu_hint(),
{
    let mut v: Vec<Span> = Vec::new();
    v.push(bare_of("   "));
    v.push(tinted_of("↑/↓ navigate", DIM_SLATE));
    v.push(bare_of("  "));
    v.push(tinted_of("↵ execute", NEON_GREEN));
    v.push(bare_of("  "));
    v.push(tinted_of("q abort", NEON_RED));
    assert(spans(v@) == menu_hint());
    v
}

/// The prompt below the menu.
pub fn menu_prompt_of() -> (v: Vec<Span>)
    ensures
        spans(v@) == menu_prompt(),
{
    let mut v: Vec<Span> = Vec::new();
    v.push(bare_of("  "));
    v.push(bold_of("root@sawskas", NEON_GREEN));
    v.push(tinted_of(":~$", DIM_SLATE));
    v.push(bare_of(" "));
    v.push(tinted_of("▮", NEON_GREEN));
    v.push(bare_of(" "));
    assert(spans(v@) == menu_prompt());
    v
}

fn blank() -> (v: Vec<Span>)
    ensures
        spans(v@) == Seq::<SpanModel>::empty(),
{
    let v: Vec<Span> = Vec::new();
    assert(spans(v@) == Seq::<SpanModel>::empty());
    v
}

/// The lines of the menu before its prompt, with row `selected` highlighted.
pub fn draw_menu_items(selected: usize) -> (r: Vec<Vec<Span>>)
    ensures
        sheet(r@) == menu_lines(selected as int),
{
    let mut r: Vec<Vec<Span>> = Vec::new();
    r.push(border_of("╔", "═ SELECT AN OPERATION ", "╗"));
    r.push(menu_row_of(0, selected == 0));
    r.push(menu_row_of(1, selected == 1));
    r.push(menu_row_of(2, selected == 2));
    r.push(menu_row_of(3, selected == 3));
    r.push(menu_row_of(4, selected == 4));
    r.push(bottom_border_of());
    r.push(blank());
    r.push(menu_hint_of());
    r.push(blank());
    assert(sheet(r@) == menu_lines(selected as int));
    r
}

/// What takes the cursor back to the top of the menu.
pub fn redraw_menu_items() -> (s: String)
    ensures
        s@ == rewind(),
{
    let mut s = "\u{1b}[".to_owned();
    s.append(decimal_of(MENU_LINES_BEFORE_PROMPT as u128).as_str());
    s.append("A\r\u{1b}[J");
    s
}

// ── keys ────────────────────────────────────────────────────────────────────

/// The keys that the menu knows.
#[derive(Clone, Copy, PartialEq, Eq, Structural, Debug)]
pub enum Key {
    Up,
    Down,
    Enter,
    Esc,
    Char(char),
    Other,
}

/// What a key does in the menu.
#[derive(Clone, Copy, PartialEq, Eq, Structural, Debug)]
pub enum MenuReply {
    /// Nothing changes.
    Stay,
    /// Another row is highlighted.
    Redraw,
    /// A state was picked.
    Chosen(UiState),
}

/// The highlighted row and the reply after a key, where `released` says that the
/// key went up rather than down.
pub open spec fn pressed(selected: nat, key: Key, released: bool) -> (nat, MenuReply) {
    if released {
        (selected, MenuReply::Stay)
    } else {
        match key {
            Key::Up => if selected > 0 {
                ((selected - 1) as nat, MenuReply::Redraw)
            } else {
                (selected, MenuReply::Stay)
            },
            Key::Down => if selected < MENU_ROWS - 1 {
                (selected + 1, MenuReply::Redraw)
            } else {
                (selected, MenuReply::Stay)
            },
            Key::Enter => (selected, MenuReply::Chosen(row_target(selected as int))),
            Key::Esc => (selected, MenuReply::Chosen(UiState::Exit)),
            Key::Char(c) => if c == 'q' {
                (selected, MenuReply::Chosen(UiState::Exit))
            } else {
                (selected, MenuReply::Stay)
            },
            Key::Other => (selected, MenuReply::Stay),
        }
    }
}

/// Takes in a key: the highlighted row after it, and what it does.
pub fn press(selected: usize, key: Key, released: bool) -> (r: (usize, MenuReply))
    requires
        selected < MENU_ROWS,
    ensures
        (r.0 as nat, r.1) == pressed(selected as nat, key, released),
        r.0 < MENU_ROWS,
{
    if released {
        return (selected, MenuReply::Stay);
    }
    match key {
        Key::Up => {
            if selected > 0 {
                (selected - 1, MenuReply::Redraw)
            } else {
                (selected, MenuReply::Stay)
            }
        },
        Key::Down => {
            if selected < MENU_ROWS - 1 {
                (selected + 1, MenuReply::Redraw)
            } else {
                (selected, MenuReply::Stay)
            }
        },
        Key::Enter => (selected, MenuReply::Chosen(row_target_of(selected))),
        Key::Esc => (selected, MenuReply::Chosen(UiState::Exit)),
        Key::Char(c) => {
            if c == 'q' {
                (selected, MenuReply::Chosen(UiState::Exit))
            } else {
                (selected, MenuReply::Stay)
            }
        },
        Key::Other => (selected, MenuReply::Stay),
    }
}

/// Whatever key is pressed, the highlight stays on a row of the menu, and it
/// moves by one row at most.
pub proof fn law_the_highlight_stays_in_the_menu(selected: nat, key: Key, released: bool)
    requires
        selected < MENU_ROWS,
    ensures
        pressed(selected, key, released).0 < MENU_ROWS,
        pressed(selected, key, released).0 <= selected + 1,
        selected <= pressed(selected, key, released).0 + 1,
        pressed(selected, key, released).1 != MenuReply::Redraw ==> pressed(
            selected,
            key,
            released,
        ).0 == selected,
{
}

/// Where the highlight can move, the opposite key takes it back.
pub proof fn law_up_undoes_down(selected: nat)
    requires
        selected < MENU_ROWS - 1,
    ensures
        pressed(pressed(selected, Key::Down, false).0, Key::Up, false).0 == selected,
{
}

} // verus!
