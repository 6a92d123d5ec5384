//! Coloured text.
//!
//! A line is a list of spans. What the terminal shows of a span is its text; the
//! colour sequences around it depend on the environment.

use colored::Colorize;
use vstd::prelude::*;

use crate::text::{decimal, digit};

verus! {

/// A colour as a number: two hexadecimal digits each for red, green and blue.
pub type Color = u32;

/// A colour by its red, green and blue parts.
#[derive(Clone, Copy, PartialEq, Eq, Structural, Debug)]
pub struct Rgb {
    pub r: u8,
    pub g: u8,
    pub b: u8,
}

/// How a coloured span is set.
#[derive(Clone, Copy, PartialEq, Eq, Structural, Debug)]
pub enum Style {
    Regular,
    Bold,
    Italic,
}

/// A piece of a line.
pub struct Span {
    pub text: String,
    /// The colour and the style; a span without them is printed as it is.
    pub look: Option<(Color, Style)>,
}

/// A piece of a line, as a value.
pub struct SpanModel {
    pub text: Seq<char>,
    pub look: Option<(Color, Style)>,
}

impl View for Span {
    type V = SpanModel;

    open spec fn view(&self) -> SpanModel {
        SpanModel { text: self.text@, look: self.look }
    }
}

/// A line, as a value.
pub open spec fn spans(v: Seq<Span>) -> Seq<SpanModel> {
    v.map_values(|s: Span| s@)
}

/// A span without colour.
pub open spec fn bare(text: Seq<char>) -> SpanModel {
    SpanModel { text, look: None }
}

/// A coloured span.
pub open spec fn tinted(text: Seq<char>, color: Color) -> SpanModel {
    SpanModel { text, look: Some((color, Style::Regular)) }
}

/// A coloured span in bold.
pub open spec fn bold(text: Seq<char>, color: Color) -> SpanModel {
    SpanModel { text, look: Some((color, Style::Bold)) }
}

/// A coloured span in italics.
pub open spec fn slanted(text: Seq<char>, color: Color) -> SpanModel {
    SpanModel { text, look: Some((color, Style::Italic)) }
}

/// A span without colour.
pub fn bare_of(text: &str) -> (s: Span)
    ensures
        s@ == bare(text@),
{
    Span { text: text.to_owned(), look: None }
}

/// A coloured span.
pub fn tinted_of(text: &str, color: Color) -> (s: Span)
    ensures
        s@ == tinted(text@, color),
{
    Span { text: text.to_owned(), look: Some((color, Style::Regular)) }
}

/// A coloured span in bold.
pub fn bold_of(text: &str, color: Color) -> (s: Span)
    ensures
        s@ == bold(text@, color),
{
    Span { text: text.to_owned(), look: Some((color, Style::Bold)) }
}

/// A coloured span in italics.
pub fn slanted_of(text: &str, color: Color) -> (s: Span)
    ensures
        s@ == slanted(text@, color),
{
    Span { text: text.to_owned(), look: Some((color, Style::Italic)) }
}

// ── colour sequences ────────────────────────────────────────────────────────

/// The parts of a colour.
pub open spec fn rgb(c: Color) -> Rgb {
    Rgb { r: (c / 0x1_0000 % 256) as u8, g: (c / 0x100 % 256) as u8, b: (c % 256) as u8 }
}

fn rgb_of(c: Color) -> (p: Rgb)
    ensures
        p == rgb(c),
{
    Rgb { r: (c / 0x1_0000 % 256) as u8, g: (c / 0x100 % 256) as u8, b: (c % 256) as u8 }
}

/// The sixteen basic colours of a terminal.
pub open spec fn basic(k: int) -> Rgb {
    if k == 0 {
        Rgb { r: 0, g: 0, b: 0 }
    } else if k == 1 {
        Rgb { r: 205, g: 0, b: 0 }
    } else if k == 2 {
        Rgb { r: 0, g: 205, b: 0 }
    } else if k == 3 {
        Rgb { r: 205, g: 205, b: 0 }
    } else if k == 4 {
        Rgb { r: 0, g: 0, b: 238 }
    } else if k == 5 {
        Rgb { r: 205, g: 0, b: 205 }
    } else if k == 6 {
        Rgb { r: 0, g: 205, b: 205 }
    } else if k == 7 {
        Rgb { r: 229, g: 229, b: 229 }
    } else if k == 8 {
        Rgb { r: 127, g: 127, b: 127 }
    } else if k == 9 {
        Rgb { r: 255, g: 0, b: 0 }
    } else if k == 10 {
        Rgb { r: 0, g: 255, b: 0 }
    } else if k == 11 {
        Rgb { r: 255, g: 255, b: 0 }
    } else if k == 12 {
        Rgb { r: 92, g: 92, b: 255 }
    } else if k == 13 {
        Rgb { r: 255, g: 0, b: 255 }
    } else if k == 14 {
        Rgb { r: 0, g: 255, b: 255 }
    } else {
        Rgb { r: 255, g: 255, b: 255 }
    }
}

/// How far apart two colours are.
pub open spec fn distance(a: Rgb, b: Rgb) -> int {
    (a.r - b.r) * (a.r - b.r) + (a.g - b.g) * (a.g - b.g) + (a.b - b.b) * (a.b - b.b)
}

/// Whether basic colour `k` is the nearest to `c`, the first of equals.
pub open spec fn is_nearest(c: Rgb, k: int) -> bool {
    &&& 0 <= k < 16
    &&& forall|j: int| 0 <= j < 16 ==> distance(c, basic(k)) <= #[trigger] distance(c, basic(j))
    &&& forall|j: int| 0 <= j < k ==> distance(c, basic(k)) < #[trigger] distance(c, basic(j))
}

/// The code of a basic colour: 30 to 37, or 90 to 97.
pub open spec fn basic_code(k: int) -> Seq<char> {
    if k < 8 {
        decimal((30 + k) as nat)
    } else {
        decimal((82 + k) as nat)
    }
}

/// The code of a colour on a terminal that has them all.
pub open spec fn full_code(c: Rgb) -> Seq<char> {
    "38;2;"@ + decimal(c.r as nat) + ";"@ + decimal(c.g as nat) + ";"@ + decimal(c.b as nat)
}

/// Whether `code` is a code for a colour: its own, or that of the nearest basic
/// colour.
pub open spec fn is_code(c: Rgb, code: Seq<char>) -> bool {
    code == full_code(c) || exists|k: int| is_nearest(c, k) && code == #[trigger] basic_code(k)
}

/// The code of a style, with its separator.
pub open spec fn style_code(style: Style) -> Seq<char> {
    match style {
        Style::Regular => ""@,
        Style::Bold => "1;"@,
        Style::Italic => "3;"@,
    }
}

/// Whether a text has no escape character.
pub open spec fn is_plain(s: Seq<char>) -> bool {
    forall|i: int| 0 <= i < s.len() ==> #[trigger] s[i] != '\u{1b}'
}

/// The inside of a text between colour sequences.
pub open spec fn wrapped(code: Seq<char>, style: Style, inside: Seq<char>) -> Seq<char> {
    "\u{1b}["@ + style_code(style) + code + "m"@ + inside + "\u{1b}[0m"@
}

/// Whether `r` is a coloured form of `text`: the text itself where colours are
/// off, else the text between colour sequences. Where the text has escape
/// characters of its own, nothing is said of what is between the sequences.
pub open spec fn is_painting(text: Seq<char>, c: Rgb, style: Style, r: Seq<char>) -> bool {
    r == text || exists|code: Seq<char>, inside: Seq<char>|
        is_code(c, code) && (is_plain(text) ==> inside == text) && r == #[trigger] wrapped(
            code,
            style,
            inside,
        )
}

/// Colours a text: `colored::Colorize::truecolor`, shown as a string. The
/// environment decides whether there is colour at all and which code it has; what
/// the contract claims is that the result is the text, or the text between the
/// sequence that sets the colour and the sequence that resets it. Of a text with
/// escape characters, into which the crate may put more sequences, it claims only
/// the outer two.
#[verifier::external_body]
fn paint(text: &str, color: Rgb) -> (r: String)
    ensures
        is_painting(text@, color, Style::Regular, r@),
{
    text.truecolor(color.r, color.g, color.b).to_string()
}

/// Colours a text and sets it in bold: `colored::Colorize::truecolor` and
/// `colored::Colorize::bold`, shown as a string. As for a regular text, with the
/// code for bold in front of that for the colour.
#[verifier::external_body]
fn paint_bold(text: &str, color: Rgb) -> (r: String)
    ensures
        is_painting(text@, color, Style::Bold, r@),
{
    text.truecolor(color.r, color.g, color.b).bold().to_string()
}

/// Colours a text and sets it in italics: `colored::Colorize::truecolor` and
/// `colored::Colorize::italic`, shown as a string. As for a regular text, with
/// the code for italics in front of that for the colour.
#[verifier::external_body]
fn paint_italic(text: &str, color: Rgb) -> (r: String)
    ensures
        is_painting(text@, color, Style::Italic, r@),
{
    text.truecolor(color.r, color.g, color.b).italic().to_string()
}

/// Whether `r` is a form in which a span can be printed.
pub open spec fn is_shown(s: SpanModel, r: Seq<char>) -> bool {
    match s.look {
        None => r == s.text,
        Some((color, style)) => is_painting(s.text, rgb(color), style, r),
    }
}

/// Whether `r` is a form in which a line can be printed.
pub open spec fn is_rendering(line: Seq<SpanModel>, r: Seq<char>) -> bool
    decreases line.len(),
{
    if line.len() == 0 {
        r.len() == 0
    } else {
        exists|a: Seq<char>, b: Seq<char>|
            r == #[trigger] (a + b) && is_rendering(line.drop_last(), a) && is_shown(
                line.last(),
                b,
            )
    }
}

/// The text of a line.
pub open spec fn line_text(line: Seq<SpanModel>) -> Seq<char>
    decreases line.len(),
{
    if line.len() == 0 {
        Seq::empty()
    } else {
        line_text(line.drop_last()) + line.last().text
    }
}

/// Shows a span as the environment has it.
pub fn show(s: &Span) -> (r: String)
    ensures
        is_shown(s@, r@),
{
    match s.look {
        None => s.text.as_str().to_owned(),
        Some((color, Style::Regular)) => paint(s.text.as_str(), rgb_of(color)),
        Some((color, Style::Bold)) => paint_bold(s.text.as_str(), rgb_of(color)),
        Some((color, Style::Italic)) => paint_italic(s.text.as_str(), rgb_of(color)),
    }
}

/// Renders a line as the environment has it.
pub fn render(line: &Vec<Span>) -> (r: String)
    ensures
        is_rendering(spans(line@), r@),
{
    let ghost all = spans(line@);
    let mut r = String::new();
    for i in 0..line.len()
        invariant
            all == spans(line@),
            is_rendering(all.take(i as int), r@),
    {
        let ghost a = r@;
        let part = show(&line[i]);
        r.append(part.as_str());
        proof {
            let next = all.take(i + 1);
            assert(next.drop_last() == all.take(i as int));
            assert(next.last() == line@[i as int]@);
            assert(r@ == a + part@);
        }
    }
    assert(all.take(all.len() as int) == all);
    r
}

// ── what is seen ────────────────────────────────────────────────────────────

/// What a terminal shows of a text: everything but the sequences from an escape
/// character to the next `m`. `inside` says whether such a sequence has begun.
pub open spec fn seen(s: Seq<char>, inside: bool) -> Seq<char>
    decreases s.len(),
{
    if s.len() == 0 {
        Seq::empty()
    } else if inside {
        seen(s.skip(1), s[0] != 'm')
    } else if s[0] == '\u{1b}' {
        seen(s.skip(1), true)
    } else {
        seq![s[0]] + seen(s.skip(1), false)
    }
}

proof fn lemma_seen_plain(s: Seq<char>, rest: Seq<char>)
    requires
        is_plain(s),
    ensures
        seen(s + rest, false) == s + seen(rest, false),
    decreases s.len(),
{
    if s.len() == 0 {
        assert(s + rest == rest);
        assert(s + seen(rest, false) == seen(rest, false));
    } else {
        let tail = s.skip(1);
        assert forall|i: int| 0 <= i < tail.len() implies #[trigger] tail[i] != '\u{1b}' by {
            assert(tail[i] == s[i + 1]);
        }
        lemma_seen_plain(tail, rest);
        assert((s + rest).skip(1) == tail + rest);
        assert(s[0] != '\u{1b}');
        assert(seq![s[0]] + (tail + seen(rest, false)) == s + seen(rest, false));
    }
}

/// Whether a text has no `m`.
spec fn without_m(s: Seq<char>) -> bool {
    forall|i: int| 0 <= i < s.len() ==> #[trigger] s[i] != 'm'
}

proof fn lemma_seen_sequence(s: Seq<char>, rest: Seq<char>)
    requires
        without_m(s),
    ensures
        seen(s + seq!['m'] + rest, true) == seen(rest, false),
    decreases s.len(),
{
    let all = s + seq!['m'] + rest;
    if s.len() == 0 {
        assert(all[0] == 'm');
        assert(all.skip(1) == rest);
    } else {
        let tail = s.skip(1);
        assert forall|i: int| 0 <= i < tail.len() implies #[trigger] tail[i] != 'm' by {
            assert(tail[i] == s[i + 1]);
        }
        lemma_seen_sequence(tail, rest);
        assert(all.skip(1) == tail + seq!['m'] + rest);
        assert(s[0] != 'm');
    }
}

proof fn lemma_decimal_without_m(n: nat)
    ensures
        without_m(decimal(n)),
    decreases n,
{
    if n >= 10 {
        lemma_decimal_without_m(n / 10);
    }
    assert(forall|d: nat| d < 10 ==> #[trigger] digit(d) != 'm');
}

proof fn lemma_code_without_m(c: Rgb, code: Seq<char>, style: Style)
    requires
        is_code(c, code),
    ensures
        without_m(style_code(style) + code),
{
    reveal_strlit("38;2;");
    reveal_strlit(";");
    reveal_strlit("1;");
    reveal_strlit("3;");
    reveal_strlit("");
    assert(without_m(style_code(style)));
    if code == full_code(c) {
        lemma_decimal_without_m(c.r as nat);
        lemma_decimal_without_m(c.g as nat);
        lemma_decimal_without_m(c.b as nat);
        assert(without_m("38;2;"@) && without_m(";"@));
        assert(without_m(code));
    } else {
        let k = choose|k: int| is_nearest(c, k) && code == #[trigger] basic_code(k);
        lemma_decimal_without_m((30 + k) as nat);
        lemma_decimal_without_m((82 + k) as nat);
    }
}

proof fn lemma_seen_painting(text: Seq<char>, c: Rgb, style: Style, r: Seq<char>, rest: Seq<char>)
    requires
        is_plain(text),
        is_painting(text, c, style, r),
    ensures
        seen(r + rest, false) == text + seen(rest, false),
{
    if r == text {
        lemma_seen_plain(text, rest);
    } else {
        let (code, inside) = choose|code: Seq<char>, inside: Seq<char>|
            is_code(c, code) && (is_plain(text) ==> inside == text) && r == #[trigger] wrapped(
                code,
                style,
                inside,
            );
        reveal_strlit("\u{1b}[");
        reveal_strlit("m");
        reveal_strlit("\u{1b}[0m");
        lemma_code_without_m(c, code, style);
        let head = seq!['['] + style_code(style) + code;
        let after = text + "\u{1b}[0m"@ + rest;
        let all = r + rest;
        assert(all[0] == '\u{1b}');
        assert(all.skip(1) == head + seq!['m'] + after);
        assert(without_m(head)) by {
            let tail = style_code(style) + code;
            assert forall|i: int| 0 <= i < head.len() implies #[trigger] head[i] != 'm' by {
                if i > 0 {
                    assert(head[i] == tail[i - 1]);
                }
            }
        }
        lemma_seen_sequence(head, after);
        let end = "\u{1b}[0m"@ + rest;
        assert(after == text + end);
        lemma_seen_plain(text, end);
        assert(end[0] == '\u{1b}');
        let reset = seq!['[', '0'];
        assert(end.skip(1) == reset + seq!['m'] + rest);
        assert(without_m(reset));
        lemma_seen_sequence(reset, rest);
    }
}

/// Whether no span of a line has an escape character.
pub open spec fn is_plain_line(line: Seq<SpanModel>) -> bool {
    forall|i: int| 0 <= i < line.len() ==> is_plain((#[trigger] line[i]).text)
}

proof fn lemma_seen_line(line: Seq<SpanModel>, r: Seq<char>, rest: Seq<char>)
    requires
        is_plain_line(line),
        is_rendering(line, r),
    ensures
        seen(r + rest, false) == line_text(line) + seen(rest, false),
    decreases line.len(),
{
    if line.len() == 0 {
        assert(r + rest == rest);
        assert(line_text(line) + seen(rest, false) == seen(rest, false));
    } else {
        let (a, b) = choose|a: Seq<char>, b: Seq<char>|
            r == #[trigger] (a + b) && is_rendering(line.drop_last(), a) && is_shown(
                line.last(),
                b,
            );
        let last = line.last();
        assert(is_plain(line[line.len() - 1].text));
        assert forall|i: int| 0 <= i < line.drop_last().len() implies is_plain(
            (#[trigger] line.drop_last()[i]).text,
        ) by {
            assert(line[i] == line.drop_last()[i]);
        }
        lemma_seen_line(line.drop_last(), a, b + rest);
        assert(r + rest == a + (b + rest));
        match last.look {
            None => {
                lemma_seen_plain(last.text, rest);
            },
            Some((c, style)) => {
                lemma_seen_painting(last.text, rgb(c), style, b, rest);
            },
        }
        assert(line_text(line.drop_last()) + (last.text + seen(rest, false)) == line_text(line)
            + seen(rest, false));
    }
}

/// Whatever colours the environment has, a terminal shows the text of a line.
pub proof fn law_colour_never_changes_what_is_seen(line: Seq<SpanModel>, r: Seq<char>)
    requires
        is_plain_line(line),
        is_rendering(line, r),
    ensures
        seen(r, false) == line_text(line),
{
    lemma_seen_line(line, r, Seq::empty());
    assert(r + Seq::<char>::empty() == r);
    assert(line_text(line) + Seq::<char>::empty() == line_text(line));
}

// ── the palette ─────────────────────────────────────────────────────────────

pub const NEON_CYAN: Color = 0x00_f7_ff;

pub const NEON_MAGENTA: Color = 0xff_00_c7;

pub const NEON_YELLOW: Color = 0xfc_ee_09;

pub const NEON_GREEN: Color = 0x00_ff_8c;

pub const NEON_RED: Color = 0xff_26_46;

pub const NEON_PURPLE: Color = 0xa2_00_ff;

/// Muted slate for what is inactive: empty progress, dim hints.
pub const DIM_SLATE: Color = 0x58_60_7c;

/// The palette that the terminal UI starts with.
pub fn default_palette() -> (v: Vec<Color>)
    ensures
        v@ == seq![NEON_CYAN, NEON_MAGENTA, NEON_YELLOW, NEON_GREEN, NEON_PURPLE],
{
    vec![NEON_CYAN, NEON_MAGENTA, NEON_YELLOW, NEON_GREEN, NEON_PURPLE]
}

} // verus!
