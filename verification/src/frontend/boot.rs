//! The boot screen.

use vstd::prelude::*;

use super::paint::{
    bare, bare_of, bold, slanted, slanted_of, spans, tinted, tinted_of, Color, Span, SpanModel,
    Style, NEON_CYAN, NEON_GREEN, NEON_MAGENTA, NEON_PURPLE,
};
use super::screen::{divider, divider_of, sheet};
use super::script::{
    as_lines, blank_line, loading, loading_bar, prints, put_bare, say, say_all, say_blank, typed,
    type_sentence, Print, PrintModel,
};
use crate::text::{
    chars_of, piece_of, repeat_of, repeated, split, split_of, texts, trim_of, trimmed, Cut,
};

verus! {

/// The width of a letter of the word mark, in cells.
pub const TITLE_COLUMN_WIDTH: usize = 6;

/// The line below the word mark.
pub const SUBTITLE: &'static str = "// P R O F I L E R :: SYSTEM DAEMON INTERFACE //";

/// What is typed while the UI starts.
pub const INITIAL_MESSAGE: &'static str = "INITIATING DAEMON...\nRUNNING STARTUP SCRIPTS...";

/// What is typed once the UI has started.
pub const GREETING_MESSAGE: &'static str = "WELCOME TO THE SAWSKAS PROFILER MAINFRAME";

/// A line of the word mark, in a dot-matrix font.
pub open spec fn title_text(i: int) -> Seq<char> {
    if i == 0 {
        " ████  ███  █   █  ████ █   █  ███   ████ "@
    } else if i == 1 {
        "█     █   █ █   █ █     █  █  █   █ █     "@
    } else if i == 2 {
        "█     █   █ █   █ █     █ █   █   █ █     "@
    } else if i == 3 {
        " ███  █████ █ █ █  ███  ██    █████  ███  "@
    } else if i == 4 {
        "    █ █   █ █ █ █     █ █ █   █   █     █ "@
    } else if i == 5 {
        "    █ █   █ ██ ██     █ █  █  █   █     █ "@
    } else {
        "████  █   █ █   █ ████  █   █ █   █ ████  "@
    }
}

fn title_text_of(i: usize) -> (s: &'static str)
    ensures
        s@ == title_text(i as int),
{
    if i == 0 {
        " ████  ███  █   █  ████ █   █  ███   ████ "
    } else if i == 1 {
        "█     █   █ █   █ █     █  █  █   █ █     "
    } else if i == 2 {
        "█     █   █ █   █ █     █ █   █   █ █     "
    } else if i == 3 {
        " ███  █████ █ █ █  ███  ██    █████  ███  "
    } else if i == 4 {
        "    █ █   █ █ █ █     █ █ █   █   █     █ "
    } else if i == 5 {
        "    █ █   █ ██ ██     █ █  █  █   █     █ "
    } else {
        "████  █   █ █   █ ████  █   █ █   █ ████  "
    }
}

/// A text cut into pieces of six characters, each in the next colour of the
/// palette.
pub open spec fn lettered(line: Seq<char>, palette: Seq<Color>) -> Seq<SpanModel> {
    Seq::new(
        ((line.len() + 5) / 6) as nat,
        |k: int|
            bold(
                line.subrange(
                    6 * k,
                    if 6 * k + 6 < line.len() {
                        6 * k + 6
                    } else {
                        line.len() as int
                    },
                ),
                palette[k % palette.len() as int],
            ),
    )
}

/// A line of the word mark with a colour for each letter.
pub fn title_row(line: &str, palette: &Vec<Color>) -> (v: Vec<Span>)
    requires
        palette@.len() > 0,
    ensures
        spans(v@) == lettered(line@, palette@),
{
    let cs = chars_of(line);
    let n = cs.len();
    let ghost want = lettered(line@, palette@);
    let mut v: Vec<Span> = Vec::new();
    let mut at: usize = 0;
    let mut k: usize = 0;
    assert(spans(v@) == want.take(0));
    while at < n
        invariant
            palette@.len() > 0,
            cs@ == line@,
            n == cs@.len(),
            want == lettered(line@, palette@),
            at == (if 6 * k < n {
                6 * k
            } else {
                n as int
            }),
            k <= at,
            k <= (n + 5) / 6,
            spans(v@) == want.take(k as int),
        decreases n - at,
    {
        let end: usize = if n - at > TITLE_COLUMN_WIDTH {
            at + TITLE_COLUMN_WIDTH
        } else {
            n
        };
        let text = piece_of(&cs, at, end);
        let color = palette[k % palette.len()];
        let s = Span { text, look: Some((color, Style::Bold)) };
        proof {
            assert(k < want.len());
            assert(want[k as int] == s@);
            assert(want.take(k + 1) == want.take(k as int).push(want[k as int]));
            assert(spans(v@.push(s)) == spans(v@).push(s@));
        }
        v.push(s);
        at = end;
        k = k + 1;
    }
    assert(want.take(want.len() as int) == want);
    v
}

/// The word mark.
pub open spec fn title_lines(palette: Seq<Color>) -> Seq<Seq<SpanModel>> {
    Seq::new(7, |i: int| lettered(title_text(i), palette))
}

/// The word mark: big block letters, each in a colour of its own.
pub fn print_title(palette: &Vec<Color>) -> (r: Vec<Vec<Span>>)
    requires
        palette@.len() > 0,
    ensures
        sheet(r@) == title_lines(palette@),
{
    let ghost want = title_lines(palette@);
    let mut r: Vec<Vec<Span>> = Vec::new();
    assert(sheet(r@) == want.take(0));
    for i in 0..7usize
        invariant
            palette@.len() > 0,
            want == title_lines(palette@),
            sheet(r@) == want.take(i as int),
    {
        let line = title_row(title_text_of(i), palette);
        proof {
            assert(sheet(r@.push(line)) == sheet(r@).push(spans(line@)));
            assert(want.take(i + 1) == want.take(i as int).push(want[i as int]));
        }
        r.push(line);
    }
    assert(want.take(want.len() as int) == want);
    r
}

/// A text without one carriage return at its end.
pub open spec fn without_return(s: Seq<char>) -> Seq<char> {
    if s.len() > 0 && s.last() == '\r' {
        s.drop_last()
    } else {
        s
    }
}

/// The lines of a text: without their line breaks, and without an empty one at
/// the end.
pub open spec fn text_lines(s: Seq<char>) -> Seq<Seq<char>> {
    let pieces = split(s, Cut::Newline);
    let whole = pieces.drop_last().map_values(|p: Seq<char>| without_return(p));
    if pieces.last().len() == 0 {
        whole
    } else {
        whole.push(pieces.last())
    }
}

/// A banner, line by line through the palette; nothing where it is blank.
pub open spec fn banner_lines(banner: Seq<char>, palette: Seq<Color>) -> Seq<Seq<SpanModel>> {
    if trimmed(banner).len() == 0 {
        Seq::empty()
    } else {
        text_lines(banner).map(
            |i: int, l: Seq<char>| seq![tinted(l, palette[i % palette.len() as int])],
        )
    }
}

fn without_return_of(s: &str) -> (r: String)
    ensures
        r@ == without_return(s@),
{
    let v = chars_of(s);
    let n = v.len();
    if n > 0 && v[n - 1] == '\r' {
        let r = piece_of(&v, 0, n - 1);
        assert(r@ == s@.drop_last());
        r
    } else {
        s.to_owned()
    }
}

fn text_lines_of(s: &str) -> (r: Vec<String>)
    ensures
        texts(r@) == text_lines(s@),
{
    let pieces = split_of(s, Cut::Newline);
    let ghost all = texts(pieces@);
    let ghost whole = all.drop_last().map_values(|p: Seq<char>| without_return(p));
    let n = pieces.len();
    let mut r: Vec<String> = Vec::new();
    assert(texts(r@) == whole.take(0));
    for i in 0..n - 1
        invariant
            n == pieces@.len(),
            n > 0,
            all == texts(pieces@),
            whole == all.drop_last().map_values(|p: Seq<char>| without_return(p)),
            texts(r@) == whole.take(i as int),
    {
        let l = without_return_of(pieces[i].as_str());
        proof {
            assert(all.drop_last()[i as int] == pieces@[i as int]@);
            crate::text::lemma_texts_push(r@, l);
            assert(whole.take(i + 1) == whole.take(i as int).push(whole[i as int]));
        }
        r.push(l);
    }
    proof {
        assert(whole.take(n - 1) == whole);
        assert(all.last() == pieces@[n - 1]@);
    }
    if !pieces[n - 1].as_str().is_empty() {
        let l = pieces[n - 1].as_str().to_owned();
        proof {
            crate::text::lemma_texts_push(r@, l);
        }
        r.push(l);
    }
    r
}

/// A banner, line by line through the palette.
pub fn print_custom_banner(banner: &str, palette: &Vec<Color>) -> (r: Vec<Vec<Span>>)
    requires
        palette@.len() > 0,
    ensures
        sheet(r@) == banner_lines(banner@, palette@),
{
    let mut r: Vec<Vec<Span>> = Vec::new();
    if trim_of(banner).as_str().is_empty() {
        assert(sheet(r@) == Seq::<Seq<SpanModel>>::empty());
        return r;
    }
    let lines = text_lines_of(banner);
    let ghost want = banner_lines(banner@, palette@);
    assert(sheet(r@) == want.take(0));
    for i in 0..lines.len()
        invariant
            palette@.len() > 0,
            trimmed(banner@).len() != 0,
            texts(lines@) == text_lines(banner@),
            want == banner_lines(banner@, palette@),
            sheet(r@) == want.take(i as int),
    {
        let color = palette[i % palette.len()];
        let mut v: Vec<Span> = Vec::new();
        v.push(tinted_of(lines[i].as_str(), color));
        proof {
            assert(texts(lines@)[i as int] == lines@[i as int]@);
            assert(spans(v@) == want[i as int]);
            assert(sheet(r@.push(v)) == sheet(r@).push(spans(v@)));
            assert(want.take(i + 1) == want.take(i as int).push(want[i as int]));
        }
        r.push(v);
    }
    assert(want.take(want.len() as int) == want);
    r
}

/// The line below the word mark, in the middle below it where it is narrower.
pub open spec fn subtitle_line() -> Seq<SpanModel> {
    let pad = (if SUBTITLE@.len() < 42 {
        42 - SUBTITLE@.len()
    } else {
        0
    }) / 2;
    seq![bare(repeated(' ', pad + 2)), slanted(SUBTITLE@, NEON_PURPLE)]
}

fn subtitle_line_of() -> (v: Vec<Span>)
    ensures
        spans(v@) == subtitle_line(),
{
    let n = chars_of(SUBTITLE).len();
    let pad: usize = if n < 42 {
        (42 - n) / 2
    } else {
        0
    };
    let mut v: Vec<Span> = Vec::new();
    v.push(bare_of(repeat_of(' ', pad + 2).as_str()));
    v.push(slanted_of(SUBTITLE, NEON_PURPLE));
    assert(spans(v@) == subtitle_line());
    v
}

/// What clears the screen and takes the cursor to its top.
pub open spec fn cleared() -> PrintModel {
    PrintModel::Text(seq![bare("\u{1b}[2J\u{1b}[1;1H"@)])
}

/// The boot screen.
pub open spec fn boot(banner: Seq<char>, palette: Seq<Color>) -> Seq<PrintModel> {
    seq![cleared()] + as_lines(banner_lines(banner, palette)) + as_lines(title_lines(palette))
        + seq![
        PrintModel::Line(subtitle_line()),
        blank_line(),
        PrintModel::Line(divider(NEON_MAGENTA)),
    ] + typed(INITIAL_MESSAGE@, 8, palette) + seq![blank_line()] + loading("BOOTSTRAP"@, NEON_CYAN)
        + loading("NET LINK "@, NEON_MAGENTA) + loading("SECURITY "@, NEON_PURPLE) + loading(
        "CORE     "@,
        NEON_GREEN,
    ) + seq![blank_line(), PrintModel::Line(divider(NEON_MAGENTA))] + typed(
        GREETING_MESSAGE@,
        18,
        palette,
    ) + seq![PrintModel::Line(divider(NEON_MAGENTA))]
}

/// Adds the boot screen.
pub fn boot_screen(v: &mut Vec<Print>, banner: &str, palette: &Vec<Color>)
    requires
        palette@.len() > 0,
    ensures
        prints(final(v)@) == prints(old(v)@) + boot(banner@, palette@),
{
    let ghost start = prints(v@);
    let mut b: Vec<Print> = Vec::new();
    put_bare(&mut b, "\u{1b}[2J\u{1b}[1;1H");
    assert(prints(b@) == seq![cleared()]);
    say_all(&mut b, print_custom_banner(banner, palette));
    say_all(&mut b, print_title(palette));
    let ghost first = prints(b@);
    say(&mut b, subtitle_line_of());
    say_blank(&mut b);
    say(&mut b, divider_of(NEON_MAGENTA));
    assert(prints(b@) == first + seq![
        PrintModel::Line(subtitle_line()),
        blank_line(),
        PrintModel::Line(divider(NEON_MAGENTA)),
    ]);
    type_sentence(&mut b, INITIAL_MESSAGE, 8, palette);
    let ghost second = prints(b@);
    say_blank(&mut b);
    assert(prints(b@) == second + seq![blank_line()]);
    loading_bar(&mut b, "BOOTSTRAP", NEON_CYAN);
    loading_bar(&mut b, "NET LINK ", NEON_MAGENTA);
    loading_bar(&mut b, "SECURITY ", NEON_PURPLE);
    loading_bar(&mut b, "CORE     ", NEON_GREEN);
    let ghost third = prints(b@);
    say_blank(&mut b);
    say(&mut b, divider_of(NEON_MAGENTA));
    assert(prints(b@) == third + seq![blank_line(), PrintModel::Line(divider(NEON_MAGENTA))]);
    type_sentence(&mut b, GREETING_MESSAGE, 18, palette);
    let ghost fourth = prints(b@);
    say(&mut b, divider_of(NEON_MAGENTA));
    assert(prints(b@) == fourth + seq![PrintModel::Line(divider(NEON_MAGENTA))]);
    assert(prints(b@) == boot(banner@, palette@));
    super::script::chain(v, b);
}

} // verus!
