//! What is done to the terminal, step by step: text, lines and pauses.

use vstd::prelude::*;

use super::paint::{bare, bare_of, spans, tinted, Color, Span, SpanModel, Style};
use super::screen::{
    loading_done, loading_done_of, loading_frame, loading_frame_of, sheet, SCAN_SLOTS,
};
use crate::text::{chars_of, split, split_of, texts, Cut};

verus! {

/// One step on the terminal.
pub enum Print {
    /// Print without a line break.
    Text(Vec<Span>),
    /// Print with a line break.
    Line(Vec<Span>),
    /// Wait for some milliseconds.
    Pause(u64),
}

/// One step on the terminal, as a value.
pub enum PrintModel {
    Text(Seq<SpanModel>),
    Line(Seq<SpanModel>),
    Pause(nat),
}

impl View for Print {
    type V = PrintModel;

    open spec fn view(&self) -> PrintModel {
        match self {
            Print::Text(v) => PrintModel::Text(spans(v@)),
            Print::Line(v) => PrintModel::Line(spans(v@)),
            Print::Pause(ms) => PrintModel::Pause(*ms as nat),
        }
    }
}

/// Some steps, as values.
pub open spec fn prints(v: Seq<Print>) -> Seq<PrintModel> {
    v.map_values(|p: Print| p@)
}

/// The steps that print some lines.
pub open spec fn as_lines(lines: Seq<Seq<SpanModel>>) -> Seq<PrintModel> {
    lines.map_values(|l: Seq<SpanModel>| PrintModel::Line(l))
}

/// A blank line.
pub open spec fn blank_line() -> PrintModel {
    PrintModel::Line(Seq::empty())
}

/// Steps: none yet.
pub fn no_prints() -> (v: Vec<Print>)
    ensures
        prints(v@) == Seq::<PrintModel>::empty(),
{
    let v: Vec<Print> = Vec::new();
    assert(prints(v@) == Seq::<PrintModel>::empty());
    v
}

fn push(v: &mut Vec<Print>, p: Print)
    ensures
        prints(final(v)@) == prints(old(v)@).push(p@),
{
    let ghost before = v@;
    v.push(p);
    assert(prints(before.push(p)) == prints(before).push(p@));
}

/// Adds a line.
pub fn say(v: &mut Vec<Print>, line: Vec<Span>)
    ensures
        prints(final(v)@) == prints(old(v)@).push(PrintModel::Line(spans(line@))),
{
    push(v, Print::Line(line));
}

/// Adds a blank line.
pub fn say_blank(v: &mut Vec<Print>)
    ensures
        prints(final(v)@) == prints(old(v)@).push(blank_line()),
{
    let empty: Vec<Span> = Vec::new();
    assert(spans(empty@) == Seq::<SpanModel>::empty());
    push(v, Print::Line(empty));
}

/// Adds text without a line break.
pub fn put(v: &mut Vec<Print>, text: Vec<Span>)
    ensures
        prints(final(v)@) == prints(old(v)@).push(PrintModel::Text(spans(text@))),
{
    push(v, Print::Text(text));
}

/// Adds uncoloured text without a line break.
pub fn put_bare(v: &mut Vec<Print>, text: &str)
    ensures
        prints(final(v)@) == prints(old(v)@).push(PrintModel::Text(seq![bare(text@)])),
{
    let mut t: Vec<Span> = Vec::new();
    t.push(bare_of(text));
    assert(spans(t@) == seq![bare(text@)]);
    push(v, Print::Text(t));
}

/// Adds a pause.
pub fn pause(v: &mut Vec<Print>, ms: u64)
    ensures
        prints(final(v)@) == prints(old(v)@).push(PrintModel::Pause(ms as nat)),
{
    push(v, Print::Pause(ms));
}

/// Adds some lines.
pub fn say_all(v: &mut Vec<Print>, lines: Vec<Vec<Span>>)
    ensures
        prints(final(v)@) == prints(old(v)@) + as_lines(sheet(lines@)),
{
    let ghost start = prints(v@);
    let ghost all = as_lines(sheet(lines@));
    let mut rest = lines;
    let mut back: Vec<Vec<Span>> = Vec::new();
    let n = rest.len();
    let ghost source = rest@;
    let mut i: usize = 0;
    while i < n
        invariant
            i <= n,
            n == source.len(),
            rest@ == source.take(n - i),
            back@.len() == i,
            forall|k: int| 0 <= k < i ==> #[trigger] back@[k] == source[n - 1 - k],
        decreases n - i,
    {
        match rest.pop() {
            Some(l) => back.push(l),
            None => {
                assert(false);
            },
        }
        i = i + 1;
    }
    let mut k: usize = 0;
    assert(start + all.take(0) == start);
    while k < n
        invariant
            k <= n,
            n == source.len(),
            all == as_lines(sheet(source)),
            back@.len() == n - k,
            forall|j: int| 0 <= j < n - k ==> #[trigger] back@[j] == source[n - 1 - j],
            prints(v@) == start + all.take(k as int),
        decreases n - k,
    {
        match back.pop() {
            Some(l) => {
                assert(l == source[k as int]);
                assert(all[k as int] == PrintModel::Line(spans(l@)));
                say(v, l);
                assert((start + all.take(k as int)).push(all[k as int]) == start + all.take(
                    k + 1,
                ));
            },
            None => {
                assert(false);
            },
        }
        k = k + 1;
    }
    assert(all.take(n as int) == all);
}

/// Adds the steps of another script.
pub fn chain(v: &mut Vec<Print>, more: Vec<Print>)
    ensures
        prints(final(v)@) == prints(old(v)@) + prints(more@),
{
    let mut rest = more;
    let ghost a = v@;
    let ghost b = rest@;
    v.append(&mut rest);
    assert(prints(a + b) == prints(a) + prints(b));
}

// ── typing ──────────────────────────────────────────────────────────────────

/// The steps that type a word, character by character.
pub open spec fn typed_word(word: Seq<char>, delay: nat, color: Color) -> Seq<PrintModel>
    decreases word.len(),
{
    if word.len() == 0 {
        Seq::empty()
    } else {
        typed_word(word.drop_last(), delay, color) + seq![
            PrintModel::Text(seq![tinted(seq![word.last()], color)]),
            PrintModel::Pause(delay),
        ]
    }
}

/// The number of words that are not empty.
pub open spec fn word_count(words: Seq<Seq<char>>) -> nat
    decreases words.len(),
{
    if words.len() == 0 {
        0
    } else if words.last().len() == 0 {
        word_count(words.drop_last())
    } else {
        word_count(words.drop_last()) + 1
    }
}

/// The steps that type the words of a line, the first of them in colour `k`, each
/// with a space behind it.
pub open spec fn typed_words(
    words: Seq<Seq<char>>,
    delay: nat,
    palette: Seq<Color>,
    k: nat,
) -> Seq<PrintModel>
    decreases words.len(),
{
    if words.len() == 0 {
        Seq::empty()
    } else {
        let init = words.drop_last();
        let word = words.last();
        let color = palette[((k + word_count(init)) % palette.len()) as int];
        typed_words(init, delay, palette, k) + (if word.len() == 0 {
            Seq::empty()
        } else {
            typed_word(word, delay, color)
        }) + seq![PrintModel::Text(seq![bare(" "@)])]
    }
}

/// The number of words in some lines.
pub open spec fn words_in(lines: Seq<Seq<char>>) -> nat
    decreases lines.len(),
{
    if lines.len() == 0 {
        0
    } else {
        words_in(lines.drop_last()) + word_count(split(lines.last(), Cut::Blank))
    }
}

/// The steps that type some lines, going through the palette word by word.
pub open spec fn typed_lines(lines: Seq<Seq<char>>, delay: nat, palette: Seq<Color>) -> Seq<
    PrintModel,
>
    decreases lines.len(),
{
    if lines.len() == 0 {
        Seq::empty()
    } else {
        let init = lines.drop_last();
        typed_lines(init, delay, palette) + typed_words(
            split(lines.last(), Cut::Blank),
            delay,
            palette,
            words_in(init),
        ) + seq![blank_line()]
    }
}

/// The steps that type a text.
pub open spec fn typed(text: Seq<char>, delay: nat, palette: Seq<Color>) -> Seq<PrintModel> {
    typed_lines(split(text, Cut::Newline), delay, palette)
}

/// The steps that type a word, character by character.
pub fn typing_effect(v: &mut Vec<Print>, word: &str, delay_ms: u64, color: Color)
    ensures
        prints(final(v)@) == prints(old(v)@) + typed_word(word@, delay_ms as nat, color),
{
    let ghost start = prints(v@);
    let cs = chars_of(word);
    assert(start + typed_word(cs@.take(0), delay_ms as nat, color) == start);
    for i in 0..cs.len()
        invariant
            prints(v@) == start + typed_word(cs@.take(i as int), delay_ms as nat, color),
    {
        let mut text = String::new();
        text.push(cs[i]);
        let mut t: Vec<Span> = Vec::new();
        t.push(Span { text, look: Some((color, Style::Regular)) });
        proof {
            assert(text@ == seq![cs@[i as int]]);
            assert(spans(t@) == seq![tinted(seq![cs@[i as int]], color)]);
            assert(cs@.take(i + 1).drop_last() == cs@.take(i as int));
            assert(cs@.take(i + 1).last() == cs@[i as int]);
        }
        let ghost before = prints(v@);
        put(v, t);
        pause(v, delay_ms);
        assert(prints(v@) == before + seq![
            PrintModel::Text(seq![tinted(seq![cs@[i as int]], color)]),
            PrintModel::Pause(delay_ms as nat),
        ]);
        assert(prints(v@) == start + typed_word(cs@.take(i + 1), delay_ms as nat, color));
    }
    assert(cs@.take(cs@.len() as int) == cs@);
}

fn type_words(
    v: &mut Vec<Print>,
    words: &Vec<String>,
    delay_ms: u64,
    palette: &Vec<Color>,
    k: usize,
    Ghost(shift): Ghost<nat>,
) -> (next: usize)
    requires
        palette@.len() > 0,
        k == shift % palette@.len(),
    ensures
        prints(final(v)@) == prints(old(v)@) + typed_words(
            texts(words@),
            delay_ms as nat,
            palette@,
            shift,
        ),
        next == (shift + word_count(texts(words@))) % palette@.len(),
{
    let ghost start = prints(v@);
    let ghost all = texts(words@);
    let ghost d = delay_ms as nat;
    let n = palette.len();
    let mut at: usize = k;
    assert(start + typed_words(all.take(0), d, palette@, shift) == start);
    for i in 0..words.len()
        invariant
            palette@.len() > 0,
            n == palette@.len(),
            all == texts(words@),
            d == delay_ms,
            at == (shift + word_count(all.take(i as int))) % palette@.len(),
            prints(v@) == start + typed_words(all.take(i as int), d, palette@, shift),
    {
        let word = words[i].as_str();
        let ghost init = all.take(i as int);
        let ghost color = palette@[at as int];
        proof {
            assert(all.take(i + 1).drop_last() == init);
            assert(all.take(i + 1).last() == word@);
        }
        let ghost before = prints(v@);
        if !word.is_empty() {
            typing_effect(v, word, delay_ms, palette[at]);
            proof {
                lemma_next_color(shift + word_count(init), n as nat);
            }
            at = if at + 1 < n {
                at + 1
            } else {
                0
            };
        } else {
            assert(before + Seq::<PrintModel>::empty() == before);
        }
        let ghost middle = prints(v@);
        put_bare(v, " ");
        proof {
            let w = if word@.len() == 0 {
                Seq::empty()
            } else {
                typed_word(word@, d, color)
            };
            assert(middle == before + w);
            assert(prints(v@) == before + w + seq![PrintModel::Text(seq![bare(" "@)])]);
            assert(start + (typed_words(init, d, palette@, shift) + w + seq![
                PrintModel::Text(seq![bare(" "@)]),
            ]) == start + typed_words(init, d, palette@, shift) + w + seq![
                PrintModel::Text(seq![bare(" "@)]),
            ]);
        }
    }
    assert(all.take(all.len() as int) == all);
    at
}

proof fn lemma_next_color(a: nat, n: nat)
    requires
        n > 0,
    ensures
        (a + 1) % n == if a % n + 1 < n {
            (a % n + 1) as int
        } else {
            0
        },
{
    let q = a / n;
    let r = a % n;
    vstd::arithmetic::div_mod::lemma_fundamental_div_mod(a as int, n as int);
    if r + 1 < n {
        vstd::arithmetic::div_mod::lemma_fundamental_div_mod_converse(
            (a + 1) as int,
            n as int,
            q as int,
            (r + 1) as int,
        );
    } else {
        assert(n * q + n == n * (q + 1)) by (nonlinear_arith);
        vstd::arithmetic::div_mod::lemma_fundamental_div_mod_converse(
            (a + 1) as int,
            n as int,
            (q + 1) as int,
            0,
        );
    }
}

/// The steps that type a text, going through the palette word by word.
pub fn type_sentence(v: &mut Vec<Print>, text: &str, delay_ms: u64, palette: &Vec<Color>)
    requires
        palette@.len() > 0,
    ensures
        prints(final(v)@) == prints(old(v)@) + typed(text@, delay_ms as nat, palette@),
{
    let ghost start = prints(v@);
    let ghost d = delay_ms as nat;
    let lines = split_of(text, Cut::Newline);
    let ghost all = texts(lines@);
    let mut at: usize = 0;
    proof {
        assert(start + typed_lines(all.take(0), d, palette@) == start);
        assert(0nat % palette@.len() == 0) by (nonlinear_arith)
            requires
                palette@.len() > 0,
        ;
    }
    for i in 0..lines.len()
        invariant
            palette@.len() > 0,
            d == delay_ms,
            all == texts(lines@),
            at == words_in(all.take(i as int)) % palette@.len(),
            prints(v@) == start + typed_lines(all.take(i as int), d, palette@),
    {
        let ghost init = all.take(i as int);
        proof {
            assert(all.take(i + 1).drop_last() == init);
            assert(all.take(i + 1).last() == lines@[i as int]@);
        }
        let words = split_of(lines[i].as_str(), Cut::Blank);
        let ghost before = prints(v@);
        at = type_words(v, &words, delay_ms, palette, at, Ghost(words_in(init)));
        say_blank(v);
        proof {
            let w = typed_words(texts(words@), d, palette@, words_in(init));
            assert(prints(v@) == before + w + seq![blank_line()]);
            assert(start + typed_lines(init, d, palette@) + w + seq![blank_line()] == start + (
            typed_lines(init, d, palette@) + w + seq![blank_line()]));
        }
    }
    assert(all.take(all.len() as int) == all);
}

// ── loading bars ────────────────────────────────────────────────────────────

/// The frames of a loading bar below the `n`-th, each with its pause.
pub open spec fn loading_frames(label: Seq<char>, color: Color, n: nat) -> Seq<PrintModel>
    decreases n,
{
    if n == 0 {
        Seq::empty()
    } else {
        loading_frames(label, color, (n - 1) as nat) + seq![
            PrintModel::Text(loading_frame(label, color, (n - 1) as nat)),
            PrintModel::Pause(22),
        ]
    }
}

/// A loading bar that fills and is then done.
pub open spec fn loading(label: Seq<char>, color: Color) -> Seq<PrintModel> {
    loading_frames(label, color, SCAN_SLOTS as nat + 1) + seq![
        PrintModel::Line(loading_done(label, color)),
    ]
}

/// A loading bar that fills and is then done.
pub fn loading_bar(v: &mut Vec<Print>, label: &str, color: Color)
    ensures
        prints(final(v)@) == prints(old(v)@) + loading(label@, color),
{
    let ghost start = prints(v@);
    assert(start + loading_frames(label@, color, 0) == start);
    for step in 0..SCAN_SLOTS + 1
        invariant
            prints(v@) == start + loading_frames(label@, color, step as nat),
    {
        let ghost before = prints(v@);
        put(v, loading_frame_of(label, color, step));
        pause(v, 22);
        assert(prints(v@) == before + seq![
            PrintModel::Text(loading_frame(label@, color, step as nat)),
            PrintModel::Pause(22),
        ]);
        assert(prints(v@) == start + loading_frames(label@, color, (step + 1) as nat));
    }
    say(v, loading_done_of(label, color));
    assert(prints(v@) == start + loading(label@, color));
}

} // verus!
