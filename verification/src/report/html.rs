//! A self-contained HTML report with inline SVG graphs.

use vstd::arithmetic::power2::{lemma_pow2_adds, lemma_pow2_pos, pow2};
use vstd::prelude::*;

use super::{
    base_name, basename, bucket_total, bucket_total_of, first_uncached, first_uncached_of, mode_of,
    mode_word, sums_fit, total_nanos, total_nanos_of, total_read, total_read_of, Report, ReportModel,
    SortKey,
};
use crate::binary64::{
    lemma_exponent_at_least, lemma_exponent_at_most, lemma_nearest_at_most, lemma_whole_exponent,
    Binary64,
};
use crate::chart::{bar, bar_of, full_scale, full_scale_of, is_scale};
use crate::human::{human_bytes, human_bytes_text, human_ns, human_ns_text};
use crate::interrupt::bulk::{BulkMeasurement, ThreadStat};
use crate::interrupt::hardware_interrupt::{
    FileMeasurement, LATENCY_BOUNDS_NS, LATENCY_BUCKETS,
};
use crate::interrupt::random::RandomMeasurement;
use crate::interrupt::sweep::{best_point, SweepPoint, SweepResult};
use crate::interrupt::write::WriteMeasurement;
use crate::order::stable_order;
use crate::rate::{mib_per_second, mib_per_second_of, millis, millis_of};
use crate::text::{
    concat, concat_of, decimal, decimal_of, expanded, lemma_expanded_add, lemma_texts_push, texts,
};

verus! {

/// The page up to its title.
pub const PAGE_START: &'static str = r#"<!DOCTYPE html>
<html lang="en"><head><meta charset="utf-8">
<meta name="viewport" content="width=device-width, initial-scale=1">
<title>SAWSKAS PROFILER · "#;

/// From behind the title to the kind of report in the heading.
pub const PAGE_STYLE: &'static str = r#"</title>
<style>
:root { --bg:#0a0e14; --panel:#11161f; --line:#1d2735; --text:#c8d3e0; --dim:#58607c;
  --green:#00ff8c; --cyan:#00f7ff; --magenta:#ff00c7; --yellow:#fcee09; }
* { box-sizing:border-box; }
body { margin:0; background:var(--bg); color:var(--text);
  font:14px/1.5 ui-monospace,SFMono-Regular,Menlo,Consolas,monospace; padding:28px; }
header h1 { margin:0; font-size:22px; letter-spacing:2px;
  background:linear-gradient(90deg,var(--cyan),var(--magenta));
  -webkit-background-clip:text; background-clip:text; color:transparent; }
header .sub { color:var(--dim); margin-top:4px; }
header .sub b { color:var(--yellow); font-weight:600; }
.cards { display:flex; flex-wrap:wrap; gap:14px; margin:22px 0; }
.card { background:var(--panel); border:1px solid var(--line); border-radius:10px;
  padding:14px 18px; min-width:150px; flex:1; }
.card .clab { color:var(--dim); font-size:11px; letter-spacing:1px; }
.card .cval { color:var(--green); font-size:20px; font-weight:600; margin-top:4px; }
.chart { background:var(--panel); border:1px solid var(--line); border-radius:10px;
  padding:16px 18px; margin:18px 0; overflow-x:auto; }
.chart h2 { margin:0 0 12px; font-size:13px; letter-spacing:1px; color:var(--cyan);
  text-transform:uppercase; }
svg { width:100%; height:auto; }
.blab { fill:var(--text); font-size:12px; }
.bval { fill:var(--dim); font-size:11px; }
table { width:100%; border-collapse:collapse; font-size:12px; }
th,td { text-align:left; padding:6px 10px; border-bottom:1px solid var(--line); }
th { color:var(--dim); font-weight:600; }
td { color:var(--text); }
.r { text-align:right; }
footer { color:var(--dim); margin-top:24px; font-size:11px; }
</style></head>
<body>
<header>
  <h1>SAWSKAS PROFILER</h1>
  <div class="sub">"#;

// ── text ────────────────────────────────────────────────────────────────────

/// How a character is written in HTML text.
pub open spec fn escaped_char(c: char) -> Seq<char> {
    if c == '&' {
        "&amp;"@
    } else if c == '<' {
        "&lt;"@
    } else if c == '>' {
        "&gt;"@
    } else if c == '"' {
        "&quot;"@
    } else {
        seq![c]
    }
}

/// How a text is written in HTML.
pub open spec fn escaped(s: Seq<char>) -> Seq<char> {
    expanded(s, |c: char| escaped_char(c))
}

/// Escapes a text for HTML, for the inside of a quoted attribute too.
pub fn esc(s: &str) -> (r: String)
    ensures
        r@ == escaped(s@),
{
    let mut r = String::new();
    let ghost f = |c: char| escaped_char(c);
    for c in it: s.chars()
        invariant
            it.seq() == s@,
            f == (|c: char| escaped_char(c)),
            r@ == expanded(it.seq().take(it.index()), f),
    {
        let ghost i = it.index();
        let ghost before = r@;
        proof {
            assert(it.seq().take(i + 1).drop_last() == it.seq().take(i));
            assert(it.seq().take(i + 1).last() == c);
        }
        if c == '&' {
            r.append("&amp;");
        } else if c == '<' {
            r.append("&lt;");
        } else if c == '>' {
            r.append("&gt;");
        } else if c == '"' {
            r.append("&quot;");
        } else {
            r.push(c);
        }
        assert(r@ == before + escaped_char(c));
    }
    assert(s@.take(s@.len() as int) == s@);
    r
}

/// What an HTML text stands for, as far as the entities of escaped text go.
pub open spec fn unescaped(s: Seq<char>) -> Seq<char>
    decreases s.len(),
{
    if s.len() == 0 {
        Seq::empty()
    } else if "&amp;"@.is_prefix_of(s) && "&amp;"@.len() > 0 {
        seq!['&'] + unescaped(s.skip("&amp;"@.len() as int))
    } else if "&lt;"@.is_prefix_of(s) && "&lt;"@.len() > 0 {
        seq!['<'] + unescaped(s.skip("&lt;"@.len() as int))
    } else if "&gt;"@.is_prefix_of(s) && "&gt;"@.len() > 0 {
        seq!['>'] + unescaped(s.skip("&gt;"@.len() as int))
    } else if "&quot;"@.is_prefix_of(s) && "&quot;"@.len() > 0 {
        seq!['"'] + unescaped(s.skip("&quot;"@.len() as int))
    } else {
        seq![s[0]] + unescaped(s.skip(1))
    }
}

proof fn lemma_prefix(p: Seq<char>, rest: Seq<char>)
    ensures
        p.is_prefix_of(p + rest),
        (p + rest).skip(p.len() as int) == rest,
{
    assert((p + rest).subrange(0, p.len() as int) == p);
    assert((p + rest).skip(p.len() as int) == rest);
}

proof fn lemma_character_unescapes(c: char, rest: Seq<char>)
    ensures
        unescaped(escaped_char(c) + rest) == seq![c] + unescaped(rest),
{
    reveal_strlit("&amp;");
    reveal_strlit("&lt;");
    reveal_strlit("&gt;");
    reveal_strlit("&quot;");
    let e = escaped_char(c);
    let all = e + rest;
    lemma_prefix(e, rest);
    if c == '&' {
    } else if c == '<' {
        assert(all[1] == 'l' && "&amp;"@[1] == 'a');
        assert(!"&amp;"@.is_prefix_of(all));
    } else if c == '>' {
        assert(all[1] == 'g' && "&amp;"@[1] == 'a' && "&lt;"@[1] == 'l');
        assert(!"&amp;"@.is_prefix_of(all));
        assert(!"&lt;"@.is_prefix_of(all));
    } else if c == '"' {
        assert(all[1] == 'q' && "&amp;"@[1] == 'a' && "&lt;"@[1] == 'l' && "&gt;"@[1] == 'g');
        assert(!"&amp;"@.is_prefix_of(all));
        assert(!"&lt;"@.is_prefix_of(all));
        assert(!"&gt;"@.is_prefix_of(all));
    } else {
        assert(all[0] == c);
        assert("&amp;"@[0] == '&' && "&lt;"@[0] == '&' && "&gt;"@[0] == '&' && "&quot;"@[0]
            == '&');
        assert(!"&amp;"@.is_prefix_of(all));
        assert(!"&lt;"@.is_prefix_of(all));
        assert(!"&gt;"@.is_prefix_of(all));
        assert(!"&quot;"@.is_prefix_of(all));
        assert(all.skip(1) == rest);
    }
}

/// An escaped text stands for the text that it was made of.
pub proof fn law_escaped_text_reads_back(s: Seq<char>)
    ensures
        unescaped(escaped(s)) == s,
    decreases s.len(),
{
    let f = |c: char| escaped_char(c);
    if s.len() > 0 {
        let c = s[0];
        let tail = s.skip(1);
        law_escaped_text_reads_back(tail);
        lemma_expanded_add(seq![c], tail, f);
        assert(seq![c] + tail == s);
        assert(expanded(seq![c], f) == escaped_char(c)) by {
            assert(seq![c].drop_last() == Seq::<char>::empty());
            assert(expanded(Seq::<char>::empty(), f) == Seq::<char>::empty());
        }
        lemma_character_unescapes(c, escaped(tail));
    } else {
        assert(escaped(s) == Seq::<char>::empty());
        assert(s == Seq::<char>::empty());
    }
}

/// An escaped text has no character that ends a text or an attribute.
pub proof fn law_escaped_text_has_no_markup(s: Seq<char>, i: int)
    requires
        0 <= i < escaped(s).len(),
    ensures
        escaped(s)[i] != '<' && escaped(s)[i] != '>' && escaped(s)[i] != '"',
    decreases s.len(),
{
    reveal_strlit("&amp;");
    reveal_strlit("&lt;");
    reveal_strlit("&gt;");
    reveal_strlit("&quot;");
    if s.len() > 0 {
        let init = s.drop_last();
        if i < escaped(init).len() {
            law_escaped_text_has_no_markup(init, i);
        } else {
            assert(escaped(s)[i] == escaped_char(s.last())[i - escaped(init).len()]);
        }
    }
}

// ── a horizontal bar chart ──────────────────────────────────────────────────

/// One bar of a chart.
pub struct Bar {
    pub label: String,
    pub value: Binary64,
    pub shown: String,
}

/// One bar of a chart, as a value.
pub struct BarModel {
    pub label: Seq<char>,
    pub value: Binary64,
    pub shown: Seq<char>,
}

impl View for Bar {
    type V = BarModel;

    open spec fn view(&self) -> BarModel {
        BarModel { label: self.label@, value: self.value, shown: self.shown@ }
    }
}

/// Some bars, as values.
pub open spec fn bars(rows: Seq<Bar>) -> Seq<BarModel> {
    rows.map_values(|b: Bar| b@)
}

proof fn lemma_bars_push(rows: Seq<Bar>, b: Bar)
    ensures
        bars(rows.push(b)) == bars(rows).push(b@),
{
    assert(bars(rows.push(b)) == bars(rows).push(b@));
}

/// The value of a full bar in a chart.
pub open spec fn chart_scale(rows: Seq<BarModel>) -> Binary64 {
    full_scale(rows.map_values(|b: BarModel| b.value))
}

/// The width of a bar: in proportion, and at least two units.
pub open spec fn bar_width(value: Binary64, full: Binary64) -> Binary64 {
    bar(value, full, 440).larger(Binary64::whole(2))
}

/// Where the text behind a bar begins.
pub open spec fn text_place(width: Binary64) -> Binary64 {
    Binary64::whole(250).plus(width).plus(Binary64::whole(8))
}

/// The bar in row `i` with its texts.
pub open spec fn bar_text(i: nat, b: BarModel, full: Binary64, color: Seq<char>) -> Seq<char> {
    let width = bar_width(b.value, full);
    "<rect x=\"250\" y=\""@ + decimal(i * 30 + 12) + "\" width=\""@ + width.fixed(1)
        + "\" height=\"18\" rx=\"3\" fill=\""@ + color + "\" opacity=\"0.85\"><title>"@ + escaped(
        b.shown,
    ) + "</title></rect><text x=\"240\" y=\""@ + decimal(i * 30 + 26)
        + "\" text-anchor=\"end\" class=\"blab\">"@ + escaped(b.label) + "</text><text x=\""@
        + text_place(width).fixed(1) + "\" y=\""@ + decimal(i * 30 + 26) + "\" class=\"bval\">"@
        + escaped(b.shown) + "</text>"@
}

/// A chart of some bars, all to the same scale; nothing where there are none.
pub open spec fn chart_text(title: Seq<char>, rows: Seq<BarModel>, color: Seq<char>) -> Seq<char> {
    if rows.len() == 0 {
        ""@
    } else {
        "<section class=\"chart\"><h2>"@ + escaped(title) + "</h2><svg viewBox=\"0 0 800 "@
            + decimal(rows.len() * 30 + 16)
            + "\" role=\"img\" preserveAspectRatio=\"xMinYMin meet\">"@ + concat(
            Seq::new(rows.len(), |i: int| bar_text(i as nat, rows[i], chart_scale(rows), color)),
        ) + "</svg></section>"@
    }
}

fn small_whole(n: u64, Ghost(k): Ghost<nat>) -> (r: Binary64)
    requires
        0 < n < 0x10_0000_0000_0000,
        k < 52,
        pow2(k) <= n < pow2(k + 1),
    ensures
        r == Binary64::whole(n as nat),
        r.moderate(),
        r.mantissa > 0,
        r.exponent == k - 52,
        r.units() == n * pow2(1074),
{
    let r = Binary64::from_u64(n);
    proof {
        lemma_whole_exponent(r, n as nat, k);
        let u = pow2((-r.exponent) as nat);
        let v = pow2((r.exponent + 1074) as nat);
        lemma_pow2_adds((-r.exponent) as nat, (r.exponent + 1074) as nat);
        assert((n * u) * v == n * (u * v)) by (nonlinear_arith);
    }
    r
}

fn bar_width_of(value: Binary64, full: Binary64) -> (r: Binary64)
    requires
        value.wf(),
        is_scale(full),
        value.units() <= full.units(),
    ensures
        r == bar_width(value, full),
        r.moderate(),
        r.mantissa > 0,
        -52 <= r.exponent < -42,
        r.units() <= 440 * pow2(1074),
{
    proof {
        vstd::arithmetic::power2::lemma2_to64();
        lemma_pow2_pos(1074);
    }
    let two = small_whole(2, Ghost(1));
    let r = match bar_of(value, full, 440) {
        Some(b) => b.max_with(two),
        None => two,
    };
    proof {
        assert(r.units() >= 2 * pow2(1074));
        lemma_exponent_at_least(r);
        lemma_exponent_at_most(r);
    }
    r
}

fn text_place_of(width: Binary64) -> (r: Binary64)
    requires
        width.moderate(),
        width.mantissa > 0,
        -52 <= width.exponent < -42,
        width.units() <= 440 * pow2(1074),
    ensures
        r == text_place(width),
        r.wf(),
        r.exponent <= 44,
{
    proof {
        vstd::arithmetic::power2::lemma2_to64();
        lemma_pow2_pos(1074);
    }
    let start = small_whole(250, Ghost(7));
    let gap = small_whole(8, Ghost(3));
    let end = if width.exponent <= start.exponent {
        width.add_to(start)
    } else {
        start.add_to(width)
    };
    proof {
        assert(width.units() + start.units() == start.units() + width.units());
        assert(end == start.plus(width));
        lemma_nearest_at_most(start.units() + width.units(), pow2(1074), 690);
        lemma_exponent_at_most(end);
    }
    let r = if end.exponent <= gap.exponent {
        end.add_to(gap)
    } else {
        gap.add_to(end)
    };
    proof {
        assert(end.units() + gap.units() == gap.units() + end.units());
    }
    r
}

fn bar_text_of(i: usize, b: &Bar, full: Binary64, color: &str) -> (s: String)
    requires
        b.value.wf(),
        is_scale(full),
        b.value.units() <= full.units(),
    ensures
        s@ == bar_text(i as nat, b@, full, color@),
{
    let width = bar_width_of(b.value, full);
    let place = text_place_of(width);
    let y: u128 = i as u128 * 30;
    let mut s = "<rect x=\"250\" y=\"".to_owned();
    s.append(decimal_of(y + 12).as_str());
    s.append("\" width=\"");
    s.append(width.fixed_of(1).as_str());
    s.append("\" height=\"18\" rx=\"3\" fill=\"");
    s.append(color);
    s.append("\" opacity=\"0.85\"><title>");
    s.append(esc(b.shown.as_str()).as_str());
    s.append("</title></rect><text x=\"240\" y=\"");
    s.append(decimal_of(y + 26).as_str());
    s.append("\" text-anchor=\"end\" class=\"blab\">");
    s.append(esc(b.label.as_str()).as_str());
    s.append("</text><text x=\"");
    s.append(place.fixed_of(1).as_str());
    s.append("\" y=\"");
    s.append(decimal_of(y + 26).as_str());
    s.append("\" class=\"bval\">");
    s.append(esc(b.shown.as_str()).as_str());
    s.append("</text>");
    s
}

/// Renders a chart of `rows`, all to the same scale.
pub fn bar_chart(title: &str, rows: &Vec<Bar>, color: &str) -> (s: String)
    requires
        forall|i: int| 0 <= i < rows@.len() ==> (#[trigger] rows@[i]).value.wf(),
    ensures
        s@ == chart_text(title@, bars(rows@), color@),
{
    if rows.len() == 0 {
        return "".to_owned();
    }
    let ghost models = bars(rows@);
    let mut values: Vec<Binary64> = Vec::new();
    for i in 0..rows.len()
        invariant
            forall|i: int| 0 <= i < rows@.len() ==> (#[trigger] rows@[i]).value.wf(),
            values@.len() == i,
            forall|k: int| 0 <= k < i ==> #[trigger] values@[k] == rows@[k].value,
    {
        values.push(rows[i].value);
    }
    proof {
        assert forall|i: int| 0 <= i < values@.len() implies (#[trigger] values@[i]).wf() by {
            assert(rows@[i].value.wf());
        }
        assert(values@ == models.map_values(|b: BarModel| b.value));
    }
    let full = full_scale_of(&values);
    let ghost want = Seq::new(
        models.len(),
        |i: int| bar_text(i as nat, models[i], full, color@),
    );
    let mut parts: Vec<String> = Vec::new();
    for i in 0..rows.len()
        invariant
            forall|i: int| 0 <= i < rows@.len() ==> (#[trigger] rows@[i]).value.wf(),
            models == bars(rows@),
            values@.len() == rows@.len(),
            forall|k: int| 0 <= k < rows@.len() ==> #[trigger] values@[k] == rows@[k].value,
            forall|k: int| 0 <= k < values@.len() ==> (#[trigger] values@[k]).units() <= full.units(),
            is_scale(full),
            want == Seq::new(
                models.len(),
                |i: int| bar_text(i as nat, models[i], full, color@),
            ),
            texts(parts@) == want.take(i as int),
    {
        assert(values@[i as int] == rows@[i as int].value);
        let part = bar_text_of(i, &rows[i], full, color);
        proof {
            lemma_texts_push(parts@, part);
            assert(want.take(i + 1) == want.take(i as int).push(want[i as int]));
        }
        parts.push(part);
    }
    assert(want.take(want.len() as int) == want);
    let mut s = "<section class=\"chart\"><h2>".to_owned();
    s.append(esc(title).as_str());
    s.append("</h2><svg viewBox=\"0 0 800 ");
    s.append(decimal_of(rows.len() as u128 * 30 + 16).as_str());
    s.append("\" role=\"img\" preserveAspectRatio=\"xMinYMin meet\">");
    s.append(concat_of(&parts).as_str());
    s.append("</svg></section>");
    assert(want == Seq::new(
        models.len(),
        |i: int| bar_text(i as nat, models[i], chart_scale(models), color@),
    ));
    s
}

// ── cards ───────────────────────────────────────────────────────────────────

/// A labelled value at the top of a report.
pub open spec fn card(label: Seq<char>, value: Seq<char>) -> Seq<char> {
    "<div class=\"card\"><div class=\"clab\">"@ + escaped(label) + "</div><div class=\"cval\">"@
        + escaped(value) + "</div></div>"@
}

/// A row of cards.
pub open spec fn cards_text(items: Seq<Seq<char>>) -> Seq<char> {
    "<div class=\"cards\">"@ + concat(items) + "</div>"@
}

fn card_of(label: &str, value: &str) -> (s: String)
    ensures
        s@ == card(label@, value@),
{
    let mut s = "<div class=\"card\"><div class=\"clab\">".to_owned();
    s.append(esc(label).as_str());
    s.append("</div><div class=\"cval\">");
    s.append(esc(value).as_str());
    s.append("</div></div>");
    s
}

/// Renders a row of cards.
pub fn cards(items: &Vec<String>) -> (s: String)
    ensures
        s@ == cards_text(texts(items@)),
{
    let mut s = "<div class=\"cards\">".to_owned();
    s.append(concat_of(items).as_str());
    s.append("</div>");
    s
}

/// A throughput with `p` digits behind the point.
pub open spec fn rate_text(rate: Binary64, p: nat) -> Seq<char> {
    rate.fixed(p) + " MiB/s"@
}

fn rate_text_of(rate: Binary64, p: u32) -> (s: String)
    requires
        rate.wf(),
        rate.exponent <= 44,
        p <= 4,
    ensures
        s@ == rate_text(rate, p as nat),
{
    let mut s = rate.fixed_of(p);
    s.append(" MiB/s");
    s
}

/// A length of time in milliseconds with two digits behind the point.
pub open spec fn millis_text(nanos: nat) -> Seq<char> {
    millis(nanos).fixed(2) + " ms"@
}

fn millis_text_of(nanos: u64) -> (s: String)
    ensures
        s@ == millis_text(nanos as nat),
{
    let mut s = millis_of(nanos).fixed_of(2);
    s.append(" ms");
    s
}

// ── profile ─────────────────────────────────────────────────────────────────

/// The cards of a profile report.
pub open spec fn profile_cards(files: Seq<FileMeasurement>) -> Seq<char> {
    cards_text(
        seq![
            card("FILES"@, decimal(files.len())),
            card("TOTAL SIZE"@, human_bytes_text(total_read(files))),
            card(
                "AGG THROUGHPUT"@,
                rate_text(mib_per_second(total_read(files), total_nanos(files)), 1),
            ),
            card("READ TIME"@, millis_text(total_nanos(files))),
            card("READ MODE"@, mode_word(first_uncached(files))),
        ],
    )
}

/// The throughput bar of a file.
pub open spec fn file_bar(m: FileMeasurement) -> BarModel {
    BarModel { label: base_name(m.path@), value: m.rate(), shown: rate_text(m.rate(), 1) }
}

/// The throughput bars: the slowest thirty files, slowest first.
pub open spec fn file_bars(files: Seq<FileMeasurement>) -> Seq<BarModel> {
    let sorted = SortKey::Throughput.sorted(files);
    sorted.take(
        if sorted.len() < 30 {
            sorted.len() as int
        } else {
            30
        },
    ).map_values(|m: FileMeasurement| file_bar(m))
}

/// The latencies that belong to a bucket.
pub open spec fn bucket_label(b: int) -> Seq<char> {
    if b < 13 {
        "≤ "@ + human_ns_text(LATENCY_BOUNDS_NS@[b] as nat)
    } else {
        "> "@ + human_ns_text(LATENCY_BOUNDS_NS@[12] as nat)
    }
}

/// The bars of the buckets below `n` that have chunks.
pub open spec fn bucket_bars(files: Seq<FileMeasurement>, n: int) -> Seq<BarModel>
    decreases n,
{
    if n <= 0 {
        Seq::empty()
    } else {
        let count = bucket_total(files, n - 1);
        let init = bucket_bars(files, n - 1);
        if count > 0 {
            init.push(
                BarModel {
                    label: bucket_label(n - 1),
                    value: Binary64::whole(count),
                    shown: decimal(count),
                },
            )
        } else {
            init
        }
    }
}

/// A table cell, from its start tag to its end tag.
pub open spec fn cell(start: Seq<char>, inner: Seq<char>, end: Seq<char>) -> Seq<char> {
    start + inner + end
}

/// A table cell with a number, aligned to the right.
pub open spec fn number_cell(inner: Seq<char>) -> Seq<char> {
    cell("<td class=\"r\">"@, inner, "</td>"@)
}

/// A column heading, aligned to the right.
pub open spec fn number_heading(inner: Seq<char>) -> Seq<char> {
    cell("<th class=\"r\">"@, inner, "</th>"@)
}

/// The cells of a file's table row.
pub open spec fn row_cells(m: FileMeasurement) -> Seq<Seq<char>> {
    seq![
        cell("<td>"@, escaped(m.path@), "</td>"@),
        number_cell(human_bytes_text(m.size_bytes as nat)),
        number_cell(rate_text(m.rate(), 1)),
        number_cell(decimal(m.avg_nanos()) + " ns"@),
        number_cell(decimal(m.percentile(99)) + " ns"@),
        number_cell(decimal(m.chunk_count as nat)),
    ]
}

/// A table row of some cells.
pub open spec fn table_row(cells: Seq<Seq<char>>) -> Seq<char> {
    "<tr>"@ + concat(cells) + "</tr>"@
}

/// The table row of a file.
pub open spec fn file_row(m: FileMeasurement) -> Seq<char> {
    table_row(row_cells(m))
}

/// The headings of the table of the files.
pub open spec fn file_headings() -> Seq<Seq<char>> {
    seq![
        cell("<th>"@, "path"@, "</th>"@),
        number_heading("size"@),
        number_heading("throughput"@),
        number_heading("avg"@),
        number_heading("p99"@),
        number_heading("chunks"@),
    ]
}

/// The table itself.
pub open spec fn bare_table(files: Seq<FileMeasurement>) -> Seq<char> {
    "<table><thead>"@ + table_row(file_headings()) + "</thead><tbody>"@ + concat(
        files.map_values(|m: FileMeasurement| file_row(m)),
    ) + "</tbody></table>"@
}

/// The section with the table of the files.
pub open spec fn file_table(files: Seq<FileMeasurement>) -> Seq<char> {
    "<section class=\"chart\"><h2>Files</h2>"@ + bare_table(files) + "</section>"@
}

/// The cards and the charts of a profile report.
pub open spec fn profile_charts(files: Seq<FileMeasurement>) -> Seq<char> {
    profile_cards(files) + chart_text(
        "Read throughput per file (slowest first)"@,
        file_bars(files),
        "#00ff8c"@,
    ) + chart_text("Read-latency distribution (chunks)"@, bucket_bars(files, 14), "#00f7ff"@)
}

/// The body of a profile report.
pub open spec fn profile_text(files: Seq<FileMeasurement>) -> Seq<char> {
    profile_charts(files) + file_table(files)
}

fn profile_cards_of(files: &Vec<FileMeasurement>) -> (s: String)
    requires
        sums_fit(files@),
    ensures
        s@ == profile_cards(files@),
{
    let bytes = total_read_of(files);
    let nanos = total_nanos_of(files);
    let mut v: Vec<String> = Vec::new();
    v.push(card_of("FILES", decimal_of(files.len() as u128).as_str()));
    v.push(card_of("TOTAL SIZE", human_bytes(bytes).as_str()));
    v.push(card_of("AGG THROUGHPUT", rate_text_of(mib_per_second_of(bytes, nanos), 1).as_str()));
    v.push(card_of("READ TIME", millis_text_of(nanos).as_str()));
    v.push(card_of("READ MODE", mode_of(first_uncached_of(files))));
    assert(texts(v@) == seq![
        card("FILES"@, decimal(files@.len())),
        card("TOTAL SIZE"@, human_bytes_text(total_read(files@))),
        card(
            "AGG THROUGHPUT"@,
            rate_text(mib_per_second(total_read(files@), total_nanos(files@)), 1),
        ),
        card("READ TIME"@, millis_text(total_nanos(files@))),
        card("READ MODE"@, mode_word(first_uncached(files@))),
    ]);
    cards(&v)
}

fn file_bars_of(files: &Vec<FileMeasurement>) -> (r: Vec<Bar>)
    ensures
        bars(r@) == file_bars(files@),
        forall|i: int| 0 <= i < r@.len() ==> (#[trigger] r@[i]).value.wf(),
{
    let order = SortKey::Throughput.order_of(files);
    let ghost sorted = SortKey::Throughput.sorted(files@);
    let n: usize = if order.len() < 30 {
        order.len()
    } else {
        30
    };
    let mut r: Vec<Bar> = Vec::new();
    for i in 0..n
        invariant
            n <= order@.len(),
            order@ == stable_order(SortKey::Throughput.places(files@)),
            sorted == SortKey::Throughput.sorted(files@),
            forall|i: int| 0 <= i < order@.len() ==> #[trigger] order@[i] < files@.len(),
            n == if sorted.len() < 30 {
                sorted.len() as int
            } else {
                30
            },
            bars(r@) == file_bars(files@).take(i as int),
            forall|k: int| 0 <= k < r@.len() ==> (#[trigger] r@[k]).value.wf(),
    {
        let m = &files[order[i]];
        let rate = m.throughput_mib_s();
        let b = Bar {
            label: basename(m.path.as_str()),
            value: rate,
            shown: rate_text_of(rate, 1),
        };
        proof {
            lemma_bars_push(r@, b);
            assert(sorted[i as int] == files@[order@[i as int] as int]);
            assert(file_bars(files@).take(i + 1) == file_bars(files@).take(i as int).push(
                file_bars(files@)[i as int],
            ));
        }
        r.push(b);
    }
    assert(file_bars(files@).take(n as int) == file_bars(files@));
    r
}

fn bucket_bars_of(files: &Vec<FileMeasurement>) -> (r: Vec<Bar>)
    requires
        sums_fit(files@),
    ensures
        bars(r@) == bucket_bars(files@, 14),
        forall|i: int| 0 <= i < r@.len() ==> (#[trigger] r@[i]).value.wf(),
{
    let mut r: Vec<Bar> = Vec::new();
    for b in 0..LATENCY_BUCKETS
        invariant
            sums_fit(files@),
            bars(r@) == bucket_bars(files@, b as int),
            forall|k: int| 0 <= k < r@.len() ==> (#[trigger] r@[k]).value.wf(),
    {
        assert(bucket_total(files@, b as int) <= u64::MAX);
        let count = bucket_total_of(files, b);
        if count > 0 {
            let mut label = if b < LATENCY_BOUNDS_NS.len() {
                "≤ ".to_owned()
            } else {
                "> ".to_owned()
            };
            let bound = if b < LATENCY_BOUNDS_NS.len() {
                human_ns(LATENCY_BOUNDS_NS[b])
            } else {
                human_ns(LATENCY_BOUNDS_NS[12])
            };
            label.append(bound.as_str());
            let bar = Bar {
                label,
                value: Binary64::from_u64(count),
                shown: decimal_of(count as u128),
            };
            proof {
                lemma_bars_push(r@, bar);
            }
            r.push(bar);
        }
    }
    r
}

fn cell_of(start: &str, inner: &str, end: &str) -> (s: String)
    ensures
        s@ == cell(start@, inner@, end@),
{
    let mut s = start.to_owned();
    s.append(inner);
    s.append(end);
    s
}

fn number_cell_of(inner: &str) -> (s: String)
    ensures
        s@ == number_cell(inner@),
{
    cell_of("<td class=\"r\">", inner, "</td>")
}

fn number_heading_of(inner: &str) -> (s: String)
    ensures
        s@ == number_heading(inner@),
{
    cell_of("<th class=\"r\">", inner, "</th>")
}

fn table_row_of(cells: &Vec<String>) -> (s: String)
    ensures
        s@ == table_row(texts(cells@)),
{
    let mut s = "<tr>".to_owned();
    s.append(concat_of(cells).as_str());
    s.append("</tr>");
    s
}

fn nanos_text_of(n: u64) -> (s: String)
    ensures
        s@ == decimal(n as nat) + " ns"@,
{
    let mut s = decimal_of(n as u128);
    s.append(" ns");
    s
}

fn file_row_of(m: &FileMeasurement) -> (s: String)
    ensures
        s@ == file_row(*m),
{
    let pct = m.percentiles_ns(&[99]);
    let mut v: Vec<String> = Vec::new();
    v.push(cell_of("<td>", esc(m.path.as_str()).as_str(), "</td>"));
    v.push(number_cell_of(human_bytes(m.size_bytes).as_str()));
    v.push(number_cell_of(rate_text_of(m.throughput_mib_s(), 1).as_str()));
    v.push(number_cell_of(nanos_text_of(m.avg_chunk_nanos()).as_str()));
    v.push(number_cell_of(nanos_text_of(pct[0]).as_str()));
    v.push(number_cell_of(decimal_of(m.chunk_count as u128).as_str()));
    assert(texts(v@) == row_cells(*m));
    table_row_of(&v)
}

fn file_headings_of() -> (s: String)
    ensures
        s@ == table_row(file_headings()),
{
    let mut v: Vec<String> = Vec::new();
    v.push(cell_of("<th>", "path", "</th>"));
    v.push(number_heading_of("size"));
    v.push(number_heading_of("throughput"));
    v.push(number_heading_of("avg"));
    v.push(number_heading_of("p99"));
    v.push(number_heading_of("chunks"));
    assert(texts(v@) == file_headings());
    table_row_of(&v)
}

fn file_table_of(files: &Vec<FileMeasurement>) -> (s: String)
    ensures
        s@ == file_table(files@),
{
    let ghost want = files@.map_values(|m: FileMeasurement| file_row(m));
    let mut rows: Vec<String> = Vec::new();
    for i in 0..files.len()
        invariant
            want == files@.map_values(|m: FileMeasurement| file_row(m)),
            texts(rows@) == want.take(i as int),
    {
        let row = file_row_of(&files[i]);
        proof {
            lemma_texts_push(rows@, row);
            assert(want.take(i + 1) == want.take(i as int).push(want[i as int]));
        }
        rows.push(row);
    }
    assert(want.take(want.len() as int) == want);
    let mut s = "<section class=\"chart\"><h2>Files</h2>".to_owned();
    s.append("<table><thead>");
    s.append(file_headings_of().as_str());
    s.append("</thead><tbody>");
    s.append(concat_of(&rows).as_str());
    s.append("</tbody></table>");
    s.append("</section>");
    s
}

/// Renders the body of a profile report.
pub fn profile_body(files: &Vec<FileMeasurement>) -> (s: String)
    requires
        sums_fit(files@),
    ensures
        s@ == profile_text(files@),
{
    let mut s = profile_cards_of(files);
    let by_file = file_bars_of(files);
    s.append(bar_chart("Read throughput per file (slowest first)", &by_file, "#00ff8c").as_str());
    let by_bucket = bucket_bars_of(files);
    s.append(bar_chart("Read-latency distribution (chunks)", &by_bucket, "#00f7ff").as_str());
    s.append(file_table_of(files).as_str());
    s
}

// ── bulk ────────────────────────────────────────────────────────────────────

/// The cards of a bulk report.
pub open spec fn bulk_cards(b: BulkMeasurement) -> Seq<char> {
    cards_text(
        seq![
            card("THREADS"@, decimal(b.threads as nat)),
            card(
                "FILES"@,
                decimal(b.file_count as nat) + " · "@ + decimal(b.errors as nat) + " failed"@,
            ),
            card("TOTAL READ"@, human_bytes_text(b.bytes_read as nat)),
            card("THROUGHPUT"@, rate_text(b.rate(), 1)),
            card("READ MODE"@, mode_word(b.uncached)),
        ],
    )
}

/// The bar of the bytes that a worker thread read.
pub open spec fn thread_bytes_bar(t: ThreadStat) -> BarModel {
    BarModel {
        label: "thread "@ + decimal(t.index as nat) + " ("@ + decimal(t.files as nat) + " files)"@,
        value: Binary64::whole(t.bytes as nat),
        shown: human_bytes_text(t.bytes as nat),
    }
}

/// The throughput bar of a worker thread.
pub open spec fn thread_rate_bar(t: ThreadStat) -> BarModel {
    BarModel {
        label: "thread "@ + decimal(t.index as nat),
        value: t.rate(),
        shown: rate_text(t.rate(), 1),
    }
}

/// The body of a bulk report.
pub open spec fn bulk_text(b: BulkMeasurement) -> Seq<char> {
    bulk_cards(b) + chart_text(
        "Bytes read per worker thread"@,
        b.per_thread@.map_values(|t: ThreadStat| thread_bytes_bar(t)),
        "#ff00c7"@,
    ) + chart_text(
        "Throughput per worker thread"@,
        b.per_thread@.map_values(|t: ThreadStat| thread_rate_bar(t)),
        "#00ff8c"@,
    )
}

fn bulk_cards_of(b: &BulkMeasurement) -> (s: String)
    ensures
        s@ == bulk_cards(*b),
{
    let mut files = decimal_of(b.file_count as u128);
    files.append(" · ");
    files.append(decimal_of(b.errors as u128).as_str());
    files.append(" failed");
    let mut v: Vec<String> = Vec::new();
    v.push(card_of("THREADS", decimal_of(b.threads as u128).as_str()));
    v.push(card_of("FILES", files.as_str()));
    v.push(card_of("TOTAL READ", human_bytes(b.bytes_read).as_str()));
    v.push(card_of("THROUGHPUT", rate_text_of(b.throughput_mib_s(), 1).as_str()));
    v.push(card_of("READ MODE", mode_of(b.uncached)));
    assert(texts(v@) == seq![
        card("THREADS"@, decimal(b.threads as nat)),
        card(
            "FILES"@,
            decimal(b.file_count as nat) + " · "@ + decimal(b.errors as nat) + " failed"@,
        ),
        card("TOTAL READ"@, human_bytes_text(b.bytes_read as nat)),
        card("THROUGHPUT"@, rate_text(b.rate(), 1)),
        card("READ MODE"@, mode_word(b.uncached)),
    ]);
    cards(&v)
}

fn thread_bytes_bars(threads: &Vec<ThreadStat>) -> (r: Vec<Bar>)
    ensures
        bars(r@) == threads@.map_values(|t: ThreadStat| thread_bytes_bar(t)),
        forall|i: int| 0 <= i < r@.len() ==> (#[trigger] r@[i]).value.wf(),
{
    let ghost want = threads@.map_values(|t: ThreadStat| thread_bytes_bar(t));
    let mut r: Vec<Bar> = Vec::new();
    for i in 0..threads.len()
        invariant
            want == threads@.map_values(|t: ThreadStat| thread_bytes_bar(t)),
            bars(r@) == want.take(i as int),
            forall|k: int| 0 <= k < r@.len() ==> (#[trigger] r@[k]).value.wf(),
    {
        let t = &threads[i];
        let mut label = "thread ".to_owned();
        label.append(decimal_of(t.index as u128).as_str());
        label.append(" (");
        label.append(decimal_of(t.files as u128).as_str());
        label.append(" files)");
        let b = Bar { label, value: Binary64::from_u64(t.bytes), shown: human_bytes(t.bytes) };
        proof {
            lemma_bars_push(r@, b);
            assert(want.take(i + 1) == want.take(i as int).push(want[i as int]));
        }
        r.push(b);
    }
    assert(want.take(want.len() as int) == want);
    r
}

fn thread_rate_bars(threads: &Vec<ThreadStat>) -> (r: Vec<Bar>)
    ensures
        bars(r@) == threads@.map_values(|t: ThreadStat| thread_rate_bar(t)),
        forall|i: int| 0 <= i < r@.len() ==> (#[trigger] r@[i]).value.wf(),
{
    let ghost want = threads@.map_values(|t: ThreadStat| thread_rate_bar(t));
    let mut r: Vec<Bar> = Vec::new();
    for i in 0..threads.len()
        invariant
            want == threads@.map_values(|t: ThreadStat| thread_rate_bar(t)),
            bars(r@) == want.take(i as int),
            forall|k: int| 0 <= k < r@.len() ==> (#[trigger] r@[k]).value.wf(),
    {
        let t = &threads[i];
        let mut label = "thread ".to_owned();
        label.append(decimal_of(t.index as u128).as_str());
        let rate = t.throughput_mib_s();
        let b = Bar { label, value: rate, shown: rate_text_of(rate, 1) };
        proof {
            lemma_bars_push(r@, b);
            assert(want.take(i + 1) == want.take(i as int).push(want[i as int]));
        }
        r.push(b);
    }
    assert(want.take(want.len() as int) == want);
    r
}

/// Renders the body of a bulk report.
pub fn bulk_body(b: &BulkMeasurement) -> (s: String)
    ensures
        s@ == bulk_text(*b),
{
    let mut s = bulk_cards_of(b);
    let bytes = thread_bytes_bars(&b.per_thread);
    s.append(bar_chart("Bytes read per worker thread", &bytes, "#ff00c7").as_str());
    let rates = thread_rate_bars(&b.per_thread);
    s.append(bar_chart("Throughput per worker thread", &rates, "#00ff8c").as_str());
    s
}

// ── sweep ───────────────────────────────────────────────────────────────────

/// The best block size of a sweep with its throughput.
pub open spec fn best_text(points: Seq<SweepPoint>) -> Seq<char> {
    match best_point(points) {
        Some(p) => human_bytes_text(p.chunk_size as nat) + " → "@ + rate_text(p.rate(), 0),
        None => "—"@,
    }
}

/// The cards of a sweep report.
pub open spec fn sweep_cards(s: SweepResult) -> Seq<char> {
    cards_text(
        seq![
            card("FILE SIZE"@, human_bytes_text(s.size_bytes as nat)),
            card("BLOCK SIZES"@, decimal(s.points@.len())),
            card("BEST BLOCK"@, best_text(s.points@)),
            card("READ MODE"@, mode_word(s.uncached)),
        ],
    )
}

/// The throughput bar of a block size.
pub open spec fn point_rate_bar(p: SweepPoint) -> BarModel {
    BarModel {
        label: human_bytes_text(p.chunk_size as nat),
        value: p.rate(),
        shown: rate_text(p.rate(), 0),
    }
}

/// The latency bar of a block size.
pub open spec fn point_latency_bar(p: SweepPoint) -> BarModel {
    BarModel {
        label: human_bytes_text(p.chunk_size as nat),
        value: Binary64::whole(p.avg_chunk_nanos as nat),
        shown: human_ns_text(p.avg_chunk_nanos as nat),
    }
}

/// The body of a sweep report.
pub open spec fn sweep_text(s: SweepResult) -> Seq<char> {
    sweep_cards(s) + chart_text(
        "Read throughput by block size"@,
        s.points@.map_values(|p: SweepPoint| point_rate_bar(p)),
        "#00f7ff"@,
    ) + chart_text(
        "Average read() latency by block size"@,
        s.points@.map_values(|p: SweepPoint| point_latency_bar(p)),
        "#a200ff"@,
    )
}

fn sweep_cards_of(s: &SweepResult) -> (r: String)
    ensures
        r@ == sweep_cards(*s),
{
    let best = match s.best() {
        Some(p) => {
            let mut t = human_bytes(p.chunk_size as u64);
            t.append(" → ");
            t.append(rate_text_of(p.throughput_mib_s(), 0).as_str());
            t
        },
        None => "—".to_owned(),
    };
    let mut v: Vec<String> = Vec::new();
    v.push(card_of("FILE SIZE", human_bytes(s.size_bytes).as_str()));
    v.push(card_of("BLOCK SIZES", decimal_of(s.points.len() as u128).as_str()));
    v.push(card_of("BEST BLOCK", best.as_str()));
    v.push(card_of("READ MODE", mode_of(s.uncached)));
    assert(texts(v@) == seq![
        card("FILE SIZE"@, human_bytes_text(s.size_bytes as nat)),
        card("BLOCK SIZES"@, decimal(s.points@.len())),
        card("BEST BLOCK"@, best_text(s.points@)),
        card("READ MODE"@, mode_word(s.uncached)),
    ]);
    cards(&v)
}

fn point_rate_bars(points: &Vec<SweepPoint>) -> (r: Vec<Bar>)
    ensures
        bars(r@) == points@.map_values(|p: SweepPoint| point_rate_bar(p)),
        forall|i: int| 0 <= i < r@.len() ==> (#[trigger] r@[i]).value.wf(),
{
    let ghost want = points@.map_values(|p: SweepPoint| point_rate_bar(p));
    let mut r: Vec<Bar> = Vec::new();
    for i in 0..points.len()
        invariant
            want == points@.map_values(|p: SweepPoint| point_rate_bar(p)),
            bars(r@) == want.take(i as int),
            forall|k: int| 0 <= k < r@.len() ==> (#[trigger] r@[k]).value.wf(),
    {
        let p = &points[i];
        let rate = p.throughput_mib_s();
        let b = Bar {
            label: human_bytes(p.chunk_size as u64),
            value: rate,
            shown: rate_text_of(rate, 0),
        };
        proof {
            lemma_bars_push(r@, b);
            assert(want.take(i + 1) == want.take(i as int).push(want[i as int]));
        }
        r.push(b);
    }
    assert(want.take(want.len() as int) == want);
    r
}

fn point_latency_bars(points: &Vec<SweepPoint>) -> (r: Vec<Bar>)
    ensures
        bars(r@) == points@.map_values(|p: SweepPoint| point_latency_bar(p)),
        forall|i: int| 0 <= i < r@.len() ==> (#[trigger] r@[i]).value.wf(),
{
    let ghost want = points@.map_values(|p: SweepPoint| point_latency_bar(p));
    let mut r: Vec<Bar> = Vec::new();
    for i in 0..points.len()
        invariant
            want == points@.map_values(|p: SweepPoint| point_latency_bar(p)),
            bars(r@) == want.take(i as int),
            forall|k: int| 0 <= k < r@.len() ==> (#[trigger] r@[k]).value.wf(),
    {
        let p = &points[i];
        let b = Bar {
            label: human_bytes(p.chunk_size as u64),
            value: Binary64::from_u64(p.avg_chunk_nanos),
            shown: human_ns(p.avg_chunk_nanos),
        };
        proof {
            lemma_bars_push(r@, b);
            assert(want.take(i + 1) == want.take(i as int).push(want[i as int]));
        }
        r.push(b);
    }
    assert(want.take(want.len() as int) == want);
    r
}

/// Renders the body of a sweep report.
pub fn sweep_body(s: &SweepResult) -> (r: String)
    ensures
        r@ == sweep_text(*s),
{
    let mut r = sweep_cards_of(s);
    let rates = point_rate_bars(&s.points);
    r.append(bar_chart("Read throughput by block size", &rates, "#00f7ff").as_str());
    let latencies = point_latency_bars(&s.points);
    r.append(bar_chart("Average read() latency by block size", &latencies, "#a200ff").as_str());
    r
}

// ── write and random access ─────────────────────────────────────────────────

/// The body of a write report.
pub open spec fn write_text(w: WriteMeasurement) -> Seq<char> {
    cards_text(
        seq![
            card("BYTES WRITTEN"@, human_bytes_text(w.bytes as nat)),
            card("THROUGHPUT"@, rate_text(w.rate(), 1)),
            card("BLOCK SIZE"@, human_bytes_text(w.chunk_size as nat)),
            card("WALL TIME"@, millis_text(w.wall_nanos as nat)),
            card("FSYNC"@, millis_text(w.fsync_nanos as nat)),
        ],
    )
}

/// The body of a random-access report.
pub open spec fn random_text(r: RandomMeasurement) -> Seq<char> {
    cards_text(
        seq![
            card("IOPS"@, r.rate().fixed(0)),
            card("OPS"@, decimal(r.ops as nat)),
            card("BLOCK SIZE"@, human_bytes_text(r.block_size as nat)),
            card("AVG LATENCY"@, human_ns_text(r.avg_nanos as nat)),
            card("P99 LATENCY"@, human_ns_text(r.p99_nanos as nat)),
            card("READ MODE"@, mode_word(r.uncached)),
        ],
    )
}

/// Renders the body of a write report.
pub fn write_body(w: &WriteMeasurement) -> (s: String)
    ensures
        s@ == write_text(*w),
{
    let mut v: Vec<String> = Vec::new();
    v.push(card_of("BYTES WRITTEN", human_bytes(w.bytes).as_str()));
    v.push(card_of("THROUGHPUT", rate_text_of(w.throughput_mib_s(), 1).as_str()));
    v.push(card_of("BLOCK SIZE", human_bytes(w.chunk_size as u64).as_str()));
    v.push(card_of("WALL TIME", millis_text_of(w.wall_nanos).as_str()));
    v.push(card_of("FSYNC", millis_text_of(w.fsync_nanos).as_str()));
    assert(texts(v@) == seq![
        card("BYTES WRITTEN"@, human_bytes_text(w.bytes as nat)),
        card("THROUGHPUT"@, rate_text(w.rate(), 1)),
        card("BLOCK SIZE"@, human_bytes_text(w.chunk_size as nat)),
        card("WALL TIME"@, millis_text(w.wall_nanos as nat)),
        card("FSYNC"@, millis_text(w.fsync_nanos as nat)),
    ]);
    cards(&v)
}

/// Renders the body of a random-access report.
pub fn random_body(r: &RandomMeasurement) -> (s: String)
    ensures
        s@ == random_text(*r),
{
    let mut v: Vec<String> = Vec::new();
    v.push(card_of("IOPS", r.iops().fixed_of(0).as_str()));
    v.push(card_of("OPS", decimal_of(r.ops as u128).as_str()));
    v.push(card_of("BLOCK SIZE", human_bytes(r.block_size as u64).as_str()));
    v.push(card_of("AVG LATENCY", human_ns(r.avg_nanos).as_str()));
    v.push(card_of("P99 LATENCY", human_ns(r.p99_nanos).as_str()));
    v.push(card_of("READ MODE", mode_of(r.uncached)));
    assert(texts(v@) == seq![
        card("IOPS"@, r.rate().fixed(0)),
        card("OPS"@, decimal(r.ops as nat)),
        card("BLOCK SIZE"@, human_bytes_text(r.block_size as nat)),
        card("AVG LATENCY"@, human_ns_text(r.avg_nanos as nat)),
        card("P99 LATENCY"@, human_ns_text(r.p99_nanos as nat)),
        card("READ MODE"@, mode_word(r.uncached)),
    ]);
    cards(&v)
}

// ── the page ────────────────────────────────────────────────────────────────

/// The kind of a report, for its heading.
pub open spec fn kind_text(r: ReportModel) -> Seq<char> {
    match r {
        ReportModel::Profile { .. } => "Profile"@,
        ReportModel::Bulk { .. } => "Bulk throughput"@,
        ReportModel::Sweep { .. } => "Block-size sweep"@,
        ReportModel::Write { .. } => "Write benchmark"@,
        ReportModel::Random { .. } => "Random access"@,
    }
}

/// What a report is about.
pub open spec fn target_text(r: ReportModel) -> Seq<char> {
    match r {
        ReportModel::Profile { root, .. } => root,
        ReportModel::Bulk { root, .. } => root,
        ReportModel::Sweep { sweep } => sweep.path@,
        ReportModel::Write { write } => write.path@,
        ReportModel::Random { random } => random.path@,
    }
}

/// The body of a report.
pub open spec fn body_text(r: ReportModel) -> Seq<char> {
    match r {
        ReportModel::Profile { files, .. } => profile_text(files),
        ReportModel::Bulk { bulk, .. } => bulk_text(bulk),
        ReportModel::Sweep { sweep } => sweep_text(sweep),
        ReportModel::Write { write } => write_text(write),
        ReportModel::Random { random } => random_text(random),
    }
}

/// A page up to the body of its report.
pub open spec fn page_front(r: ReportModel) -> Seq<char> {
    PAGE_START@ + escaped(kind_text(r)) + PAGE_STYLE@ + escaped(kind_text(r))
        + " report · target <b>"@ + escaped(target_text(r))
        + "</b> · <span id=\"gen\"></span></div>\n</header>\n"@
}

/// A page from behind the body of its report.
pub open spec fn page_end(generated: nat) -> Seq<char> {
    "\n<footer>Generated by Sawskas Profiler — hardware-interrupt file measurement.</footer>\n<script>\n  document.getElementById('gen').textContent =\n    'generated ' + new Date("@
        + decimal(generated) + "000).toLocaleString();\n</script>\n</body></html>\n"@
}

/// A report as an HTML page, made `generated` seconds after the epoch.
pub open spec fn html_text(r: ReportModel, generated: nat) -> Seq<char> {
    page_front(r) + body_text(r) + page_end(generated)
}

fn page_front_of(kind: &str, target: &str, Ghost(r): Ghost<ReportModel>) -> (s: String)
    requires
        kind@ == kind_text(r),
        target@ == target_text(r),
    ensures
        s@ == page_front(r),
{
    let mut s = PAGE_START.to_owned();
    s.append(esc(kind).as_str());
    s.append(PAGE_STYLE);
    s.append(esc(kind).as_str());
    s.append(" report · target <b>");
    s.append(esc(target).as_str());
    s.append("</b> · <span id=\"gen\"></span></div>\n</header>\n");
    s
}

fn page_end_of(generated: u64) -> (s: String)
    ensures
        s@ == page_end(generated as nat),
{
    let mut s =
        "\n<footer>Generated by Sawskas Profiler — hardware-interrupt file measurement.</footer>\n<script>\n  document.getElementById('gen').textContent =\n    'generated ' + new Date(".to_owned();
    s.append(decimal_of(generated as u128).as_str());
    s.append("000).toLocaleString();\n</script>\n</body></html>\n");
    s
}

/// Renders a report as an HTML page. The time at which it is made, in seconds
/// since the epoch, stands in its heading.
pub fn render(r: &Report, generated: u64) -> (s: String)
    requires
        r@.adds_up(),
    ensures
        s@ == html_text(r@, generated as nat),
{
    let kind = match r {
        Report::Profile { .. } => "Profile",
        Report::Bulk { .. } => "Bulk throughput",
        Report::Sweep { .. } => "Block-size sweep",
        Report::Write { .. } => "Write benchmark",
        Report::Random { .. } => "Random access",
    };
    let target = match r {
        Report::Profile { root, .. } => root.as_str(),
        Report::Bulk { root, .. } => root.as_str(),
        Report::Sweep { sweep } => sweep.path.as_str(),
        Report::Write { write } => write.path.as_str(),
        Report::Random { random } => random.path.as_str(),
    };
    let body = match r {
        Report::Profile { files, .. } => profile_body(files),
        Report::Bulk { bulk, .. } => bulk_body(bulk),
        Report::Sweep { sweep } => sweep_body(sweep),
        Report::Write { write } => write_body(write),
        Report::Random { random } => random_body(random),
    };
    let mut s = page_front_of(kind, target, Ghost(r@));
    s.append(body.as_str());
    s.append(page_end_of(generated).as_str());
    s
}

} // verus!
