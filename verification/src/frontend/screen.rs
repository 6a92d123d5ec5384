//! What the terminal UI prints, line by line.

use vstd::arithmetic::power2::{lemma_pow2_pos, pow2};
use vstd::prelude::*;

use super::paint::{
    bare, bare_of, bold, bold_of, spans, tinted, tinted_of, Color, Span, SpanModel, DIM_SLATE,
    NEON_CYAN, NEON_GREEN, NEON_MAGENTA, NEON_PURPLE, NEON_RED, NEON_YELLOW,
};
use crate::binary64::{lemma_nearest_monotone, Binary64};
use crate::chart::{
    bar_cells, bar_cells_of, done_cells, done_cells_of, done_percent, done_percent_of,
    full_scale, full_scale_of, is_scale,
};
use crate::human::{human_bytes, human_bytes_text, human_ns, human_ns_text};
use crate::interrupt::bulk::BulkMeasurement;
use crate::interrupt::hardware_interrupt::{
    FileMeasurement, LATENCY_BOUNDS_NS, LATENCY_BUCKETS,
};
use crate::interrupt::sweep::{best_point, SweepPoint, SweepResult};
use crate::rate::{mib_per_second, mib_per_second_of, millis, millis_of};
use crate::report::{mode_of, mode_word};
use crate::text::{
    chars_of, decimal, decimal_of, left_align, left_aligned, piece_of, repeat_of, repeated,
    right_align, right_aligned, zero_padded, zero_padded_of,
};

verus! {

/// The inner width of the framed panels, in cells.
pub const PANEL_WIDTH: usize = 52;

/// The cells of a scan bar.
pub const SCAN_SLOTS: usize = 30;

/// The cells of a bar in a batch scan.
pub const BATCH_SLOTS: usize = 14;

/// The cells of a latency bar.
pub const HISTOGRAM_WIDTH: usize = 28;

/// The cells of a throughput bar.
pub const SWEEP_WIDTH: usize = 26;

/// The width of a file name in a batch scan.
pub const NAME_WIDTH: usize = 28;

/// Some lines, as values.
pub open spec fn sheet(v: Seq<Vec<Span>>) -> Seq<Seq<SpanModel>> {
    v.map_values(|l: Vec<Span>| spans(l@))
}

proof fn lemma_sheet_push(v: Seq<Vec<Span>>, l: Vec<Span>)
    ensures
        sheet(v.push(l)) == sheet(v).push(spans(l@)),
{
    assert(sheet(v.push(l)) == sheet(v).push(spans(l@)));
}

fn extend(v: &mut Vec<Vec<Span>>, more: Vec<Vec<Span>>)
    ensures
        sheet(final(v)@) == sheet(old(v)@) + sheet(more@),
{
    let mut rest = more;
    let ghost a = v@;
    let ghost b = rest@;
    v.append(&mut rest);
    assert(sheet(a + b) == sheet(a) + sheet(b));
}

// ── pieces of text ──────────────────────────────────────────────────────────

/// Pads a text with trailing spaces to a visible width.
pub fn pad_to(s: &str, width: usize) -> (r: String)
    ensures
        r@ == left_aligned(s@, width as nat),
{
    left_align(s, width)
}

/// A text cut to a visible width: its end, behind an ellipsis. Without any width
/// nothing is left.
pub open spec fn truncated(s: Seq<char>, max: nat) -> Seq<char> {
    if s.len() <= max {
        s
    } else if max == 0 {
        Seq::empty()
    } else {
        "…"@ + s.skip(s.len() - (max - 1))
    }
}

/// Cuts a text to a visible width. The end is kept, since file names say more
/// than the directories in front of them.
pub fn truncate(s: &str, max: usize) -> (r: String)
    ensures
        r@ == truncated(s@, max as nat),
{
    let v = chars_of(s);
    if v.len() <= max {
        return s.to_owned();
    }
    if max == 0 {
        return String::new();
    }
    let keep: usize = max - 1;
    let mut r = "…".to_owned();
    let tail = piece_of(&v, v.len() - keep, v.len());
    r.append(tail.as_str());
    assert(tail@ == s@.skip(s@.len() - keep));
    r
}

/// A truncated text fits.
pub proof fn law_a_truncated_text_fits(s: Seq<char>, max: nat)
    ensures
        truncated(s, max).len() <= max,
{
    reveal_strlit("…");
}

/// A file name as a batch scan shows it: always the same width.
pub open spec fn name_cell(name: Seq<char>) -> Seq<char> {
    left_aligned(truncated(name, NAME_WIDTH as nat), NAME_WIDTH as nat)
}

fn name_cell_of(name: &str) -> (r: String)
    ensures
        r@ == name_cell(name@),
{
    pad_to(truncate(name, NAME_WIDTH).as_str(), NAME_WIDTH)
}

/// A percentage, three cells wide before its sign.
pub open spec fn percent(n: nat) -> Seq<char> {
    right_aligned(decimal(n), 3) + "%"@
}

fn percent_of(n: u64) -> (s: String)
    ensures
        s@ == percent(n as nat),
{
    let mut s = right_align(decimal_of(n as u128).as_str(), 3);
    s.append("%");
    s
}

/// A throughput with `p` digits behind the point, `width` cells wide before its
/// unit.
pub open spec fn wide_rate(rate: Binary64, p: nat, width: nat) -> Seq<char> {
    right_aligned(rate.fixed(p), width) + " MiB/s"@
}

fn wide_rate_of(rate: Binary64, p: u32, width: usize) -> (s: String)
    requires
        rate.wf(),
        rate.exponent <= 44,
        p <= 4,
    ensures
        s@ == wide_rate(rate, p as nat, width as nat),
{
    let mut s = right_align(rate.fixed_of(p).as_str(), width);
    s.append(" MiB/s");
    s
}

/// The place of a file in a batch scan.
pub open spec fn place(idx: nat, total: nat) -> Seq<char> {
    "["@ + zero_padded(idx, 2) + "/"@ + zero_padded(total, 2) + "]"@
}

fn place_of(idx: usize, total: usize) -> (s: String)
    ensures
        s@ == place(idx as nat, total as nat),
{
    let mut s = "[".to_owned();
    s.append(zero_padded_of(idx as u128, 2).as_str());
    s.append("/");
    s.append(zero_padded_of(total as u128, 2).as_str());
    s.append("]");
    s
}

/// A length of time in milliseconds with three digits behind the point.
pub open spec fn millis_text(nanos: nat) -> Seq<char> {
    millis(nanos).fixed(3) + " ms"@
}

pub(crate) fn millis_text_of(nanos: u64) -> (s: String)
    ensures
        s@ == millis_text(nanos as nat),
{
    let mut s = millis_of(nanos).fixed_of(3);
    s.append(" ms");
    s
}

/// A throughput with two digits behind the point.
pub open spec fn rate_text(rate: Binary64) -> Seq<char> {
    rate.fixed(2) + " MiB/s"@
}

pub(crate) fn rate_text_of(rate: Binary64) -> (s: String)
    requires
        rate.wf(),
        rate.exponent <= 44,
    ensures
        s@ == rate_text(rate),
{
    let mut s = rate.fixed_of(2);
    s.append(" MiB/s");
    s
}

// ── single lines ────────────────────────────────────────────────────────────

/// A horizontal line with end caps.
pub open spec fn divider(color: Color) -> Seq<SpanModel> {
    seq![bare("  "@), tinted("╾"@ + repeated('─', PANEL_WIDTH as int) + "╼"@, color)]
}

/// A horizontal line with end caps.
pub fn divider_of(color: Color) -> (v: Vec<Span>)
    ensures
        spans(v@) == divider(color),
{
    let mut t = "╾".to_owned();
    t.append(repeat_of('─', PANEL_WIDTH).as_str());
    t.append("╼");
    let mut v: Vec<Span> = Vec::new();
    v.push(bare_of("  "));
    v.push(tinted_of(t.as_str(), color));
    assert(spans(v@) == divider(color));
    v
}

/// A frame of a loading bar with `step` of its cells filled.
pub open spec fn loading_frame(label: Seq<char>, color: Color, step: nat) -> Seq<SpanModel> {
    seq![
        bare("\r  "@),
        bold(left_aligned(label, 10), color),
        bare(" "@),
        tinted(repeated('█', step as int), color),
        tinted(repeated('░', SCAN_SLOTS - step), DIM_SLATE),
        bare(" "@),
        tinted("▏"@, DIM_SLATE),
        bare(" "@),
        bold(percent((step * 100) / SCAN_SLOTS as nat), NEON_GREEN),
    ]
}

/// A frame of a loading bar with `step` of its cells filled.
pub fn loading_frame_of(label: &str, color: Color, step: usize) -> (v: Vec<Span>)
    requires
        step <= SCAN_SLOTS,
    ensures
        spans(v@) == loading_frame(label@, color, step as nat),
{
    let pct = (step * 100 / SCAN_SLOTS) as u64;
    let mut v: Vec<Span> = Vec::new();
    v.push(bare_of("\r  "));
    v.push(bold_of(left_align(label, 10).as_str(), color));
    v.push(bare_of(" "));
    v.push(tinted_of(repeat_of('█', step).as_str(), color));
    v.push(tinted_of(repeat_of('░', SCAN_SLOTS - step).as_str(), DIM_SLATE));
    v.push(bare_of(" "));
    v.push(tinted_of("▏", DIM_SLATE));
    v.push(bare_of(" "));
    v.push(bold_of(percent_of(pct).as_str(), NEON_GREEN));
    assert(spans(v@) == loading_frame(label@, color, step as nat));
    v
}

/// A loading bar that is done.
pub open spec fn loading_done(label: Seq<char>, color: Color) -> Seq<SpanModel> {
    seq![
        bare("\r  "@),
        bold(left_aligned(label, 10), color),
        bare(" "@),
        tinted(repeated('█', SCAN_SLOTS as int), color),
        bare(" "@),
        tinted("▏"@, DIM_SLATE),
        bare(" "@),
        bold("✓ ONLINE"@, NEON_GREEN),
        bare("   "@),
    ]
}

/// A loading bar that is done.
pub fn loading_done_of(label: &str, color: Color) -> (v: Vec<Span>)
    ensures
        spans(v@) == loading_done(label@, color),
{
    let mut v: Vec<Span> = Vec::new();
    v.push(bare_of("\r  "));
    v.push(bold_of(left_align(label, 10).as_str(), color));
    v.push(bare_of(" "));
    v.push(tinted_of(repeat_of('█', SCAN_SLOTS).as_str(), color));
    v.push(bare_of(" "));
    v.push(tinted_of("▏", DIM_SLATE));
    v.push(bare_of(" "));
    v.push(bold_of("✓ ONLINE", NEON_GREEN));
    v.push(bare_of("   "));
    assert(spans(v@) == loading_done(label@, color));
    v
}

/// A line of a heading and a remark.
pub open spec fn heading(title: Seq<char>, color: Color, remark: Seq<char>) -> Seq<SpanModel> {
    seq![bare("  "@), bold(title, color), bare(" "@), tinted(remark, DIM_SLATE)]
}

/// A line of a heading and a remark.
pub fn heading_of(title: &str, color: Color, remark: &str) -> (v: Vec<Span>)
    ensures
        spans(v@) == heading(title@, color, remark@),
{
    let mut v: Vec<Span> = Vec::new();
    v.push(bare_of("  "));
    v.push(bold_of(title, color));
    v.push(bare_of(" "));
    v.push(tinted_of(remark, DIM_SLATE));
    assert(spans(v@) == heading(title@, color, remark@));
    v
}

/// A line of a heading alone.
pub open spec fn title_line(title: Seq<char>, color: Color) -> Seq<SpanModel> {
    seq![bare("  "@), bold(title, color)]
}

/// A line of a heading alone.
pub fn title_line_of(title: &str, color: Color) -> (v: Vec<Span>)
    ensures
        spans(v@) == title_line(title@, color),
{
    let mut v: Vec<Span> = Vec::new();
    v.push(bare_of("  "));
    v.push(bold_of(title, color));
    assert(spans(v@) == title_line(title@, color));
    v
}

/// The mark behind which an answer is typed.
pub open spec fn answer_mark() -> Seq<SpanModel> {
    seq![bare("  "@), bold("›"@, NEON_GREEN), bare(" "@)]
}

/// The mark behind which an answer is typed.
pub fn answer_mark_of() -> (v: Vec<Span>)
    ensures
        spans(v@) == answer_mark(),
{
    let mut v: Vec<Span> = Vec::new();
    v.push(bare_of("  "));
    v.push(bold_of("›", NEON_GREEN));
    v.push(bare_of(" "));
    assert(spans(v@) == answer_mark());
    v
}

/// A failure of a scan.
pub open spec fn scan_error(message: Seq<char>) -> Seq<SpanModel> {
    seq![bare("  "@), bold("✗ SCAN FAILED ::"@, NEON_RED), bare(" "@), tinted(message, NEON_RED)]
}

/// A failure of a scan.
pub fn scan_error_of(message: &str) -> (v: Vec<Span>)
    ensures
        spans(v@) == scan_error(message@),
{
    let mut v: Vec<Span> = Vec::new();
    v.push(bare_of("  "));
    v.push(bold_of("✗ SCAN FAILED ::", NEON_RED));
    v.push(bare_of(" "));
    v.push(tinted_of(message, NEON_RED));
    assert(spans(v@) == scan_error(message@));
    v
}

/// A scan bar with its percentage and the throughput so far.
pub open spec fn scan_bar(bytes: nat, size: nat, elapsed: nat) -> Seq<SpanModel> {
    let filled = done_cells(bytes, size, SCAN_SLOTS as nat);
    seq![
        bare("\r  "@),
        bold("SCAN"@, NEON_GREEN),
        bare(" "@),
        tinted(repeated('█', filled as int), NEON_GREEN),
        tinted(repeated('░', SCAN_SLOTS - filled), DIM_SLATE),
        bare(" "@),
        bold(percent(done_percent(bytes, size)), NEON_YELLOW),
        bare(" "@),
        tinted(wide_rate(mib_per_second(bytes, elapsed), 1, 9), NEON_CYAN),
    ]
}

/// A scan bar with its percentage and the throughput so far.
pub fn render_scan_bar(bytes: u64, size: u64, elapsed_ns: u64) -> (v: Vec<Span>)
    ensures
        spans(v@) == scan_bar(bytes as nat, size as nat, elapsed_ns as nat),
{
    let filled = done_cells_of(bytes, size, SCAN_SLOTS as u32);
    let pct = done_percent_of(bytes, size);
    let rate = mib_per_second_of(bytes, elapsed_ns);
    let mut v: Vec<Span> = Vec::new();
    v.push(bare_of("\r  "));
    v.push(bold_of("SCAN", NEON_GREEN));
    v.push(bare_of(" "));
    v.push(tinted_of(repeat_of('█', filled).as_str(), NEON_GREEN));
    v.push(tinted_of(repeat_of('░', SCAN_SLOTS - filled).as_str(), DIM_SLATE));
    v.push(bare_of(" "));
    v.push(bold_of(percent_of(pct).as_str(), NEON_YELLOW));
    v.push(bare_of(" "));
    v.push(tinted_of(wide_rate_of(rate, 1, 9).as_str(), NEON_CYAN));
    assert(spans(v@) == scan_bar(bytes as nat, size as nat, elapsed_ns as nat));
    v
}

/// The bar of the file that a batch scan is at.
pub open spec fn batch_bar(
    idx: nat,
    total: nat,
    name: Seq<char>,
    bytes: nat,
    size: nat,
    elapsed: nat,
) -> Seq<SpanModel> {
    let filled = done_cells(bytes, size, BATCH_SLOTS as nat);
    seq![
        bare("\r\u{1b}[K  "@),
        tinted(place(idx, total), NEON_MAGENTA),
        bare(" "@),
        tinted(name_cell(name), NEON_CYAN),
        bare(" "@),
        tinted(repeated('█', filled as int), NEON_GREEN),
        tinted(repeated('░', BATCH_SLOTS - filled), DIM_SLATE),
        bare(" "@),
        tinted(percent(done_percent(bytes, size)), NEON_YELLOW),
        bare(" "@),
        tinted(wide_rate(mib_per_second(bytes, elapsed), 1, 9), NEON_CYAN),
    ]
}

/// The bar of the file that a batch scan is at.
pub fn render_batch_bar(
    idx: usize,
    total: usize,
    name: &str,
    bytes: u64,
    size: u64,
    elapsed_ns: u64,
) -> (v: Vec<Span>)
    ensures
        spans(v@) == batch_bar(
            idx as nat,
            total as nat,
            name@,
            bytes as nat,
            size as nat,
            elapsed_ns as nat,
        ),
{
    let filled = done_cells_of(bytes, size, BATCH_SLOTS as u32);
    let pct = done_percent_of(bytes, size);
    let rate = mib_per_second_of(bytes, elapsed_ns);
    let mut v: Vec<Span> = Vec::new();
    v.push(bare_of("\r\u{1b}[K  "));
    v.push(tinted_of(place_of(idx, total).as_str(), NEON_MAGENTA));
    v.push(bare_of(" "));
    v.push(tinted_of(name_cell_of(name).as_str(), NEON_CYAN));
    v.push(bare_of(" "));
    v.push(tinted_of(repeat_of('█', filled).as_str(), NEON_GREEN));
    v.push(tinted_of(repeat_of('░', BATCH_SLOTS - filled).as_str(), DIM_SLATE));
    v.push(bare_of(" "));
    v.push(tinted_of(percent_of(pct).as_str(), NEON_YELLOW));
    v.push(bare_of(" "));
    v.push(tinted_of(wide_rate_of(rate, 1, 9).as_str(), NEON_CYAN));
    assert(spans(v@) == batch_bar(
        idx as nat,
        total as nat,
        name@,
        bytes as nat,
        size as nat,
        elapsed_ns as nat,
    ));
    v
}

/// The result line of a file in a batch scan.
pub open spec fn batch_row(idx: nat, total: nat, name: Seq<char>, m: FileMeasurement) -> Seq<
    SpanModel,
> {
    seq![
        bare("\r\u{1b}[K  "@),
        tinted(place(idx, total), NEON_MAGENTA),
        bare(" "@),
        tinted(name_cell(name), NEON_CYAN),
        bare(" "@),
        bold(right_aligned(human_bytes_text(m.size_bytes as nat), 10), NEON_YELLOW),
        bare(" "@),
        tinted(wide_rate(m.rate(), 1, 11), NEON_GREEN),
        bare(" "@),
        tinted(right_aligned(decimal(m.timer_interrupts as nat), 2) + " IRQ"@, DIM_SLATE),
    ]
}

/// The result line of a file in a batch scan.
pub fn print_batch_row(idx: usize, total: usize, name: &str, m: &FileMeasurement) -> (v: Vec<Span>)
    ensures
        spans(v@) == batch_row(idx as nat, total as nat, name@, *m),
{
    let mut irqs = right_align(decimal_of(m.timer_interrupts as u128).as_str(), 2);
    irqs.append(" IRQ");
    let mut v: Vec<Span> = Vec::new();
    v.push(bare_of("\r\u{1b}[K  "));
    v.push(tinted_of(place_of(idx, total).as_str(), NEON_MAGENTA));
    v.push(bare_of(" "));
    v.push(tinted_of(name_cell_of(name).as_str(), NEON_CYAN));
    v.push(bare_of(" "));
    v.push(bold_of(right_align(human_bytes(m.size_bytes).as_str(), 10).as_str(), NEON_YELLOW));
    v.push(bare_of(" "));
    v.push(tinted_of(wide_rate_of(m.throughput_mib_s(), 1, 11).as_str(), NEON_GREEN));
    v.push(bare_of(" "));
    v.push(tinted_of(irqs.as_str(), DIM_SLATE));
    assert(spans(v@) == batch_row(idx as nat, total as nat, name@, *m));
    v
}

/// The line of a file that a batch scan could not read.
pub open spec fn batch_error(idx: nat, total: nat, name: Seq<char>, message: Seq<char>) -> Seq<
    SpanModel,
> {
    seq![
        bare("\r\u{1b}[K  "@),
        tinted(place(idx, total), NEON_RED),
        bare(" "@),
        tinted(name_cell(name), NEON_RED),
        bare(" "@),
        tinted("✗ "@ + message, NEON_RED),
    ]
}

/// The line of a file that a batch scan could not read.
pub fn print_batch_error(idx: usize, total: usize, name: &str, message: &str) -> (v: Vec<Span>)
    ensures
        spans(v@) == batch_error(idx as nat, total as nat, name@, message@),
{
    let mut t = "✗ ".to_owned();
    t.append(message);
    let mut v: Vec<Span> = Vec::new();
    v.push(bare_of("\r\u{1b}[K  "));
    v.push(tinted_of(place_of(idx, total).as_str(), NEON_RED));
    v.push(bare_of(" "));
    v.push(tinted_of(name_cell_of(name).as_str(), NEON_RED));
    v.push(bare_of(" "));
    v.push(tinted_of(t.as_str(), NEON_RED));
    assert(spans(v@) == batch_error(idx as nat, total as nat, name@, message@));
    v
}

/// A labelled value.
pub open spec fn row(label: Seq<char>, value: Seq<char>) -> Seq<SpanModel> {
    seq![
        bare("  "@),
        tinted(left_aligned(label, 13), NEON_CYAN),
        bare(" "@),
        bold(value, NEON_YELLOW),
    ]
}

/// A labelled value.
pub fn report_row(label: &str, value: &str) -> (v: Vec<Span>)
    ensures
        spans(v@) == row(label@, value@),
{
    let mut v: Vec<Span> = Vec::new();
    v.push(bare_of("  "));
    v.push(tinted_of(left_align(label, 13).as_str(), NEON_CYAN));
    v.push(bare_of(" "));
    v.push(bold_of(value, NEON_YELLOW));
    assert(spans(v@) == row(label@, value@));
    v
}

// ── the report of one file ──────────────────────────────────────────────────

/// The latencies that belong to a bucket.
pub open spec fn bucket_label(b: int) -> Seq<char> {
    if b < 13 {
        "≤ "@ + human_ns_text(LATENCY_BOUNDS_NS@[b] as nat)
    } else {
        "> "@ + human_ns_text(LATENCY_BOUNDS_NS@[12] as nat)
    }
}

fn bucket_label_of(b: usize) -> (s: String)
    requires
        b < LATENCY_BUCKETS,
    ensures
        s@ == bucket_label(b as int),
{
    if b < LATENCY_BOUNDS_NS.len() {
        let mut s = "≤ ".to_owned();
        s.append(human_ns(LATENCY_BOUNDS_NS[b]).as_str());
        s
    } else {
        let mut s = "> ".to_owned();
        s.append(human_ns(LATENCY_BOUNDS_NS[12]).as_str());
        s
    }
}

/// The line of a bucket.
pub open spec fn bucket_line(b: int, count: nat, max: nat) -> Seq<SpanModel> {
    let filled = bar_cells(Binary64::whole(count), Binary64::whole(max), HISTOGRAM_WIDTH as nat);
    seq![
        bare("  "@),
        tinted(right_aligned(bucket_label(b), 8), DIM_SLATE),
        bare(" "@),
        tinted(repeated('█', filled as int), NEON_GREEN),
        tinted(repeated('░', HISTOGRAM_WIDTH - filled), DIM_SLATE),
        bare(" "@),
        bold(right_aligned(decimal(count), 5), NEON_YELLOW),
    ]
}

/// The largest of the first `n` numbers.
pub open spec fn most(buckets: Seq<u64>, n: int) -> nat
    decreases n,
{
    if n <= 0 {
        0
    } else if buckets[n - 1] > most(buckets, n - 1) {
        buckets[n - 1] as nat
    } else {
        most(buckets, n - 1)
    }
}

/// The lines of the first `n` buckets, empty ones left out.
pub open spec fn bucket_lines(buckets: Seq<u64>, max: nat, n: int) -> Seq<Seq<SpanModel>>
    decreases n,
{
    if n <= 0 {
        Seq::empty()
    } else if buckets[n - 1] == 0 {
        bucket_lines(buckets, max, n - 1)
    } else {
        bucket_lines(buckets, max, n - 1).push(
            bucket_line(n - 1, buckets[n - 1] as nat, max),
        )
    }
}

/// The latency distribution of a file; nothing where no chunk was read.
pub open spec fn histogram(m: FileMeasurement) -> Seq<Seq<SpanModel>> {
    let buckets = m.latency_buckets@;
    let max = most(buckets, buckets.len() as int);
    if max == 0 {
        Seq::empty()
    } else {
        seq![title_line("READ-LATENCY DISTRIBUTION"@, NEON_CYAN)] + bucket_lines(
            buckets,
            max,
            buckets.len() as int,
        )
    }
}

fn bucket_line_of(b: usize, count: u64, max: u64) -> (v: Vec<Span>)
    requires
        b < LATENCY_BUCKETS,
        0 < count <= max,
    ensures
        spans(v@) == bucket_line(b as int, count as nat, max as nat),
{
    let value = Binary64::from_u64(count);
    let full = Binary64::from_u64(max);
    proof {
        let g = pow2(1074);
        lemma_pow2_pos(1074);
        assert(0 < count as nat * g <= max as nat * g) by (nonlinear_arith)
            requires
                0 < count <= max,
                g > 0,
        ;
        assert(max as nat * g <= 0x1_0000_0000_0000_0000 * g) by (nonlinear_arith)
            requires
                max <= u64::MAX,
        ;
        lemma_nearest_monotone(count as nat * g, max as nat * g, g);
    }
    let filled = bar_cells_of(value, full, HISTOGRAM_WIDTH as u32);
    let mut v: Vec<Span> = Vec::new();
    v.push(bare_of("  "));
    v.push(tinted_of(right_align(bucket_label_of(b).as_str(), 8).as_str(), DIM_SLATE));
    v.push(bare_of(" "));
    v.push(tinted_of(repeat_of('█', filled).as_str(), NEON_GREEN));
    v.push(tinted_of(repeat_of('░', HISTOGRAM_WIDTH - filled).as_str(), DIM_SLATE));
    v.push(bare_of(" "));
    v.push(bold_of(right_align(decimal_of(count as u128).as_str(), 5).as_str(), NEON_YELLOW));
    assert(spans(v@) == bucket_line(b as int, count as nat, max as nat));
    v
}

/// The latency distribution of a file.
pub fn print_latency_histogram(m: &FileMeasurement) -> (r: Vec<Vec<Span>>)
    ensures
        sheet(r@) == histogram(*m),
{
    let ghost buckets = m.latency_buckets@;
    let mut max: u64 = 0;
    for b in 0..LATENCY_BUCKETS
        invariant
            buckets == m.latency_buckets@,
            max == most(buckets, b as int),
            forall|k: int| 0 <= k < b ==> #[trigger] buckets[k] <= max,
    {
        if m.latency_buckets[b] > max {
            max = m.latency_buckets[b];
        }
    }
    let mut r: Vec<Vec<Span>> = Vec::new();
    if max == 0 {
        assert(sheet(r@) == Seq::<Seq<SpanModel>>::empty());
        return r;
    }
    r.push(title_line_of("READ-LATENCY DISTRIBUTION", NEON_CYAN));
    let ghost head = seq![title_line("READ-LATENCY DISTRIBUTION"@, NEON_CYAN)];
    assert(sheet(r@) == head + bucket_lines(buckets, max as nat, 0));
    for b in 0..LATENCY_BUCKETS
        invariant
            buckets == m.latency_buckets@,
            forall|k: int| 0 <= k < LATENCY_BUCKETS ==> #[trigger] buckets[k] <= max,
            sheet(r@) == head + bucket_lines(buckets, max as nat, b as int),
    {
        let count = m.latency_buckets[b];
        assert(buckets[b as int] <= max);
        if count != 0 {
            let line = bucket_line_of(b, count, max);
            proof {
                lemma_sheet_push(r@, line);
                let before = bucket_lines(buckets, max as nat, b as int);
                assert((head + before).push(spans(line@)) == head + before.push(spans(line@)));
            }
            r.push(line);
        }
    }
    r
}

/// The texts for the latency of the chunks.
pub open spec fn latency_text(m: FileMeasurement) -> Seq<char> {
    "avg "@ + decimal(m.avg_nanos()) + " ns · min "@ + decimal(m.min_nanos()) + " ns · max "@
        + decimal(m.max_nanos()) + " ns"@
}

/// The text for the percentiles.
pub open spec fn percentile_text(m: FileMeasurement) -> Seq<char> {
    "p50 "@ + decimal(m.percentile(50)) + " ns · p95 "@ + decimal(m.percentile(95)) + " ns · p99 "@
        + decimal(m.percentile(99)) + " ns"@
}

/// The text for the timer interrupts.
pub open spec fn irq_text(irqs: nat, hz: nat) -> Seq<char> {
    decimal(irqs) + " (hw counter @ "@ + decimal(hz) + " Hz)"@
}

/// The labelled values of one file.
pub open spec fn file_rows(m: FileMeasurement) -> Seq<Seq<SpanModel>> {
    seq![
        row("TARGET"@, m.path@),
        row("SIZE"@, decimal(m.size_bytes as nat) + " bytes"@),
        row(
            "READ MODE"@,
            if m.uncached {
                "uncached (page cache bypassed)"@
            } else {
                "cached"@
            },
        ),
        row("WALL TIME"@, millis_text(m.wall_nanos as nat)),
        row("THROUGHPUT"@, rate_text(m.rate())),
        row("CHUNKS"@, decimal(m.chunk_count as nat)),
        row("READ LATENCY"@, latency_text(m)),
        row("PERCENTILES"@, percentile_text(m)),
        row("READ-BUSY"@, m.busy().scaled(100).fixed(1) + "% of wall time"@),
        row("TIMER IRQS"@, irq_text(m.timer_interrupts as nat, m.counter_hz as nat)),
        row("SAMPLES"@, decimal(m.samples@.len()) + " captured"@),
    ]
}

/// The report of one file.
pub open spec fn file_report(m: FileMeasurement) -> Seq<Seq<SpanModel>> {
    seq![divider(NEON_PURPLE)] + file_rows(m) + histogram(m) + seq![divider(NEON_PURPLE)]
}

fn latency_text_of(m: &FileMeasurement) -> (s: String)
    ensures
        s@ == latency_text(*m),
{
    let mut s = "avg ".to_owned();
    s.append(decimal_of(m.avg_chunk_nanos() as u128).as_str());
    s.append(" ns · min ");
    s.append(decimal_of(m.min_chunk_nanos() as u128).as_str());
    s.append(" ns · max ");
    s.append(decimal_of(m.max_chunk_nanos() as u128).as_str());
    s.append(" ns");
    s
}

fn percentile_text_of(m: &FileMeasurement) -> (s: String)
    ensures
        s@ == percentile_text(*m),
{
    let pct = m.percentiles_ns(&[50, 95, 99]);
    let mut s = "p50 ".to_owned();
    s.append(decimal_of(pct[0] as u128).as_str());
    s.append(" ns · p95 ");
    s.append(decimal_of(pct[1] as u128).as_str());
    s.append(" ns · p99 ");
    s.append(decimal_of(pct[2] as u128).as_str());
    s.append(" ns");
    s
}

pub(crate) fn irq_text_of(irqs: u64, hz: u64) -> (s: String)
    ensures
        s@ == irq_text(irqs as nat, hz as nat),
{
    let mut s = decimal_of(irqs as u128);
    s.append(" (hw counter @ ");
    s.append(decimal_of(hz as u128).as_str());
    s.append(" Hz)");
    s
}

pub(crate) fn with_end(n: u64, end: &str) -> (s: String)
    ensures
        s@ == decimal(n as nat) + end@,
{
    let mut s = decimal_of(n as u128);
    s.append(end);
    s
}

fn file_rows_of(m: &FileMeasurement) -> (r: Vec<Vec<Span>>)
    ensures
        sheet(r@) == file_rows(*m),
{
    let mut busy = m.read_busy_fraction().times(100).fixed_of(1);
    busy.append("% of wall time");
    let mut r: Vec<Vec<Span>> = Vec::new();
    r.push(report_row("TARGET", m.path.as_str()));
    r.push(report_row("SIZE", with_end(m.size_bytes, " bytes").as_str()));
    r.push(
        report_row(
            "READ MODE",
            if m.uncached {
                "uncached (page cache bypassed)"
            } else {
                "cached"
            },
        ),
    );
    r.push(report_row("WALL TIME", millis_text_of(m.wall_nanos).as_str()));
    r.push(report_row("THROUGHPUT", rate_text_of(m.throughput_mib_s()).as_str()));
    r.push(report_row("CHUNKS", decimal_of(m.chunk_count as u128).as_str()));
    r.push(report_row("READ LATENCY", latency_text_of(m).as_str()));
    r.push(report_row("PERCENTILES", percentile_text_of(m).as_str()));
    r.push(report_row("READ-BUSY", busy.as_str()));
    r.push(report_row("TIMER IRQS", irq_text_of(m.timer_interrupts, m.counter_hz).as_str()));
    r.push(report_row("SAMPLES", with_end(m.samples.len() as u64, " captured").as_str()));
    assert(sheet(r@) == file_rows(*m));
    r
}

/// The report of one file.
pub fn print_report(m: &FileMeasurement) -> (r: Vec<Vec<Span>>)
    ensures
        sheet(r@) == file_report(*m),
{
    let mut r: Vec<Vec<Span>> = Vec::new();
    r.push(divider_of(NEON_PURPLE));
    assert(sheet(r@) == seq![divider(NEON_PURPLE)]);
    extend(&mut r, file_rows_of(m));
    extend(&mut r, print_latency_histogram(m));
    let end = divider_of(NEON_PURPLE);
    proof {
        lemma_sheet_push(r@, end);
        assert(sheet(r@).push(divider(NEON_PURPLE)) == sheet(r@) + seq![divider(NEON_PURPLE)]);
    }
    r.push(end);
    r
}

// ── the report of a bulk read ───────────────────────────────────────────────

/// The report of a bulk read.
pub open spec fn bulk_report(m: BulkMeasurement) -> Seq<Seq<SpanModel>> {
    seq![
        divider(NEON_PURPLE),
        row(
            "FILES"@,
            decimal(m.file_count as nat) + " · "@ + decimal(m.errors as nat) + " failed"@,
        ),
        row("THREADS"@, decimal(m.threads as nat)),
        row("READ MODE"@, mode_word(m.uncached)),
        row("TOTAL READ"@, human_bytes_text(m.bytes_read as nat)),
        row("WALL TIME"@, millis_text(m.wall_nanos as nat)),
        row("THROUGHPUT"@, rate_text(m.rate())),
        row(
            "HW COUNTER"@,
            decimal(m.counter_ticks as nat) + " ticks @ "@ + decimal(m.counter_hz as nat)
                + " Hz"@,
        ),
        divider(NEON_PURPLE),
    ]
}

/// The report of a bulk read.
pub fn print_bulk_report(m: &BulkMeasurement) -> (r: Vec<Vec<Span>>)
    ensures
        sheet(r@) == bulk_report(*m),
{
    let mut files = decimal_of(m.file_count as u128);
    files.append(" · ");
    files.append(decimal_of(m.errors as u128).as_str());
    files.append(" failed");
    let mut counter = decimal_of(m.counter_ticks as u128);
    counter.append(" ticks @ ");
    counter.append(decimal_of(m.counter_hz as u128).as_str());
    counter.append(" Hz");
    let mut r: Vec<Vec<Span>> = Vec::new();
    r.push(divider_of(NEON_PURPLE));
    r.push(report_row("FILES", files.as_str()));
    r.push(report_row("THREADS", decimal_of(m.threads as u128).as_str()));
    r.push(report_row("READ MODE", mode_of(m.uncached)));
    r.push(report_row("TOTAL READ", human_bytes(m.bytes_read).as_str()));
    r.push(report_row("WALL TIME", millis_text_of(m.wall_nanos).as_str()));
    r.push(report_row("THROUGHPUT", rate_text_of(m.throughput_mib_s()).as_str()));
    r.push(report_row("HW COUNTER", counter.as_str()));
    r.push(divider_of(NEON_PURPLE));
    assert(sheet(r@) == bulk_report(*m));
    r
}

// ── the report of a sweep ───────────────────────────────────────────────────

/// The throughputs of the points of a sweep.
pub open spec fn point_rates(points: Seq<SweepPoint>) -> Seq<Binary64> {
    points.map_values(|p: SweepPoint| p.rate())
}

/// Whether a point has the block size that is best.
pub open spec fn is_best_size(points: Seq<SweepPoint>, p: SweepPoint) -> bool {
    best_point(points) matches Some(b) && b.chunk_size == p.chunk_size
}

/// The line of a point of a sweep.
pub open spec fn point_line(p: SweepPoint, full: Binary64, best: bool) -> Seq<SpanModel> {
    let filled = bar_cells(p.rate(), full, SWEEP_WIDTH as nat);
    seq![
        bare("  "@),
        tinted(right_aligned(human_bytes_text(p.chunk_size as nat), 9), DIM_SLATE),
        bare(" "@),
        tinted(
            repeated('█', filled as int),
            if best {
                NEON_GREEN
            } else {
                NEON_CYAN
            },
        ),
        tinted(repeated('░', SWEEP_WIDTH - filled), DIM_SLATE),
        bare(" "@),
        bold(wide_rate(p.rate(), 0, 8), NEON_YELLOW),
        bare(" "@),
        if best {
            bold("◀ best"@, NEON_GREEN)
        } else {
            bare(""@)
        },
    ]
}

/// The report of a sweep.
pub open spec fn sweep_report(s: SweepResult) -> Seq<Seq<SpanModel>> {
    let points = s.points@;
    seq![
        divider(NEON_PURPLE),
        row("FILE"@, s.path@),
        row("SIZE"@, human_bytes_text(s.size_bytes as nat)),
        row("READ MODE"@, mode_word(s.uncached)),
        title_line("THROUGHPUT BY BLOCK SIZE"@, NEON_CYAN),
    ] + points.map_values(
        |p: SweepPoint|
            point_line(p, full_scale(point_rates(points)), is_best_size(points, p)),
    ) + seq![divider(NEON_PURPLE)]
}

fn point_line_of(p: &SweepPoint, full: Binary64, best: bool) -> (v: Vec<Span>)
    requires
        is_scale(full),
        p.rate().units() <= full.units(),
    ensures
        spans(v@) == point_line(*p, full, best),
{
    let rate = p.throughput_mib_s();
    let filled = bar_cells_of(rate, full, SWEEP_WIDTH as u32);
    let mut v: Vec<Span> = Vec::new();
    v.push(bare_of("  "));
    v.push(
        tinted_of(right_align(human_bytes(p.chunk_size as u64).as_str(), 9).as_str(), DIM_SLATE),
    );
    v.push(bare_of(" "));
    v.push(
        tinted_of(
            repeat_of('█', filled).as_str(),
            if best {
                NEON_GREEN
            } else {
                NEON_CYAN
            },
        ),
    );
    v.push(tinted_of(repeat_of('░', SWEEP_WIDTH - filled).as_str(), DIM_SLATE));
    v.push(bare_of(" "));
    v.push(bold_of(wide_rate_of(rate, 0, 8).as_str(), NEON_YELLOW));
    v.push(bare_of(" "));
    if best {
        v.push(bold_of("◀ best", NEON_GREEN));
    } else {
        v.push(bare_of(""));
    }
    assert(spans(v@) == point_line(*p, full, best));
    v
}

fn point_lines_of(s: &SweepResult) -> (r: Vec<Vec<Span>>)
    ensures
        sheet(r@) == s.points@.map_values(
            |p: SweepPoint|
                point_line(p, full_scale(point_rates(s.points@)), is_best_size(s.points@, p)),
        ),
{
    let ghost points = s.points@;
    let mut rates: Vec<Binary64> = Vec::new();
    for i in 0..s.points.len()
        invariant
            points == s.points@,
            rates@ == point_rates(points).take(i as int),
            forall|k: int| 0 <= k < i ==> (#[trigger] rates@[k]).wf(),
    {
        rates.push(s.points[i].throughput_mib_s());
        assert(point_rates(points).take(i + 1) == point_rates(points).take(i as int).push(
            point_rates(points)[i as int],
        ));
    }
    assert(rates@ == point_rates(points));
    let full = full_scale_of(&rates);
    let best = s.best();
    let ghost want = points.map_values(
        |p: SweepPoint| point_line(p, full, is_best_size(points, p)),
    );
    let mut r: Vec<Vec<Span>> = Vec::new();
    assert(sheet(r@) == want.take(0));
    for i in 0..s.points.len()
        invariant
            points == s.points@,
            rates@ == point_rates(points),
            forall|k: int| 0 <= k < rates@.len() ==> (#[trigger] rates@[k]).units() <= full.units(),
            is_scale(full),
            best is None == (points.len() == 0),
            best is Some ==> best_point(points) == Some(*best->0),
            want == points.map_values(
                |p: SweepPoint| point_line(p, full, is_best_size(points, p)),
            ),
            sheet(r@) == want.take(i as int),
    {
        let p = &s.points[i];
        let is_best = match best {
            Some(b) => b.chunk_size == p.chunk_size,
            None => false,
        };
        assert(rates@[i as int] == p.rate());
        let line = point_line_of(p, full, is_best);
        proof {
            lemma_sheet_push(r@, line);
            assert(want.take(i + 1) == want.take(i as int).push(want[i as int]));
        }
        r.push(line);
    }
    assert(want.take(want.len() as int) == want);
    assert(want == points.map_values(
        |p: SweepPoint| point_line(p, full_scale(point_rates(points)), is_best_size(points, p)),
    ));
    r
}

/// The report of a sweep: a bar chart of throughput by block size that marks the
/// fastest.
pub fn print_sweep_report(s: &SweepResult) -> (r: Vec<Vec<Span>>)
    ensures
        sheet(r@) == sweep_report(*s),
{
    let mut r: Vec<Vec<Span>> = Vec::new();
    r.push(divider_of(NEON_PURPLE));
    r.push(report_row("FILE", s.path.as_str()));
    r.push(report_row("SIZE", human_bytes(s.size_bytes).as_str()));
    r.push(report_row("READ MODE", mode_of(s.uncached)));
    r.push(title_line_of("THROUGHPUT BY BLOCK SIZE", NEON_CYAN));
    assert(sheet(r@) == seq![
        divider(NEON_PURPLE),
        row("FILE"@, s.path@),
        row("SIZE"@, human_bytes_text(s.size_bytes as nat)),
        row("READ MODE"@, mode_word(s.uncached)),
        title_line("THROUGHPUT BY BLOCK SIZE"@, NEON_CYAN),
    ]);
    extend(&mut r, point_lines_of(s));
    let end = divider_of(NEON_PURPLE);
    proof {
        lemma_sheet_push(r@, end);
        assert(sheet(r@).push(divider(NEON_PURPLE)) == sheet(r@) + seq![divider(NEON_PURPLE)]);
    }
    r.push(end);
    r
}

} // verus!
