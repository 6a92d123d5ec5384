//! Charts: which bars a report has, and how long they are.

use vstd::arithmetic::power2::{lemma_pow2_pos, pow2};
use vstd::prelude::*;

use super::lines::around;
use super::numbers::{
    lemma_near_cancel, lemma_near_chain, lemma_near_more, lemma_near_times, lemma_ordinary,
    lemma_quotient, lemma_seconds, lemma_share, lemma_size, near,
};
use crate::binary64::{lemma_nearest_error, lemma_whole_is_exact, nearest, Binary64, HIGH};
use crate::chart::{bar, done_cells, done_percent, done_share, full_scale, largest};
use crate::human::{human_bytes_text, human_ns_text};
use crate::interrupt::bulk::{BulkMeasurement, ThreadStat};
use crate::interrupt::hardware_interrupt::FileMeasurement;
use crate::interrupt::sweep::{SweepPoint, SweepResult};
use crate::rate::{seconds, share};
use crate::report::html::{
    bar_width, body_text, bucket_bars, bulk_cards, chart_text, file_bars, file_table,
    point_latency_bar, point_rate_bar, profile_cards, sweep_cards, thread_bytes_bar,
    thread_rate_bar, BarModel,
};
use crate::report::ReportModel;
use crate::text::decimal;

verus! {

/// Whether a report has a chart of this title with these bars.
pub open spec fn charts(r: ReportModel, title: Seq<char>, bars: Seq<BarModel>) -> bool {
    exists|a: Seq<char>, color: Seq<char>, b: Seq<char>|
        body_text(r) == #[trigger] around(a, chart_text(title, bars, color), b)
}

proof fn lemma_first(a: Seq<char>, b: Seq<char>, c: Seq<char>)
    ensures
        a + b + c == around(a, b, c),
        a + b + c == around(a + b, c, Seq::<char>::empty()),
{
    assert(a + b + c == around(a + b, c, Seq::<char>::empty()));
}

/// A profile charts the throughput of the files and the latency classes; a bulk read
/// charts the bytes and the throughput of each thread; a sweep charts the throughput and
/// the average latency of each block size. Each bar has the number of its item, as its
/// length and in writing.
#[verifier::spinoff_prover]
#[verifier::rlimit(50)]
pub proof fn law_a_report_charts_its_numbers(
    root: Seq<char>,
    files: Seq<FileMeasurement>,
    bulk: BulkMeasurement,
    sweep: SweepResult,
)
    ensures
        charts(
            ReportModel::Profile { root, files },
            "Read throughput per file (slowest first)"@,
            file_bars(files),
        ),
        charts(
            ReportModel::Profile { root, files },
            "Read-latency distribution (chunks)"@,
            bucket_bars(files, 14),
        ),
        charts(
            ReportModel::Bulk { root, bulk },
            "Bytes read per worker thread"@,
            Seq::new(
                bulk.per_thread@.len(),
                |i: int|
                    {
                        let t = bulk.per_thread@[i];
                        BarModel {
                            label: "thread "@ + decimal(t.index as nat) + " ("@ + decimal(
                                t.files as nat,
                            ) + " files)"@,
                            value: Binary64::whole(t.bytes as nat),
                            shown: human_bytes_text(t.bytes as nat),
                        }
                    },
            ),
        ),
        charts(
            ReportModel::Bulk { root, bulk },
            "Throughput per worker thread"@,
            Seq::new(
                bulk.per_thread@.len(),
                |i: int|
                    {
                        let t = bulk.per_thread@[i];
                        BarModel {
                            label: "thread "@ + decimal(t.index as nat),
                            value: t.rate(),
                            shown: t.rate().fixed(1) + " MiB/s"@,
                        }
                    },
            ),
        ),
        charts(
            ReportModel::Sweep { sweep },
            "Read throughput by block size"@,
            Seq::new(
                sweep.points@.len(),
                |i: int|
                    {
                        let p = sweep.points@[i];
                        BarModel {
                            label: human_bytes_text(p.chunk_size as nat),
                            value: p.rate(),
                            shown: p.rate().fixed(0) + " MiB/s"@,
                        }
                    },
            ),
        ),
        charts(
            ReportModel::Sweep { sweep },
            "Average read() latency by block size"@,
            Seq::new(
                sweep.points@.len(),
                |i: int|
                    {
                        let p = sweep.points@[i];
                        BarModel {
                            label: human_bytes_text(p.chunk_size as nat),
                            value: Binary64::whole(p.avg_chunk_nanos as nat),
                            shown: human_ns_text(p.avg_chunk_nanos as nat),
                        }
                    },
            ),
        ),
{
    lemma_profile_charts(root, files);
    lemma_bulk_charts(root, bulk);
    lemma_sweep_charts(sweep);
}

#[verifier::spinoff_prover]
#[verifier::rlimit(50)]
proof fn lemma_profile_charts(root: Seq<char>, files: Seq<FileMeasurement>)
    ensures
        charts(
            ReportModel::Profile { root, files },
            "Read throughput per file (slowest first)"@,
            file_bars(files),
        ),
        charts(
            ReportModel::Profile { root, files },
            "Read-latency distribution (chunks)"@,
            bucket_bars(files, 14),
        ),
{
    let r = ReportModel::Profile { root, files };
    let a = profile_cards(files);
    let b = chart_text("Read throughput per file (slowest first)"@, file_bars(files), "#00ff8c"@);
    let c = chart_text("Read-latency distribution (chunks)"@, bucket_bars(files, 14), "#00f7ff"@);
    let d = file_table(files);
    lemma_middle(a, b, c, d);
    assert(body_text(r) == a + b + c + d);
}

proof fn lemma_middle(a: Seq<char>, b: Seq<char>, c: Seq<char>, d: Seq<char>)
    ensures
        a + b + c + d == around(a, b, c + d),
        a + b + c + d == around(a + b, c, d),
{
    assert(a + b + c + d == around(a, b, c + d));
}

#[verifier::spinoff_prover]
#[verifier::rlimit(50)]
proof fn lemma_bulk_charts(root: Seq<char>, bulk: BulkMeasurement)
    ensures
        charts(
            ReportModel::Bulk { root, bulk },
            "Bytes read per worker thread"@,
            Seq::new(
                bulk.per_thread@.len(),
                |i: int|
                    {
                        let t = bulk.per_thread@[i];
                        BarModel {
                            label: "thread "@ + decimal(t.index as nat) + " ("@ + decimal(
                                t.files as nat,
                            ) + " files)"@,
                            value: Binary64::whole(t.bytes as nat),
                            shown: human_bytes_text(t.bytes as nat),
                        }
                    },
            ),
        ),
        charts(
            ReportModel::Bulk { root, bulk },
            "Throughput per worker thread"@,
            Seq::new(
                bulk.per_thread@.len(),
                |i: int|
                    {
                        let t = bulk.per_thread@[i];
                        BarModel {
                            label: "thread "@ + decimal(t.index as nat),
                            value: t.rate(),
                            shown: t.rate().fixed(1) + " MiB/s"@,
                        }
                    },
            ),
        ),
{
    let threads = bulk.per_thread@;
    let x = threads.map_values(|t: ThreadStat| thread_bytes_bar(t));
    let y = threads.map_values(|t: ThreadStat| thread_rate_bar(t));
    assert(x == Seq::new(
        threads.len(),
        |i: int|
            {
                let t = threads[i];
                BarModel {
                    label: "thread "@ + decimal(t.index as nat) + " ("@ + decimal(t.files as nat)
                        + " files)"@,
                    value: Binary64::whole(t.bytes as nat),
                    shown: human_bytes_text(t.bytes as nat),
                }
            },
    ));
    assert(y == Seq::new(
        threads.len(),
        |i: int|
            {
                let t = threads[i];
                BarModel {
                    label: "thread "@ + decimal(t.index as nat),
                    value: t.rate(),
                    shown: t.rate().fixed(1) + " MiB/s"@,
                }
            },
    ));
    lemma_first(
        bulk_cards(bulk),
        chart_text("Bytes read per worker thread"@, x, "#ff00c7"@),
        chart_text("Throughput per worker thread"@, y, "#00ff8c"@),
    );
}

#[verifier::spinoff_prover]
#[verifier::rlimit(50)]
proof fn lemma_sweep_charts(sweep: SweepResult)
    ensures
        charts(
            ReportModel::Sweep { sweep },
            "Read throughput by block size"@,
            Seq::new(
                sweep.points@.len(),
                |i: int|
                    {
                        let p = sweep.points@[i];
                        BarModel {
                            label: human_bytes_text(p.chunk_size as nat),
                            value: p.rate(),
                            shown: p.rate().fixed(0) + " MiB/s"@,
                        }
                    },
            ),
        ),
        charts(
            ReportModel::Sweep { sweep },
            "Average read() latency by block size"@,
            Seq::new(
                sweep.points@.len(),
                |i: int|
                    {
                        let p = sweep.points@[i];
                        BarModel {
                            label: human_bytes_text(p.chunk_size as nat),
                            value: Binary64::whole(p.avg_chunk_nanos as nat),
                            shown: human_ns_text(p.avg_chunk_nanos as nat),
                        }
                    },
            ),
        ),
{
    let points = sweep.points@;
    let x = points.map_values(|p: SweepPoint| point_rate_bar(p));
    let y = points.map_values(|p: SweepPoint| point_latency_bar(p));
    assert(x == Seq::new(
        points.len(),
        |i: int|
            {
                let p = points[i];
                BarModel {
                    label: human_bytes_text(p.chunk_size as nat),
                    value: p.rate(),
                    shown: p.rate().fixed(0) + " MiB/s"@,
                }
            },
    ));
    assert(y == Seq::new(
        points.len(),
        |i: int|
            {
                let p = points[i];
                BarModel {
                    label: human_bytes_text(p.chunk_size as nat),
                    value: Binary64::whole(p.avg_chunk_nanos as nat),
                    shown: human_ns_text(p.avg_chunk_nanos as nat),
                }
            },
    ));
    lemma_first(
        sweep_cards(sweep),
        chart_text("Read throughput by block size"@, x, "#00f7ff"@),
        chart_text("Average read() latency by block size"@, y, "#a200ff"@),
    );
}

// ── to scale ────────────────────────────────────────────────────────────────

/// A full bar stands for the largest value, or for a billionth where all are smaller.
pub proof fn law_a_full_bar_stands_for_the_largest(values: Seq<Binary64>, i: int)
    requires
        0 <= i < values.len(),
    ensures
        values[i].units() <= full_scale(values).units(),
        values.contains(full_scale(values)) || full_scale(values) == seconds(1),
{
    lemma_largest(values, i);
    lemma_seconds(1);
    assert(Binary64::zero().units() == 0) by (nonlinear_arith)
        requires
            Binary64::zero().units() == 0 * pow2(1074),
    ;
}

proof fn lemma_largest(values: Seq<Binary64>, i: int)
    requires
        0 <= i < values.len(),
    ensures
        values[i].units() <= largest(values).units(),
        values.contains(largest(values)) || largest(values) == Binary64::zero(),
    decreases values.len(),
{
    let before = values.drop_last();
    if i < before.len() {
        lemma_largest(before, i);
        if before.contains(largest(before)) {
            let k = choose|k: int| 0 <= k < before.len() && before[k] == largest(before);
            assert(values[k] == largest(before));
        }
    } else if before.len() > 0 {
        lemma_largest(before, 0);
        if before.contains(largest(before)) {
            let k = choose|k: int| 0 <= k < before.len() && before[k] == largest(before);
            assert(values[k] == largest(before));
        }
    }
    assert(values[values.len() - 1] == values.last());
}

/// A bar is as long as its value in proportion to the full bar: `width` times the value
/// over the full scale, up to a few parts in two to the power of 53. This is for values
/// that are not vanishingly small beside the full scale.
#[verifier::spinoff_prover]
#[verifier::rlimit(50)]
pub proof fn law_a_bar_is_in_proportion(value: Binary64, full: Binary64, width: nat)
    requires
        0 < value.units() <= full.units(),
        full.units() <= 0x1000_0000_0000_0000 * value.units(),
        0 < width <= 2048,
        full.units() > 0,
    ensures
        near(
            bar(value, full, width).units() * full.units(),
            (width * value.units()) * pow2(1074),
            7,
        ),
{
    let u = pow2(1074);
    let v = value.units();
    let f = full.units();
    lemma_pow2_pos(1074);
    lemma_ordinary(v, f, 1, 0x1000_0000_0000_0000);
    assert(near(v * u, v * u, 0)) by (nonlinear_arith)
        requires
            u > 0,
    ;
    assert(near(f * u, f * u, 0)) by (nonlinear_arith)
        requires
            u > 0,
    ;
    lemma_quotient(v, f, v, u, f, u, 0, 0);
    let q = nearest(v, f).units();
    assert(q * (u * f) == (q * f) * u) by (nonlinear_arith);
    assert((v * u) * u == (v * u) * u);
    lemma_near_cancel(q * f, v * u, 4, u);
    lemma_size(q * f, v * u, 4);
    // the length itself
    let m = q * width;
    assert(u <= 0x2000_0000_0000_0000 * q) by (nonlinear_arith)
        requires
            v * u <= 2 * (q * f),
            f <= 0x1000_0000_0000_0000 * v,
            v > 0,
            u > 0,
    ;
    assert(q <= 2 * u) by (nonlinear_arith)
        requires
            q * f <= 2 * (v * u),
            v <= f,
            f > 0,
            u > 0,
    ;
    assert(m > 0 && m <= 4096 * u && u <= 0x2000_0000_0000_0000 * m) by (nonlinear_arith)
        requires
            m == q * width,
            u <= 0x2000_0000_0000_0000 * q,
            q <= 2 * u,
            0 < width <= 2048,
            u > 0,
    ;
    lemma_ordinary(m, u, 4096, 0x2000_0000_0000_0000);
    lemma_nearest_error(m, u);
    let b = bar(value, full, width).units();
    assert(b == nearest(m, u).units());
    lemma_near_cancel(b, m, 1, u);
    lemma_near_times(b, m, 1, f);
    lemma_near_times(q * f, v * u, 4, width);
    assert((q * f) * width == m * f) by (nonlinear_arith)
        requires
            m == q * width,
    ;
    lemma_near_chain(b * f, m * f, (v * u) * width, 1, 4);
    assert((v * u) * width == (width * v) * u) by (nonlinear_arith);
    lemma_near_more(b * f, (width * v) * u, 6, 7);
}

/// No bar of a chart is shorter than two units.
pub proof fn law_every_bar_can_be_seen(value: Binary64, full: Binary64)
    ensures
        bar_width(value, full).units() >= 2 * pow2(1074),
        bar(value, full, 440).units() >= 2 * pow2(1074) ==> bar_width(value, full) == bar(
            value,
            full,
            440,
        ),
{
    lemma_whole_is_exact(2);
}

// ── progress ────────────────────────────────────────────────────────────────

/// `k` times what is done, as a double, is in proportion.
proof fn lemma_progress(done: u64, all: u64, k: nat)
    requires
        0 < done <= all,
        0 < k <= 2048,
    ensures
        near(
            done_share(done as nat, all as nat).scaled(k).units() * all as nat,
            (k * done as nat) * pow2(1074),
            9,
        ),
{
    let u = pow2(1074);
    let n = done as nat;
    let d = all as nat;
    let e = HIGH as int;
    let x = share(n, d).units();
    let s = done_share(n, d).units();
    lemma_pow2_pos(1074);
    lemma_share(n, d);
    lemma_whole_is_exact(1);
    assert(near(s * d, n * u, 6)) by {
        if s != x {
            assert(s == u && x > u);
            assert((e - 6) * (n * u) <= e * (u * d)) by (nonlinear_arith)
                requires
                    n <= d,
                    u > 0,
                    e > 6,
            ;
            assert(e * (u * d) <= e * (x * d)) by (nonlinear_arith)
                requires
                    u <= x,
                    e > 0,
            ;
        }
    }
    lemma_size(s * d, n * u, 6);
    let w = 0x1_0000_0000_0000_0000nat;
    let m = s * k;
    assert(m > 0 && m <= 4096 * u && u <= (2 * w) * m) by (nonlinear_arith)
        requires
            m == s * k,
            s * d <= 2 * (n * u),
            n * u <= 2 * (s * d),
            0 < n <= d,
            d < w,
            0 < k <= 2048,
            u > 0,
    ;
    lemma_ordinary(m, u, 4096, 2 * w);
    lemma_nearest_error(m, u);
    let b = nearest(m, u).units();
    lemma_near_cancel(b, m, 1, u);
    lemma_near_times(b, m, 1, d);
    lemma_near_times(s * d, n * u, 6, k);
    assert((s * d) * k == m * d) by (nonlinear_arith)
        requires
            m == s * k,
    ;
    lemma_near_chain(b * d, m * d, (n * u) * k, 1, 6);
    assert((n * u) * k == (k * n) * u) by (nonlinear_arith);
    lemma_near_more(b * d, (k * n) * u, 8, 9);
}

/// The percentage of a progress display is what is done of the whole, cut to a whole
/// number, up to a thousandth; its bar is filled in the same proportion, to the nearest
/// cell.
pub proof fn law_progress_is_in_proportion(done: u64, all: u64, width: nat)
    requires
        0 < done <= all,
        0 < width <= 2048,
    ensures
        ({
            let p = done_percent(done as nat, all as nat);
            let c = done_cells(done as nat, all as nat, width);
            &&& 1_000 * (p * all) <= 1_000 * (100 * done) + all
            &&& 1_000 * (100 * done) <= 1_000 * ((p + 1) * all) + all
            &&& 1_000 * (2 * c * all) <= 1_000 * (2 * width * done) + 1_001 * all
            &&& 1_000 * (2 * width * done) <= 1_000 * (2 * c * all) + 1_001 * all
        }),
{
    let u = pow2(1074);
    let n = done as nat;
    let d = all as nat;
    lemma_pow2_pos(1074);
    lemma_progress(done, all, 100);
    lemma_progress(done, all, width);
    let b = done_share(n, d).scaled(100).units();
    let p = done_percent(n, d);
    assert(p * u <= b < (p + 1) * u) by (nonlinear_arith)
        requires
            p == b / u,
            u > 0,
    ;
    lemma_between(p * u, b, (p + 1) * u, d, 100 * n, u);
    assert((p * u) * d == (p * d) * u && ((p + 1) * u) * d == ((p + 1) * d) * u)
        by (nonlinear_arith);
    lemma_cut(p * d, 100 * n, (p + 1) * d, d, u);
    let f = done_share(n, d).scaled(width).units();
    let c = done_cells(n, d, width);
    assert((2 * c) * u <= 2 * f + u && 2 * f < (2 * c + 1) * u) by (nonlinear_arith)
        requires
            c == (2 * f + u) / (2 * u),
            u > 0,
    ;
    assert(width * n <= 2048 * d) by (nonlinear_arith)
        requires
            n <= d,
            width <= 2048,
    ;
    lemma_cells_near(c, f, d, width * n, u);
    assert(2 * c * d == (2 * c) * d && 2 * width * n == 2 * (width * n)) by (nonlinear_arith);
}

proof fn lemma_between(low: nat, b: nat, high: nat, d: nat, m: nat, u: nat)
    requires
        low <= b < high,
        near(b * d, m * u, 9),
    ensures
        HIGH * (low * d) <= (HIGH + 9) * (m * u),
        (HIGH - 9) * (m * u) <= HIGH * (high * d),
{
    let e = HIGH as int;
    assert(e * (low * d) <= e * (b * d) && e * (b * d) <= e * (high * d)) by (nonlinear_arith)
        requires
            low <= b < high,
            e > 0,
    ;
}

proof fn lemma_cut(low: nat, m: nat, high: nat, d: nat, u: nat)
    requires
        HIGH * (low * u) <= (HIGH + 9) * (m * u),
        (HIGH - 9) * (m * u) <= HIGH * (high * u),
        m <= 2048 * d,
        u > 0,
    ensures
        1_000 * low <= 1_000 * m + d,
        1_000 * m <= 1_000 * high + d,
{
    let e = HIGH as int;
    assert(e * low <= (e + 9) * m) by (nonlinear_arith)
        requires
            e * (low * u) <= (e + 9) * (m * u),
            u > 0,
    ;
    assert((e - 9) * m <= e * high) by (nonlinear_arith)
        requires
            (e - 9) * (m * u) <= e * (high * u),
            u > 0,
    ;
    let k: int = 18_432_000;
    assert(e * (1_000 * low) <= e * (1_000 * m) + k * d) by (nonlinear_arith)
        requires
            e * low <= (e + 9) * m,
            m <= 2048 * d,
            k == 18_432_000,
    ;
    assert(1_000 * low <= 1_000 * m + d) by (nonlinear_arith)
        requires
            e * (1_000 * low) <= e * (1_000 * m) + k * d,
            e > k,
            k > 0,
            d >= 0,
    ;
    assert(e * (1_000 * m) <= e * (1_000 * high) + k * d) by (nonlinear_arith)
        requires
            (e - 9) * m <= e * high,
            m <= 2048 * d,
            k == 18_432_000,
    ;
    assert(1_000 * m <= 1_000 * high + d) by (nonlinear_arith)
        requires
            e * (1_000 * m) <= e * (1_000 * high) + k * d,
            e > k,
            k > 0,
            d >= 0,
    ;
}

proof fn lemma_cells_near(c: nat, f: nat, d: nat, m: nat, u: nat)
    requires
        (2 * c) * u <= 2 * f + u,
        2 * f < (2 * c + 1) * u,
        near(f * d, m * u, 9),
        m <= 2048 * d,
        u > 0,
    ensures
        1_000 * ((2 * c) * d) <= 1_000 * (2 * m) + 1_001 * d,
        1_000 * (2 * m) <= 1_000 * ((2 * c) * d) + 1_001 * d,
{
    let e = HIGH as int;
    let t = (2 * c) * d;
    assert(t * u <= 2 * (f * d) + d * u) by (nonlinear_arith)
        requires
            t == (2 * c) * d,
            (2 * c) * u <= 2 * f + u,
    ;
    assert(2 * (f * d) <= t * u + d * u) by (nonlinear_arith)
        requires
            t == (2 * c) * d,
            2 * f < (2 * c + 1) * u,
    ;
    assert(e * t <= 2 * ((e + 9) * m) + e * d) by (nonlinear_arith)
        requires
            t * u <= 2 * (f * d) + d * u,
            e * (f * d) <= (e + 9) * (m * u),
            e > 0,
            u > 0,
    ;
    assert(2 * ((e - 9) * m) <= e * t + e * d) by (nonlinear_arith)
        requires
            2 * (f * d) <= t * u + d * u,
            (e - 9) * (m * u) <= e * (f * d),
            e > 0,
            u > 0,
    ;
}

} // verus!
