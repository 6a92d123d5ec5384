//! Text for people: what stands behind each name in the lines that are printed, on the
//! screens and in Markdown.

use vstd::prelude::*;

use super::html::{lemma_nanos_of, mode, nanos_of};
use super::json::{bytes_of, lemma_bytes_of};
use crate::binary64::Binary64;
use crate::chart::{done_cells, done_percent};
use crate::frontend::batch::{aggregate_report, Aggregate};
use crate::frontend::paint::SpanModel;
use crate::frontend::screen::{self, SCAN_SLOTS};
use crate::headless;
use crate::human::human_bytes_text;
use crate::interrupt::bulk::{BulkMeasurement, ThreadStat};
use crate::interrupt::hardware_interrupt::FileMeasurement;
use crate::interrupt::random::RandomMeasurement;
use crate::interrupt::sweep::{best_point, SweepPoint, SweepResult};
use crate::interrupt::write::WriteMeasurement;
use crate::rate::{mib_per_second, millis};
use crate::report::{markdown, ExtTotals};
use crate::text::{decimal, right_aligned};

verus! {

/// Whether a text has a value between two words.
pub open spec fn says(text: Seq<char>, word: Seq<char>, value: Seq<char>, unit: Seq<char>) -> bool {
    exists|a: Seq<char>, b: Seq<char>| text == #[trigger] around(a, word + value + unit, b)
}

/// Some texts, one behind the other.
spec fn strung(parts: Seq<Seq<char>>) -> Seq<char>
    decreases parts.len(),
{
    if parts.len() == 0 {
        Seq::empty()
    } else {
        strung(parts.drop_last()) + parts.last()
    }
}

proof fn lemma_strung_push(parts: Seq<Seq<char>>, x: Seq<char>)
    ensures
        strung(parts.push(x)) == strung(parts) + x,
{
    assert(parts.push(x).drop_last() == parts);
}

proof fn lemma_strung_says(parts: Seq<Seq<char>>, k: int)
    requires
        1 <= k < parts.len() - 1,
    ensures
        says(strung(parts), parts[k - 1], parts[k], parts[k + 1]),
    decreases parts.len(),
{
    let before = parts.drop_last();
    let x = parts.last();
    let inner = parts[k - 1] + parts[k] + parts[k + 1];
    if k + 2 == parts.len() {
        let a = before.drop_last();
        let b = a.drop_last();
        assert(before.last() == parts[k] && a.last() == parts[k - 1]);
        assert(strung(a) == strung(b) + parts[k - 1]);
        assert(strung(before) == strung(a) + parts[k]);
        assert(strung(parts) == strung(before) + parts[k + 1]);
        assert(strung(parts) == around(strung(b), inner, Seq::<char>::empty()));
    } else {
        lemma_strung_says(before, k);
        let (a, b) = choose|a: Seq<char>, b: Seq<char>|
            strung(before) == #[trigger] around(a, inner, b);
        assert(strung(parts) == around(a, inner, b + x));
    }
}

/// A text between two others.
pub open spec fn around(a: Seq<char>, inner: Seq<char>, b: Seq<char>) -> Seq<char> {
    a + inner + b
}

/// The line for a random-access benchmark tells the reads, the block size, the reads per
/// second, the average latency and the 99th percentile, each with its unit.
#[verifier::spinoff_prover]
#[verifier::rlimit(50)]
pub proof fn law_the_random_line_tells_its_numbers(r: RandomMeasurement)
    ensures
        says(headless::random_line(r), "random: "@, decimal(r.ops as nat), " reads of "@),
        says(
            headless::random_line(r),
            " reads of "@,
            human_bytes_text(r.block_size as nat),
            " · "@,
        ),
        says(headless::random_line(r), " · "@, r.rate().fixed(0), " IOPS · avg "@),
        says(headless::random_line(r), " IOPS · avg "@, decimal(r.avg_nanos as nat), " ns · p99 "@),
        says(headless::random_line(r), " ns · p99 "@, decimal(r.p99_nanos as nat), " ns"@),
{
    let p0 = Seq::<Seq<char>>::empty();
    let p1 = p0.push("random: "@);
    lemma_strung_push(p0, "random: "@);
    let p2 = p1.push(decimal(r.ops as nat));
    lemma_strung_push(p1, decimal(r.ops as nat));
    let p3 = p2.push(" reads of "@);
    lemma_strung_push(p2, " reads of "@);
    let p4 = p3.push(human_bytes_text(r.block_size as nat));
    lemma_strung_push(p3, human_bytes_text(r.block_size as nat));
    let p5 = p4.push(" · "@);
    lemma_strung_push(p4, " · "@);
    let p6 = p5.push(r.rate().fixed(0));
    lemma_strung_push(p5, r.rate().fixed(0));
    let p7 = p6.push(" IOPS · avg "@);
    lemma_strung_push(p6, " IOPS · avg "@);
    let p8 = p7.push(decimal(r.avg_nanos as nat));
    lemma_strung_push(p7, decimal(r.avg_nanos as nat));
    let p9 = p8.push(" ns · p99 "@);
    lemma_strung_push(p8, " ns · p99 "@);
    let p10 = p9.push(decimal(r.p99_nanos as nat));
    lemma_strung_push(p9, decimal(r.p99_nanos as nat));
    let p11 = p10.push(" ns"@);
    lemma_strung_push(p10, " ns"@);
    assert(strung(p1) == "random: "@);
    assert(strung(p11) == headless::random_line(r));
    lemma_strung_says(p11, 1);
    lemma_strung_says(p11, 3);
    lemma_strung_says(p11, 5);
    lemma_strung_says(p11, 7);
    lemma_strung_says(p11, 9);
    assert(p11[0] == "random: "@);
    assert(p11[1] == decimal(r.ops as nat));
    assert(p11[2] == " reads of "@);
    assert(p11[3] == human_bytes_text(r.block_size as nat));
    assert(p11[4] == " · "@);
    assert(p11[5] == r.rate().fixed(0));
    assert(p11[6] == " IOPS · avg "@);
    assert(p11[7] == decimal(r.avg_nanos as nat));
    assert(p11[8] == " ns · p99 "@);
    assert(p11[9] == decimal(r.p99_nanos as nat));
    assert(p11[10] == " ns"@);
}

/// The line for a write benchmark tells the bytes, the throughput and the time of the
/// flush, each with its unit.
#[verifier::spinoff_prover]
#[verifier::rlimit(50)]
pub proof fn law_the_write_line_tells_its_numbers(w: WriteMeasurement)
    ensures
        says(headless::write_line(w), "write: "@, human_bytes_text(w.bytes as nat), " · "@),
        says(headless::write_line(w), " · "@, w.rate().fixed(2), " MiB/s · fsync "@),
        says(
            headless::write_line(w),
            " MiB/s · fsync "@,
            millis(w.fsync_nanos as nat).fixed(2),
            " ms"@,
        ),
{
    let text = headless::write_line(w);
    assert(text == around(
        Seq::<char>::empty(),
        "write: "@ + human_bytes_text(w.bytes as nat) + " · "@,
        w.rate().fixed(2) + " MiB/s · fsync "@ + millis(w.fsync_nanos as nat).fixed(2) + " ms"@,
    ));
    assert(text == around(
        "write: "@ + human_bytes_text(w.bytes as nat),
        " · "@ + w.rate().fixed(2) + " MiB/s · fsync "@,
        millis(w.fsync_nanos as nat).fixed(2) + " ms"@,
    ));
    assert(text == around(
        "write: "@ + human_bytes_text(w.bytes as nat) + " · "@ + w.rate().fixed(2),
        " MiB/s · fsync "@ + millis(w.fsync_nanos as nat).fixed(2) + " ms"@,
        Seq::<char>::empty(),
    ));
}

/// The line for a bulk read tells the files, the bytes, the throughput, the threads and
/// the failures, each with its unit.
#[verifier::spinoff_prover]
#[verifier::rlimit(50)]
pub proof fn law_the_bulk_line_tells_its_numbers(b: BulkMeasurement)
    ensures
        says(headless::bulk_line(b), "bulk: "@, decimal(b.file_count as nat), " files · "@),
        says(headless::bulk_line(b), " files · "@, human_bytes_text(b.bytes_read as nat), " · "@),
        says(headless::bulk_line(b), " · "@, b.rate().fixed(2), " MiB/s · "@),
        says(headless::bulk_line(b), " MiB/s · "@, decimal(b.threads as nat), " threads · "@),
        says(headless::bulk_line(b), " threads · "@, decimal(b.errors as nat), " failed"@),
{
    let p0 = Seq::<Seq<char>>::empty();
    let p1 = p0.push("bulk: "@);
    lemma_strung_push(p0, "bulk: "@);
    let p2 = p1.push(decimal(b.file_count as nat));
    lemma_strung_push(p1, decimal(b.file_count as nat));
    let p3 = p2.push(" files · "@);
    lemma_strung_push(p2, " files · "@);
    let p4 = p3.push(human_bytes_text(b.bytes_read as nat));
    lemma_strung_push(p3, human_bytes_text(b.bytes_read as nat));
    let p5 = p4.push(" · "@);
    lemma_strung_push(p4, " · "@);
    let p6 = p5.push(b.rate().fixed(2));
    lemma_strung_push(p5, b.rate().fixed(2));
    let p7 = p6.push(" MiB/s · "@);
    lemma_strung_push(p6, " MiB/s · "@);
    let p8 = p7.push(decimal(b.threads as nat));
    lemma_strung_push(p7, decimal(b.threads as nat));
    let p9 = p8.push(" threads · "@);
    lemma_strung_push(p8, " threads · "@);
    let p10 = p9.push(decimal(b.errors as nat));
    lemma_strung_push(p9, decimal(b.errors as nat));
    let p11 = p10.push(" failed"@);
    lemma_strung_push(p10, " failed"@);
    assert(strung(p1) == "bulk: "@);
    assert(strung(p11) == headless::bulk_line(b));
    lemma_strung_says(p11, 1);
    lemma_strung_says(p11, 3);
    lemma_strung_says(p11, 5);
    lemma_strung_says(p11, 7);
    lemma_strung_says(p11, 9);
    assert(p11[0] == "bulk: "@);
    assert(p11[1] == decimal(b.file_count as nat));
    assert(p11[2] == " files · "@);
    assert(p11[3] == human_bytes_text(b.bytes_read as nat));
    assert(p11[4] == " · "@);
    assert(p11[5] == b.rate().fixed(2));
    assert(p11[6] == " MiB/s · "@);
    assert(p11[7] == decimal(b.threads as nat));
    assert(p11[8] == " threads · "@);
    assert(p11[9] == decimal(b.errors as nat));
    assert(p11[10] == " failed"@);
}

/// The line for a block size tells the size, the throughput and the average latency.
#[verifier::spinoff_prover]
#[verifier::rlimit(50)]
pub proof fn law_the_point_line_tells_its_numbers(p: SweepPoint)
    ensures
        says(
            headless::point_line(p),
            "  "@,
            right_aligned(human_bytes_text(p.chunk_size as nat), 9),
            "  "@,
        ),
        says(headless::point_line(p), "  "@, right_aligned(p.rate().fixed(1), 9), " MiB/s  avg "@),
        says(headless::point_line(p), " MiB/s  avg "@, decimal(p.avg_chunk_nanos as nat), " ns"@),
{
    let text = headless::point_line(p);
    assert(text == around(
        Seq::<char>::empty(),
        "  "@ + right_aligned(human_bytes_text(p.chunk_size as nat), 9) + "  "@,
        right_aligned(p.rate().fixed(1), 9) + " MiB/s  avg "@
            + decimal(p.avg_chunk_nanos as nat) + " ns"@,
    ));
    assert(text == around(
        "  "@ + right_aligned(human_bytes_text(p.chunk_size as nat), 9),
        "  "@ + right_aligned(p.rate().fixed(1), 9) + " MiB/s  avg "@,
        decimal(p.avg_chunk_nanos as nat) + " ns"@,
    ));
    assert(text == around(
        "  "@ + right_aligned(human_bytes_text(p.chunk_size as nat), 9) + "  "@
            + right_aligned(p.rate().fixed(1), 9),
        " MiB/s  avg "@ + decimal(p.avg_chunk_nanos as nat) + " ns"@,
        Seq::<char>::empty(),
    ));
}

/// The line for a file tells its size, its throughput and its path.
#[verifier::spinoff_prover]
#[verifier::rlimit(50)]
pub proof fn law_the_file_line_tells_its_numbers(m: FileMeasurement)
    ensures
        says(
            headless::file_line(m),
            "  "@,
            right_aligned(human_bytes_text(m.size_bytes as nat), 10),
            "  "@,
        ),
        says(headless::file_line(m), "  "@, right_aligned(m.rate().fixed(1), 9), " MiB/s  "@),
        says(headless::file_line(m), " MiB/s  "@, m.path@, ""@),
{
    reveal_strlit("");
    let text = headless::file_line(m);
    assert(text == around(
        Seq::<char>::empty(),
        "  "@ + right_aligned(human_bytes_text(m.size_bytes as nat), 10) + "  "@,
        right_aligned(m.rate().fixed(1), 9) + " MiB/s  "@ + m.path@ + ""@,
    ));
    assert(text == around(
        "  "@ + right_aligned(human_bytes_text(m.size_bytes as nat), 10),
        "  "@ + right_aligned(m.rate().fixed(1), 9) + " MiB/s  "@,
        m.path@ + ""@,
    ));
    assert(text == around(
        "  "@ + right_aligned(human_bytes_text(m.size_bytes as nat), 10) + "  "@
            + right_aligned(m.rate().fixed(1), 9),
        " MiB/s  "@ + m.path@ + ""@,
        Seq::<char>::empty(),
    ));
}

/// The summary of a measurement tells each of its numbers behind its name.
#[verifier::spinoff_prover]
#[verifier::rlimit(50)]
pub proof fn law_the_summary_tells_its_numbers(m: FileMeasurement)
    ensures
        says(
            m.summary_text(),
            "── FILE MEASUREMENT ─────────────────────────\n  path            "@,
            m.path@,
            "\n  size            "@,
        ),
        says(
            m.summary_text(),
            "\n  size            "@,
            decimal(m.size_bytes as nat),
            " bytes\n  read            "@,
        ),
        says(
            m.summary_text(),
            " bytes\n  read            "@,
            decimal(m.bytes_read as nat),
            " bytes\n  wall time       "@,
        ),
        says(
            m.summary_text(),
            " bytes\n  wall time       "@,
            millis(m.wall_nanos as nat).fixed(3),
            " ms\n  throughput      "@,
        ),
        says(
            m.summary_text(),
            " ms\n  throughput      "@,
            m.rate().fixed(2),
            " MiB/s\n  chunks          "@,
        ),
        says(
            m.summary_text(),
            " MiB/s\n  chunks          "@,
            decimal(m.chunk_count as nat),
            "\n  read latency    avg "@,
        ),
        says(m.summary_text(), "\n  read latency    avg "@, decimal(m.avg_nanos()), " ns · min "@),
        says(m.summary_text(), " ns · min "@, decimal(m.min_nanos()), " ns · max "@),
        says(m.summary_text(), " ns · max "@, decimal(m.max_nanos()), " ns\n  read-busy       "@),
        says(
            m.summary_text(),
            " ns\n  read-busy       "@,
            m.busy().scaled(100).fixed(1),
            "% of wall time\n  timer IRQs      "@,
        ),
        says(
            m.summary_text(),
            "% of wall time\n  timer IRQs      "@,
            decimal(m.timer_interrupts as nat),
            " (hw counter @ "@,
        ),
        says(
            m.summary_text(),
            " (hw counter @ "@,
            decimal(m.counter_hz as nat),
            " Hz)\n  samples         "@,
        ),
        says(
            m.summary_text(),
            " Hz)\n  samples         "@,
            decimal(m.samples@.len()),
            " captured"@,
        ),
{
    let p0 = Seq::<Seq<char>>::empty();
    let p1 = p0.push("── FILE MEASUREMENT ─────────────────────────\n  path            "@);
    lemma_strung_push(p0, "── FILE MEASUREMENT ─────────────────────────\n  path            "@);
    let p2 = p1.push(m.path@);
    lemma_strung_push(p1, m.path@);
    let p3 = p2.push("\n  size            "@);
    lemma_strung_push(p2, "\n  size            "@);
    let p4 = p3.push(decimal(m.size_bytes as nat));
    lemma_strung_push(p3, decimal(m.size_bytes as nat));
    let p5 = p4.push(" bytes\n  read            "@);
    lemma_strung_push(p4, " bytes\n  read            "@);
    let p6 = p5.push(decimal(m.bytes_read as nat));
    lemma_strung_push(p5, decimal(m.bytes_read as nat));
    let p7 = p6.push(" bytes\n  wall time       "@);
    lemma_strung_push(p6, " bytes\n  wall time       "@);
    let p8 = p7.push(millis(m.wall_nanos as nat).fixed(3));
    lemma_strung_push(p7, millis(m.wall_nanos as nat).fixed(3));
    let p9 = p8.push(" ms\n  throughput      "@);
    lemma_strung_push(p8, " ms\n  throughput      "@);
    let p10 = p9.push(m.rate().fixed(2));
    lemma_strung_push(p9, m.rate().fixed(2));
    let p11 = p10.push(" MiB/s\n  chunks          "@);
    lemma_strung_push(p10, " MiB/s\n  chunks          "@);
    let p12 = p11.push(decimal(m.chunk_count as nat));
    lemma_strung_push(p11, decimal(m.chunk_count as nat));
    let p13 = p12.push("\n  read latency    avg "@);
    lemma_strung_push(p12, "\n  read latency    avg "@);
    let p14 = p13.push(decimal(m.avg_nanos()));
    lemma_strung_push(p13, decimal(m.avg_nanos()));
    let p15 = p14.push(" ns · min "@);
    lemma_strung_push(p14, " ns · min "@);
    let p16 = p15.push(decimal(m.min_nanos()));
    lemma_strung_push(p15, decimal(m.min_nanos()));
    let p17 = p16.push(" ns · max "@);
    lemma_strung_push(p16, " ns · max "@);
    let p18 = p17.push(decimal(m.max_nanos()));
    lemma_strung_push(p17, decimal(m.max_nanos()));
    let p19 = p18.push(" ns\n  read-busy       "@);
    lemma_strung_push(p18, " ns\n  read-busy       "@);
    let p20 = p19.push(m.busy().scaled(100).fixed(1));
    lemma_strung_push(p19, m.busy().scaled(100).fixed(1));
    let p21 = p20.push("% of wall time\n  timer IRQs      "@);
    lemma_strung_push(p20, "% of wall time\n  timer IRQs      "@);
    let p22 = p21.push(decimal(m.timer_interrupts as nat));
    lemma_strung_push(p21, decimal(m.timer_interrupts as nat));
    let p23 = p22.push(" (hw counter @ "@);
    lemma_strung_push(p22, " (hw counter @ "@);
    let p24 = p23.push(decimal(m.counter_hz as nat));
    lemma_strung_push(p23, decimal(m.counter_hz as nat));
    let p25 = p24.push(" Hz)\n  samples         "@);
    lemma_strung_push(p24, " Hz)\n  samples         "@);
    let p26 = p25.push(decimal(m.samples@.len()));
    lemma_strung_push(p25, decimal(m.samples@.len()));
    let p27 = p26.push(" captured"@);
    lemma_strung_push(p26, " captured"@);
    assert(strung(p1) == "── FILE MEASUREMENT ─────────────────────────\n  path            "@);
    assert(strung(p27) == m.summary_text());
    lemma_strung_says(p27, 1);
    lemma_strung_says(p27, 3);
    lemma_strung_says(p27, 5);
    lemma_strung_says(p27, 7);
    lemma_strung_says(p27, 9);
    lemma_strung_says(p27, 11);
    lemma_strung_says(p27, 13);
    lemma_strung_says(p27, 15);
    lemma_strung_says(p27, 17);
    lemma_strung_says(p27, 19);
    lemma_strung_says(p27, 21);
    lemma_strung_says(p27, 23);
    lemma_strung_says(p27, 25);
    assert(p27[0] == "── FILE MEASUREMENT ─────────────────────────\n  path            "@);
    assert(p27[1] == m.path@);
    assert(p27[2] == "\n  size            "@);
    assert(p27[3] == decimal(m.size_bytes as nat));
    assert(p27[4] == " bytes\n  read            "@);
    assert(p27[5] == decimal(m.bytes_read as nat));
    assert(p27[6] == " bytes\n  wall time       "@);
    assert(p27[7] == millis(m.wall_nanos as nat).fixed(3));
    assert(p27[8] == " ms\n  throughput      "@);
    assert(p27[9] == m.rate().fixed(2));
    assert(p27[10] == " MiB/s\n  chunks          "@);
    assert(p27[11] == decimal(m.chunk_count as nat));
    assert(p27[12] == "\n  read latency    avg "@);
    assert(p27[13] == decimal(m.avg_nanos()));
    assert(p27[14] == " ns · min "@);
    assert(p27[15] == decimal(m.min_nanos()));
    assert(p27[16] == " ns · max "@);
    assert(p27[17] == decimal(m.max_nanos()));
    assert(p27[18] == " ns\n  read-busy       "@);
    assert(p27[19] == m.busy().scaled(100).fixed(1));
    assert(p27[20] == "% of wall time\n  timer IRQs      "@);
    assert(p27[21] == decimal(m.timer_interrupts as nat));
    assert(p27[22] == " (hw counter @ "@);
    assert(p27[23] == decimal(m.counter_hz as nat));
    assert(p27[24] == " Hz)\n  samples         "@);
    assert(p27[25] == decimal(m.samples@.len()));
    assert(p27[26] == " captured"@);
}

/// The screen of a file tells the average, the least and the greatest latency, each
/// behind its name.
#[verifier::spinoff_prover]
#[verifier::rlimit(50)]
pub proof fn law_the_screen_tells_the_latencies(m: FileMeasurement)
    ensures
        says(screen::latency_text(m), "avg "@, decimal(m.avg_nanos()), " ns · min "@),
        says(screen::latency_text(m), " ns · min "@, decimal(m.min_nanos()), " ns · max "@),
        says(screen::latency_text(m), " ns · max "@, decimal(m.max_nanos()), " ns"@),
{
    let text = screen::latency_text(m);
    assert(text == around(
        Seq::<char>::empty(),
        "avg "@ + decimal(m.avg_nanos()) + " ns · min "@,
        decimal(m.min_nanos()) + " ns · max "@ + decimal(m.max_nanos()) + " ns"@,
    ));
    assert(text == around(
        "avg "@ + decimal(m.avg_nanos()),
        " ns · min "@ + decimal(m.min_nanos()) + " ns · max "@,
        decimal(m.max_nanos()) + " ns"@,
    ));
    assert(text == around(
        "avg "@ + decimal(m.avg_nanos()) + " ns · min "@ + decimal(m.min_nanos()),
        " ns · max "@ + decimal(m.max_nanos()) + " ns"@,
        Seq::<char>::empty(),
    ));
}

/// The screen of a file tells the 50th, the 95th and the 99th percentile, each behind
/// its name.
#[verifier::spinoff_prover]
#[verifier::rlimit(50)]
pub proof fn law_the_screen_tells_the_percentiles(m: FileMeasurement)
    ensures
        says(screen::percentile_text(m), "p50 "@, decimal(m.percentile(50)), " ns · p95 "@),
        says(screen::percentile_text(m), " ns · p95 "@, decimal(m.percentile(95)), " ns · p99 "@),
        says(screen::percentile_text(m), " ns · p99 "@, decimal(m.percentile(99)), " ns"@),
{
    let text = screen::percentile_text(m);
    assert(text == around(
        Seq::<char>::empty(),
        "p50 "@ + decimal(m.percentile(50)) + " ns · p95 "@,
        decimal(m.percentile(95)) + " ns · p99 "@ + decimal(m.percentile(99)) + " ns"@,
    ));
    assert(text == around(
        "p50 "@ + decimal(m.percentile(50)),
        " ns · p95 "@ + decimal(m.percentile(95)) + " ns · p99 "@,
        decimal(m.percentile(99)) + " ns"@,
    ));
    assert(text == around(
        "p50 "@ + decimal(m.percentile(50)) + " ns · p95 "@ + decimal(m.percentile(95)),
        " ns · p99 "@ + decimal(m.percentile(99)) + " ns"@,
        Seq::<char>::empty(),
    ));
}

/// The Markdown row of a file has its path, size, throughput, average latency and 99th
/// percentile, in this order.
#[verifier::spinoff_prover]
#[verifier::rlimit(50)]
pub proof fn law_the_markdown_row_of_a_file_tells_its_numbers(m: FileMeasurement)
    ensures
        says(markdown::file_line(m), "| `"@, m.path@, "` | "@),
        says(markdown::file_line(m), "` | "@, human_bytes_text(m.size_bytes as nat), " | "@),
        says(markdown::file_line(m), " | "@, m.rate().fixed(1), " MiB/s | "@),
        says(markdown::file_line(m), " MiB/s | "@, decimal(m.avg_nanos()), " ns | "@),
        says(markdown::file_line(m), " ns | "@, decimal(m.percentile(99)), " ns |\n"@),
{
    let p0 = Seq::<Seq<char>>::empty();
    let p1 = p0.push("| `"@);
    lemma_strung_push(p0, "| `"@);
    let p2 = p1.push(m.path@);
    lemma_strung_push(p1, m.path@);
    let p3 = p2.push("` | "@);
    lemma_strung_push(p2, "` | "@);
    let p4 = p3.push(human_bytes_text(m.size_bytes as nat));
    lemma_strung_push(p3, human_bytes_text(m.size_bytes as nat));
    let p5 = p4.push(" | "@);
    lemma_strung_push(p4, " | "@);
    let p6 = p5.push(m.rate().fixed(1));
    lemma_strung_push(p5, m.rate().fixed(1));
    let p7 = p6.push(" MiB/s | "@);
    lemma_strung_push(p6, " MiB/s | "@);
    let p8 = p7.push(decimal(m.avg_nanos()));
    lemma_strung_push(p7, decimal(m.avg_nanos()));
    let p9 = p8.push(" ns | "@);
    lemma_strung_push(p8, " ns | "@);
    let p10 = p9.push(decimal(m.percentile(99)));
    lemma_strung_push(p9, decimal(m.percentile(99)));
    let p11 = p10.push(" ns |\n"@);
    lemma_strung_push(p10, " ns |\n"@);
    assert(strung(p1) == "| `"@);
    assert(strung(p11) == markdown::file_line(m));
    lemma_strung_says(p11, 1);
    lemma_strung_says(p11, 3);
    lemma_strung_says(p11, 5);
    lemma_strung_says(p11, 7);
    lemma_strung_says(p11, 9);
    assert(p11[0] == "| `"@);
    assert(p11[1] == m.path@);
    assert(p11[2] == "` | "@);
    assert(p11[3] == human_bytes_text(m.size_bytes as nat));
    assert(p11[4] == " | "@);
    assert(p11[5] == m.rate().fixed(1));
    assert(p11[6] == " MiB/s | "@);
    assert(p11[7] == decimal(m.avg_nanos()));
    assert(p11[8] == " ns | "@);
    assert(p11[9] == decimal(m.percentile(99)));
    assert(p11[10] == " ns |\n"@);
}

/// The Markdown row of a file type has its extension, files, bytes and throughput, in
/// this order.
#[verifier::spinoff_prover]
#[verifier::rlimit(50)]
pub proof fn law_the_markdown_row_of_a_type_tells_its_numbers(e: ExtTotals)
    ensures
        says(markdown::ext_line(e), "| "@, e.ext, " | "@),
        says(markdown::ext_line(e), " | "@, decimal(e.files), " | "@),
        says(markdown::ext_line(e), " | "@, human_bytes_text(e.bytes), " | "@),
        says(markdown::ext_line(e), " | "@, e.rate().fixed(1), " MiB/s |\n"@),
{
    let text = markdown::ext_line(e);
    assert(text == around(
        Seq::<char>::empty(),
        "| "@ + e.ext + " | "@,
        decimal(e.files) + " | "@ + human_bytes_text(e.bytes) + " | "@ + e.rate().fixed(1)
            + " MiB/s |\n"@,
    ));
    assert(text == around(
        "| "@ + e.ext,
        " | "@ + decimal(e.files) + " | "@,
        human_bytes_text(e.bytes) + " | "@ + e.rate().fixed(1) + " MiB/s |\n"@,
    ));
    assert(text == around(
        "| "@ + e.ext + " | "@ + decimal(e.files),
        " | "@ + human_bytes_text(e.bytes) + " | "@,
        e.rate().fixed(1) + " MiB/s |\n"@,
    ));
    assert(text == around(
        "| "@ + e.ext + " | "@ + decimal(e.files) + " | "@ + human_bytes_text(e.bytes),
        " | "@ + e.rate().fixed(1) + " MiB/s |\n"@,
        Seq::<char>::empty(),
    ));
}

/// The Markdown row of a worker thread has its index, files, bytes and throughput, in
/// this order.
#[verifier::spinoff_prover]
#[verifier::rlimit(50)]
pub proof fn law_the_markdown_row_of_a_thread_tells_its_numbers(t: ThreadStat)
    ensures
        says(markdown::thread_line(t), "| "@, decimal(t.index as nat), " | "@),
        says(markdown::thread_line(t), " | "@, decimal(t.files as nat), " | "@),
        says(markdown::thread_line(t), " | "@, human_bytes_text(t.bytes as nat), " | "@),
        says(markdown::thread_line(t), " | "@, t.rate().fixed(1), " MiB/s |\n"@),
{
    let text = markdown::thread_line(t);
    assert(text == around(
        Seq::<char>::empty(),
        "| "@ + decimal(t.index as nat) + " | "@,
        decimal(t.files as nat) + " | "@ + human_bytes_text(t.bytes as nat) + " | "@
            + t.rate().fixed(1) + " MiB/s |\n"@,
    ));
    assert(text == around(
        "| "@ + decimal(t.index as nat),
        " | "@ + decimal(t.files as nat) + " | "@,
        human_bytes_text(t.bytes as nat) + " | "@ + t.rate().fixed(1) + " MiB/s |\n"@,
    ));
    assert(text == around(
        "| "@ + decimal(t.index as nat) + " | "@ + decimal(t.files as nat),
        " | "@ + human_bytes_text(t.bytes as nat) + " | "@,
        t.rate().fixed(1) + " MiB/s |\n"@,
    ));
    assert(text == around(
        "| "@ + decimal(t.index as nat) + " | "@ + decimal(t.files as nat) + " | "@
            + human_bytes_text(t.bytes as nat),
        " | "@ + t.rate().fixed(1) + " MiB/s |\n"@,
        Seq::<char>::empty(),
    ));
}

/// The Markdown row of a block size has the size, the throughput and the average
/// latency, in this order.
#[verifier::spinoff_prover]
#[verifier::rlimit(50)]
pub proof fn law_the_markdown_row_of_a_block_size_tells_its_numbers(p: SweepPoint)
    ensures
        says(markdown::point_line(p), "| "@, human_bytes_text(p.chunk_size as nat), " | "@),
        says(markdown::point_line(p), " | "@, p.rate().fixed(1), " MiB/s | "@),
        says(markdown::point_line(p), " MiB/s | "@, decimal(p.avg_chunk_nanos as nat), " ns |\n"@),
{
    let text = markdown::point_line(p);
    assert(text == around(
        Seq::<char>::empty(),
        "| "@ + human_bytes_text(p.chunk_size as nat) + " | "@,
        p.rate().fixed(1) + " MiB/s | "@ + decimal(p.avg_chunk_nanos as nat) + " ns |\n"@,
    ));
    assert(text == around(
        "| "@ + human_bytes_text(p.chunk_size as nat),
        " | "@ + p.rate().fixed(1) + " MiB/s | "@,
        decimal(p.avg_chunk_nanos as nat) + " ns |\n"@,
    ));
    assert(text == around(
        "| "@ + human_bytes_text(p.chunk_size as nat) + " | "@ + p.rate().fixed(1),
        " MiB/s | "@ + decimal(p.avg_chunk_nanos as nat) + " ns |\n"@,
        Seq::<char>::empty(),
    ));
}

/// A Markdown report of a write benchmark tells each number behind its name.
#[verifier::spinoff_prover]
#[verifier::rlimit(50)]
pub proof fn law_a_markdown_write_report_tells_its_numbers(w: WriteMeasurement)
    ensures
        says(
            markdown::write_text(w),
            "# Sawskas Profiler — write benchmark\n\n- **Bytes written:** "@,
            human_bytes_text(w.bytes as nat),
            "\n- **Throughput:** "@,
        ),
        says(
            markdown::write_text(w),
            "\n- **Throughput:** "@,
            w.rate().fixed(1),
            " MiB/s\n- **Block size:** "@,
        ),
        says(
            markdown::write_text(w),
            " MiB/s\n- **Block size:** "@,
            human_bytes_text(w.chunk_size as nat),
            "\n- **Wall time:** "@,
        ),
        says(
            markdown::write_text(w),
            "\n- **Wall time:** "@,
            millis(w.wall_nanos as nat).fixed(2),
            " ms\n- **fsync:** "@,
        ),
        says(
            markdown::write_text(w),
            " ms\n- **fsync:** "@,
            millis(w.fsync_nanos as nat).fixed(2),
            " ms\n"@,
        ),
{
    let p0 = Seq::<Seq<char>>::empty();
    let p1 = p0.push("# Sawskas Profiler — write benchmark\n\n- **Bytes written:** "@);
    lemma_strung_push(p0, "# Sawskas Profiler — write benchmark\n\n- **Bytes written:** "@);
    let p2 = p1.push(human_bytes_text(w.bytes as nat));
    lemma_strung_push(p1, human_bytes_text(w.bytes as nat));
    let p3 = p2.push("\n- **Throughput:** "@);
    lemma_strung_push(p2, "\n- **Throughput:** "@);
    let p4 = p3.push(w.rate().fixed(1));
    lemma_strung_push(p3, w.rate().fixed(1));
    let p5 = p4.push(" MiB/s\n- **Block size:** "@);
    lemma_strung_push(p4, " MiB/s\n- **Block size:** "@);
    let p6 = p5.push(human_bytes_text(w.chunk_size as nat));
    lemma_strung_push(p5, human_bytes_text(w.chunk_size as nat));
    let p7 = p6.push("\n- **Wall time:** "@);
    lemma_strung_push(p6, "\n- **Wall time:** "@);
    let p8 = p7.push(millis(w.wall_nanos as nat).fixed(2));
    lemma_strung_push(p7, millis(w.wall_nanos as nat).fixed(2));
    let p9 = p8.push(" ms\n- **fsync:** "@);
    lemma_strung_push(p8, " ms\n- **fsync:** "@);
    let p10 = p9.push(millis(w.fsync_nanos as nat).fixed(2));
    lemma_strung_push(p9, millis(w.fsync_nanos as nat).fixed(2));
    let p11 = p10.push(" ms\n"@);
    lemma_strung_push(p10, " ms\n"@);
    assert(strung(p1) == "# Sawskas Profiler — write benchmark\n\n- **Bytes written:** "@);
    assert(strung(p11) == markdown::write_text(w));
    lemma_strung_says(p11, 1);
    lemma_strung_says(p11, 3);
    lemma_strung_says(p11, 5);
    lemma_strung_says(p11, 7);
    lemma_strung_says(p11, 9);
    assert(p11[0] == "# Sawskas Profiler — write benchmark\n\n- **Bytes written:** "@);
    assert(p11[1] == human_bytes_text(w.bytes as nat));
    assert(p11[2] == "\n- **Throughput:** "@);
    assert(p11[3] == w.rate().fixed(1));
    assert(p11[4] == " MiB/s\n- **Block size:** "@);
    assert(p11[5] == human_bytes_text(w.chunk_size as nat));
    assert(p11[6] == "\n- **Wall time:** "@);
    assert(p11[7] == millis(w.wall_nanos as nat).fixed(2));
    assert(p11[8] == " ms\n- **fsync:** "@);
    assert(p11[9] == millis(w.fsync_nanos as nat).fixed(2));
    assert(p11[10] == " ms\n"@);
}

/// A Markdown report of a random-access benchmark tells each number behind its name.
#[verifier::spinoff_prover]
#[verifier::rlimit(50)]
pub proof fn law_a_markdown_random_report_tells_its_numbers(r: RandomMeasurement)
    ensures
        says(
            markdown::random_text(r),
            "# Sawskas Profiler — random access\n\n- **IOPS:** "@,
            r.rate().fixed(0),
            "\n- **Ops:** "@,
        ),
        says(
            markdown::random_text(r),
            "\n- **Ops:** "@,
            decimal(r.ops as nat),
            "\n- **Block size:** "@,
        ),
        says(
            markdown::random_text(r),
            "\n- **Block size:** "@,
            human_bytes_text(r.block_size as nat),
            "\n- **Avg latency:** "@,
        ),
        says(
            markdown::random_text(r),
            "\n- **Avg latency:** "@,
            decimal(r.avg_nanos as nat),
            " ns\n- **p99 latency:** "@,
        ),
        says(
            markdown::random_text(r),
            " ns\n- **p99 latency:** "@,
            decimal(r.p99_nanos as nat),
            " ns\n- **Mode:** "@,
        ),
        says(markdown::random_text(r), " ns\n- **Mode:** "@, mode(r.uncached), "\n"@),
{
    let p0 = Seq::<Seq<char>>::empty();
    let p1 = p0.push("# Sawskas Profiler — random access\n\n- **IOPS:** "@);
    lemma_strung_push(p0, "# Sawskas Profiler — random access\n\n- **IOPS:** "@);
    let p2 = p1.push(r.rate().fixed(0));
    lemma_strung_push(p1, r.rate().fixed(0));
    let p3 = p2.push("\n- **Ops:** "@);
    lemma_strung_push(p2, "\n- **Ops:** "@);
    let p4 = p3.push(decimal(r.ops as nat));
    lemma_strung_push(p3, decimal(r.ops as nat));
    let p5 = p4.push("\n- **Block size:** "@);
    lemma_strung_push(p4, "\n- **Block size:** "@);
    let p6 = p5.push(human_bytes_text(r.block_size as nat));
    lemma_strung_push(p5, human_bytes_text(r.block_size as nat));
    let p7 = p6.push("\n- **Avg latency:** "@);
    lemma_strung_push(p6, "\n- **Avg latency:** "@);
    let p8 = p7.push(decimal(r.avg_nanos as nat));
    lemma_strung_push(p7, decimal(r.avg_nanos as nat));
    let p9 = p8.push(" ns\n- **p99 latency:** "@);
    lemma_strung_push(p8, " ns\n- **p99 latency:** "@);
    let p10 = p9.push(decimal(r.p99_nanos as nat));
    lemma_strung_push(p9, decimal(r.p99_nanos as nat));
    let p11 = p10.push(" ns\n- **Mode:** "@);
    lemma_strung_push(p10, " ns\n- **Mode:** "@);
    let p12 = p11.push(mode(r.uncached));
    lemma_strung_push(p11, mode(r.uncached));
    let p13 = p12.push("\n"@);
    lemma_strung_push(p12, "\n"@);
    assert(strung(p1) == "# Sawskas Profiler — random access\n\n- **IOPS:** "@);
    assert(strung(p13) == markdown::random_text(r));
    lemma_strung_says(p13, 1);
    lemma_strung_says(p13, 3);
    lemma_strung_says(p13, 5);
    lemma_strung_says(p13, 7);
    lemma_strung_says(p13, 9);
    lemma_strung_says(p13, 11);
    assert(p13[0] == "# Sawskas Profiler — random access\n\n- **IOPS:** "@);
    assert(p13[1] == r.rate().fixed(0));
    assert(p13[2] == "\n- **Ops:** "@);
    assert(p13[3] == decimal(r.ops as nat));
    assert(p13[4] == "\n- **Block size:** "@);
    assert(p13[5] == human_bytes_text(r.block_size as nat));
    assert(p13[6] == "\n- **Avg latency:** "@);
    assert(p13[7] == decimal(r.avg_nanos as nat));
    assert(p13[8] == " ns\n- **p99 latency:** "@);
    assert(p13[9] == decimal(r.p99_nanos as nat));
    assert(p13[10] == " ns\n- **Mode:** "@);
    assert(p13[11] == mode(r.uncached));
    assert(p13[12] == "\n"@);
}

/// The head of a Markdown profile tells the target, the files, the bytes of all of them,
/// their throughput and the read mode, each behind its name.
#[verifier::spinoff_prover]
#[verifier::rlimit(50)]
pub proof fn law_the_head_of_a_markdown_profile_tells_its_totals(
    root: Seq<char>,
    files: Seq<FileMeasurement>,
)
    ensures
        says(
            markdown::profile_head(root, files),
            "# Sawskas Profiler — profile report\n\n**Target:** `"@,
            root,
            "` · **Files:** "@,
        ),
        says(
            markdown::profile_head(root, files),
            "` · **Files:** "@,
            decimal(files.len()),
            " · **Total:** "@,
        ),
        says(
            markdown::profile_head(root, files),
            " · **Total:** "@,
            human_bytes_text(bytes_of(files)),
            " · **Throughput:** "@,
        ),
        says(
            markdown::profile_head(root, files),
            " · **Throughput:** "@,
            mib_per_second(bytes_of(files), nanos_of(files)).fixed(1),
            " MiB/s · **Mode:** "@,
        ),
        says(
            markdown::profile_head(root, files),
            " MiB/s · **Mode:** "@,
            mode(files.len() > 0 && files[0].uncached),
            "\n\n| path | size | throughput | avg | p99 |\n|---|--:|--:|--:|--:|\n"@,
        ),
{
    lemma_bytes_of(files);
    lemma_nanos_of(files);
    let p0 = Seq::<Seq<char>>::empty();
    let p1 = p0.push("# Sawskas Profiler — profile report\n\n**Target:** `"@);
    lemma_strung_push(p0, "# Sawskas Profiler — profile report\n\n**Target:** `"@);
    let p2 = p1.push(root);
    lemma_strung_push(p1, root);
    let p3 = p2.push("` · **Files:** "@);
    lemma_strung_push(p2, "` · **Files:** "@);
    let p4 = p3.push(decimal(files.len()));
    lemma_strung_push(p3, decimal(files.len()));
    let p5 = p4.push(" · **Total:** "@);
    lemma_strung_push(p4, " · **Total:** "@);
    let p6 = p5.push(human_bytes_text(bytes_of(files)));
    lemma_strung_push(p5, human_bytes_text(bytes_of(files)));
    let p7 = p6.push(" · **Throughput:** "@);
    lemma_strung_push(p6, " · **Throughput:** "@);
    let p8 = p7.push(mib_per_second(bytes_of(files), nanos_of(files)).fixed(1));
    lemma_strung_push(p7, mib_per_second(bytes_of(files), nanos_of(files)).fixed(1));
    let p9 = p8.push(" MiB/s · **Mode:** "@);
    lemma_strung_push(p8, " MiB/s · **Mode:** "@);
    let p10 = p9.push(mode(files.len() > 0 && files[0].uncached));
    lemma_strung_push(p9, mode(files.len() > 0 && files[0].uncached));
    let p11 = p10.push("\n\n| path | size | throughput | avg | p99 |\n|---|--:|--:|--:|--:|\n"@);
    lemma_strung_push(
        p10,
        "\n\n| path | size | throughput | avg | p99 |\n|---|--:|--:|--:|--:|\n"@,
    );
    assert(strung(p1) == "# Sawskas Profiler — profile report\n\n**Target:** `"@);
    assert(strung(p11) == markdown::profile_head(root, files));
    lemma_strung_says(p11, 1);
    lemma_strung_says(p11, 3);
    lemma_strung_says(p11, 5);
    lemma_strung_says(p11, 7);
    lemma_strung_says(p11, 9);
    assert(p11[0] == "# Sawskas Profiler — profile report\n\n**Target:** `"@);
    assert(p11[1] == root);
    assert(p11[2] == "` · **Files:** "@);
    assert(p11[3] == decimal(files.len()));
    assert(p11[4] == " · **Total:** "@);
    assert(p11[5] == human_bytes_text(bytes_of(files)));
    assert(p11[6] == " · **Throughput:** "@);
    assert(p11[7] == mib_per_second(bytes_of(files), nanos_of(files)).fixed(1));
    assert(p11[8] == " MiB/s · **Mode:** "@);
    assert(p11[9] == mode(files.len() > 0 && files[0].uncached));
    assert(p11[10] == "\n\n| path | size | throughput | avg | p99 |\n|---|--:|--:|--:|--:|\n"@);
}

/// The head of a Markdown bulk report tells each total behind its name.
#[verifier::spinoff_prover]
#[verifier::rlimit(50)]
pub proof fn law_the_head_of_a_markdown_bulk_report_tells_its_totals(
    root: Seq<char>,
    b: BulkMeasurement,
)
    ensures
        says(
            markdown::bulk_head(root, b),
            "# Sawskas Profiler — bulk throughput report\n\n**Target:** `"@,
            root,
            "` · **Threads:** "@,
        ),
        says(
            markdown::bulk_head(root, b),
            "` · **Threads:** "@,
            decimal(b.threads as nat),
            " · **Files:** "@,
        ),
        says(
            markdown::bulk_head(root, b),
            " · **Files:** "@,
            decimal(b.file_count as nat),
            " · **Total:** "@,
        ),
        says(
            markdown::bulk_head(root, b),
            " · **Total:** "@,
            human_bytes_text(b.bytes_read as nat),
            " · **Throughput:** "@,
        ),
        says(
            markdown::bulk_head(root, b),
            " · **Throughput:** "@,
            b.rate().fixed(1),
            " MiB/s\n\n| thread | files | bytes | throughput |\n|--:|--:|--:|--:|\n"@,
        ),
{
    let p0 = Seq::<Seq<char>>::empty();
    let p1 = p0.push("# Sawskas Profiler — bulk throughput report\n\n**Target:** `"@);
    lemma_strung_push(p0, "# Sawskas Profiler — bulk throughput report\n\n**Target:** `"@);
    let p2 = p1.push(root);
    lemma_strung_push(p1, root);
    let p3 = p2.push("` · **Threads:** "@);
    lemma_strung_push(p2, "` · **Threads:** "@);
    let p4 = p3.push(decimal(b.threads as nat));
    lemma_strung_push(p3, decimal(b.threads as nat));
    let p5 = p4.push(" · **Files:** "@);
    lemma_strung_push(p4, " · **Files:** "@);
    let p6 = p5.push(decimal(b.file_count as nat));
    lemma_strung_push(p5, decimal(b.file_count as nat));
    let p7 = p6.push(" · **Total:** "@);
    lemma_strung_push(p6, " · **Total:** "@);
    let p8 = p7.push(human_bytes_text(b.bytes_read as nat));
    lemma_strung_push(p7, human_bytes_text(b.bytes_read as nat));
    let p9 = p8.push(" · **Throughput:** "@);
    lemma_strung_push(p8, " · **Throughput:** "@);
    let p10 = p9.push(b.rate().fixed(1));
    lemma_strung_push(p9, b.rate().fixed(1));
    let p11 = p10.push(" MiB/s\n\n| thread | files | bytes | throughput |\n|--:|--:|--:|--:|\n"@);
    lemma_strung_push(
        p10,
        " MiB/s\n\n| thread | files | bytes | throughput |\n|--:|--:|--:|--:|\n"@,
    );
    assert(strung(p1) == "# Sawskas Profiler — bulk throughput report\n\n**Target:** `"@);
    assert(strung(p11) == markdown::bulk_head(root, b));
    lemma_strung_says(p11, 1);
    lemma_strung_says(p11, 3);
    lemma_strung_says(p11, 5);
    lemma_strung_says(p11, 7);
    lemma_strung_says(p11, 9);
    assert(p11[0] == "# Sawskas Profiler — bulk throughput report\n\n**Target:** `"@);
    assert(p11[1] == root);
    assert(p11[2] == "` · **Threads:** "@);
    assert(p11[3] == decimal(b.threads as nat));
    assert(p11[4] == " · **Files:** "@);
    assert(p11[5] == decimal(b.file_count as nat));
    assert(p11[6] == " · **Total:** "@);
    assert(p11[7] == human_bytes_text(b.bytes_read as nat));
    assert(p11[8] == " · **Throughput:** "@);
    assert(p11[9] == b.rate().fixed(1));
    assert(p11[10] == " MiB/s\n\n| thread | files | bytes | throughput |\n|--:|--:|--:|--:|\n"@);
}

/// The head of a Markdown sweep tells the file, its size and the read mode, each behind
/// its name.
#[verifier::spinoff_prover]
#[verifier::rlimit(50)]
pub proof fn law_the_head_of_a_markdown_sweep_tells_its_file(s: SweepResult)
    ensures
        says(
            markdown::sweep_head(s),
            "# Sawskas Profiler — block-size sweep\n\n**File:** `"@,
            s.path@,
            "` · **Size:** "@,
        ),
        says(
            markdown::sweep_head(s),
            "` · **Size:** "@,
            human_bytes_text(s.size_bytes as nat),
            " · **Mode:** "@,
        ),
        says(
            markdown::sweep_head(s),
            " · **Mode:** "@,
            mode(s.uncached),
            "\n\n| block size | throughput | avg latency |\n|---|--:|--:|\n"@,
        ),
{
    let text = markdown::sweep_head(s);
    assert(text == around(
        Seq::<char>::empty(),
        "# Sawskas Profiler — block-size sweep\n\n**File:** `"@ + s.path@ + "` · **Size:** "@,
        human_bytes_text(s.size_bytes as nat) + " · **Mode:** "@ + mode(s.uncached)
            + "\n\n| block size | throughput | avg latency |\n|---|--:|--:|\n"@,
    ));
    assert(text == around(
        "# Sawskas Profiler — block-size sweep\n\n**File:** `"@ + s.path@,
        "` · **Size:** "@ + human_bytes_text(s.size_bytes as nat) + " · **Mode:** "@,
        mode(s.uncached) + "\n\n| block size | throughput | avg latency |\n|---|--:|--:|\n"@,
    ));
    assert(text == around(
        "# Sawskas Profiler — block-size sweep\n\n**File:** `"@ + s.path@ + "` · **Size:** "@
            + human_bytes_text(s.size_bytes as nat),
        " · **Mode:** "@ + mode(s.uncached)
            + "\n\n| block size | throughput | avg latency |\n|---|--:|--:|\n"@,
        Seq::<char>::empty(),
    ));
}

/// Whether some lines of a screen have a row with this label and value.
pub open spec fn shows(lines: Seq<Seq<SpanModel>>, label: Seq<char>, value: Seq<char>) -> bool {
    lines.contains(screen::row(label, value))
}

/// The screen of a file has each of its numbers in a row of its own.
#[verifier::spinoff_prover]
#[verifier::rlimit(50)]
pub proof fn law_the_screen_of_a_file_has_its_rows(m: FileMeasurement)
    ensures
        shows(screen::file_rows(m), "TARGET"@, m.path@),
        shows(screen::file_rows(m), "SIZE"@, decimal(m.size_bytes as nat) + " bytes"@),
        shows(screen::file_rows(m), "WALL TIME"@, millis(m.wall_nanos as nat).fixed(3) + " ms"@),
        shows(screen::file_rows(m), "THROUGHPUT"@, m.rate().fixed(2) + " MiB/s"@),
        shows(screen::file_rows(m), "CHUNKS"@, decimal(m.chunk_count as nat)),
        shows(screen::file_rows(m), "READ LATENCY"@, screen::latency_text(m)),
        shows(screen::file_rows(m), "PERCENTILES"@, screen::percentile_text(m)),
        shows(
            screen::file_rows(m),
            "READ-BUSY"@,
            m.busy().scaled(100).fixed(1) + "% of wall time"@,
        ),
        shows(
            screen::file_rows(m),
            "TIMER IRQS"@,
            decimal(m.timer_interrupts as nat) + " (hw counter @ "@
                + decimal(m.counter_hz as nat) + " Hz)"@,
        ),
        shows(screen::file_rows(m), "SAMPLES"@, decimal(m.samples@.len()) + " captured"@),
{
    let rows = screen::file_rows(m);
    assert(rows[0] == screen::row("TARGET"@, m.path@));
    assert(rows[1] == screen::row("SIZE"@, decimal(m.size_bytes as nat) + " bytes"@));
    assert(rows[3] == screen::row("WALL TIME"@, millis(m.wall_nanos as nat).fixed(3) + " ms"@));
    assert(rows[4] == screen::row("THROUGHPUT"@, m.rate().fixed(2) + " MiB/s"@));
    assert(rows[5] == screen::row("CHUNKS"@, decimal(m.chunk_count as nat)));
    assert(rows[6] == screen::row("READ LATENCY"@, screen::latency_text(m)));
    assert(rows[7] == screen::row("PERCENTILES"@, screen::percentile_text(m)));
    assert(rows[8] == screen::row("READ-BUSY"@, m.busy().scaled(100).fixed(1) + "% of wall time"@));
    assert(rows[9] == screen::row(
        "TIMER IRQS"@,
        decimal(m.timer_interrupts as nat) + " (hw counter @ "@ + decimal(m.counter_hz as nat)
            + " Hz)"@,
    ));
    assert(rows[10] == screen::row("SAMPLES"@, decimal(m.samples@.len()) + " captured"@));
}

/// The screen of a bulk read has each of its numbers in a row of its own.
#[verifier::spinoff_prover]
#[verifier::rlimit(50)]
pub proof fn law_the_screen_of_a_bulk_read_has_its_rows(m: BulkMeasurement)
    ensures
        shows(
            screen::bulk_report(m),
            "FILES"@,
            decimal(m.file_count as nat) + " · "@ + decimal(m.errors as nat) + " failed"@,
        ),
        shows(screen::bulk_report(m), "THREADS"@, decimal(m.threads as nat)),
        shows(screen::bulk_report(m), "READ MODE"@, mode(m.uncached)),
        shows(screen::bulk_report(m), "TOTAL READ"@, human_bytes_text(m.bytes_read as nat)),
        shows(screen::bulk_report(m), "WALL TIME"@, millis(m.wall_nanos as nat).fixed(3) + " ms"@),
        shows(screen::bulk_report(m), "THROUGHPUT"@, m.rate().fixed(2) + " MiB/s"@),
        shows(
            screen::bulk_report(m),
            "HW COUNTER"@,
            decimal(m.counter_ticks as nat) + " ticks @ "@ + decimal(m.counter_hz as nat)
                + " Hz"@,
        ),
{
    let rows = screen::bulk_report(m);
    assert(rows[1] == screen::row(
        "FILES"@,
        decimal(m.file_count as nat) + " · "@ + decimal(m.errors as nat) + " failed"@,
    ));
    assert(rows[2] == screen::row("THREADS"@, decimal(m.threads as nat)));
    assert(rows[3] == screen::row("READ MODE"@, mode(m.uncached)));
    assert(rows[4] == screen::row("TOTAL READ"@, human_bytes_text(m.bytes_read as nat)));
    assert(rows[5] == screen::row("WALL TIME"@, millis(m.wall_nanos as nat).fixed(3) + " ms"@));
    assert(rows[6] == screen::row("THROUGHPUT"@, m.rate().fixed(2) + " MiB/s"@));
    assert(rows[7] == screen::row(
        "HW COUNTER"@,
        decimal(m.counter_ticks as nat) + " ticks @ "@ + decimal(m.counter_hz as nat) + " Hz"@,
    ));
}

/// The screen of a directory scan has each of its totals in a row of its own.
#[verifier::spinoff_prover]
#[verifier::rlimit(50)]
pub proof fn law_the_screen_of_a_scan_has_its_totals(a: Aggregate)
    ensures
        shows(
            aggregate_report(a),
            "FILES"@,
            decimal(a.files as nat) + " scanned · "@ + decimal(a.errors as nat) + " failed"@,
        ),
        shows(aggregate_report(a), "TOTAL SIZE"@, human_bytes_text(a.bytes as nat)),
        shows(aggregate_report(a), "READ TIME"@, millis(a.wall_nanos as nat).fixed(3) + " ms"@),
        shows(
            aggregate_report(a),
            "THROUGHPUT"@,
            mib_per_second(a.bytes as nat, a.wall_nanos as nat).fixed(2) + " MiB/s"@,
        ),
        shows(aggregate_report(a), "CHUNKS"@, decimal(a.chunks as nat)),
        shows(
            aggregate_report(a),
            "TIMER IRQS"@,
            decimal(a.irqs as nat) + " (hw counter @ "@ + decimal(a.counter_hz as nat) + " Hz)"@,
        ),
        shows(aggregate_report(a), "SAMPLES"@, decimal(a.samples as nat) + " captured"@),
{
    let rows = aggregate_report(a);
    assert(rows[2] == screen::row(
        "FILES"@,
        decimal(a.files as nat) + " scanned · "@ + decimal(a.errors as nat) + " failed"@,
    ));
    assert(rows[3] == screen::row("TOTAL SIZE"@, human_bytes_text(a.bytes as nat)));
    assert(rows[4] == screen::row("READ TIME"@, millis(a.wall_nanos as nat).fixed(3) + " ms"@));
    assert(rows[5] == screen::row(
        "THROUGHPUT"@,
        mib_per_second(a.bytes as nat, a.wall_nanos as nat).fixed(2) + " MiB/s"@,
    ));
    assert(rows[6] == screen::row("CHUNKS"@, decimal(a.chunks as nat)));
    assert(rows[7] == screen::row(
        "TIMER IRQS"@,
        decimal(a.irqs as nat) + " (hw counter @ "@ + decimal(a.counter_hz as nat) + " Hz)"@,
    ));
    assert(rows[8] == screen::row("SAMPLES"@, decimal(a.samples as nat) + " captured"@));
}

/// The row of a file in a scan shows its size, its throughput and its interrupts.
pub proof fn law_a_scan_row_shows_its_numbers(
    idx: nat,
    total: nat,
    name: Seq<char>,
    m: FileMeasurement,
)
    ensures
        ({
            let row = screen::batch_row(idx, total, name, m);
            &&& row[1].text == screen::place(idx, total)
            &&& row[3].text == screen::name_cell(name)
            &&& row[5].text == right_aligned(human_bytes_text(m.size_bytes as nat), 10)
            &&& row[7].text == right_aligned(m.rate().fixed(1), 11) + " MiB/s"@
            &&& row[9].text == right_aligned(decimal(m.timer_interrupts as nat), 2) + " IRQ"@
        }),
{
}

/// The bar of a scan shows how much is done and the throughput so far.
pub proof fn law_a_scan_bar_shows_its_numbers(bytes: nat, size: nat, nanos: nat)
    ensures
        ({
            let row = screen::scan_bar(bytes, size, nanos);
            &&& row[3].text.len() == done_cells(bytes, size, SCAN_SLOTS as nat)
            &&& row[6].text == right_aligned(decimal(done_percent(bytes, size)), 3) + "%"@
            &&& row[8].text == right_aligned(mib_per_second(bytes, nanos).fixed(1), 9)
                + " MiB/s"@
        }),
{
}

/// The line of a block size on the screen shows the size and the throughput, and marks
/// the best.
pub proof fn law_a_point_on_the_screen_shows_its_numbers(
    p: SweepPoint,
    full: Binary64,
    best: bool,
)
    ensures
        ({
            let row = screen::point_line(p, full, best);
            &&& row[1].text == right_aligned(human_bytes_text(p.chunk_size as nat), 9)
            &&& row[6].text == right_aligned(p.rate().fixed(0), 8) + " MiB/s"@
            &&& row[8].text == if best {
                "◀ best"@
            } else {
                ""@
            }
        }),
{
}

/// What is printed of a profile: how many files there are and what they come to, and a
/// line for each in its order; of a sweep, its file, a line for each block size, and the
/// best.
pub proof fn law_a_run_prints_a_line_per_item(
    files: Seq<FileMeasurement>,
    path: Seq<char>,
    s: SweepResult,
    i: int,
    j: int,
)
    requires
        0 <= i < files.len(),
        0 <= j < s.points@.len(),
    ensures
        ({
            let v = headless::profile_lines(files);
            let w = headless::sweep_lines(path, s);
            &&& v.len() == files.len() + 1
            &&& v[0].text == "profiled "@ + decimal(files.len()) + " files · "@
                + human_bytes_text(bytes_of(files))
            &&& v[i + 1].text == headless::file_line(files[i]) && !v[i + 1].err
            &&& w[0].text == "block-size sweep · "@ + path + " · "@ + human_bytes_text(
                s.size_bytes as nat,
            )
            &&& w[j + 1].text == headless::point_line(s.points@[j]) && !w[j + 1].err
            &&& best_point(s.points@) matches Some(b) ==> w.last().text == "  best: "@
                + human_bytes_text(b.chunk_size as nat) + " block"@
        }),
{
    lemma_bytes_of(files);
}

/// The totals of some files, one after the other.
pub open spec fn added(a: Aggregate, files: Seq<FileMeasurement>) -> Aggregate
    decreases files.len(),
{
    if files.len() == 0 {
        a
    } else {
        added(a, files.drop_last()).after(files.last())
    }
}

/// The chunks of some files.
pub open spec fn chunks_of(files: Seq<FileMeasurement>) -> nat
    decreases files.len(),
{
    if files.len() == 0 {
        0
    } else {
        chunks_of(files.drop_last()) + files.last().chunk_count as nat
    }
}

/// The timer interrupts of some files.
pub open spec fn interrupts_of(files: Seq<FileMeasurement>) -> nat
    decreases files.len(),
{
    if files.len() == 0 {
        0
    } else {
        interrupts_of(files.drop_last()) + files.last().timer_interrupts as nat
    }
}

/// The samples of some files.
pub open spec fn samples_of(files: Seq<FileMeasurement>) -> nat
    decreases files.len(),
{
    if files.len() == 0 {
        0
    } else {
        samples_of(files.drop_last()) + files.last().samples@.len()
    }
}

/// The totals of a directory scan are the sums over its files.
pub proof fn law_a_scan_adds_up_its_files(files: Seq<FileMeasurement>)
    requires
        files.len() <= u64::MAX,
        bytes_of(files) <= u64::MAX,
        nanos_of(files) <= u64::MAX,
        chunks_of(files) <= u64::MAX,
        interrupts_of(files) <= u64::MAX,
        samples_of(files) <= u64::MAX,
    ensures
        ({
            let a = added(Aggregate::nothing(), files);
            &&& a.files == files.len()
            &&& a.bytes == bytes_of(files)
            &&& a.wall_nanos == nanos_of(files)
            &&& a.chunks == chunks_of(files)
            &&& a.irqs == interrupts_of(files)
            &&& a.samples == samples_of(files)
            &&& a.errors == 0
            &&& files.len() > 0 ==> a.counter_hz == files.last().counter_hz
        }),
    decreases files.len(),
{
    if files.len() > 0 {
        law_a_scan_adds_up_its_files(files.drop_last());
    }
}

} // verus!
