//! Markdown: a readable summary with tables.

use vstd::prelude::*;

use super::{
    breakdown, ext_breakdown, first_uncached, first_uncached_of, mode_of, mode_word, total_nanos,
    total_nanos_of, total_read, total_read_of, ExtStat, ExtTotals, Report, ReportModel,
};
use crate::human::{human_bytes, human_bytes_text};
use crate::interrupt::bulk::{BulkMeasurement, ThreadStat};
use crate::interrupt::hardware_interrupt::FileMeasurement;
use crate::interrupt::random::RandomMeasurement;
use crate::interrupt::sweep::{best_point, SweepPoint, SweepResult};
use crate::interrupt::write::WriteMeasurement;
use crate::rate::{mib_per_second, mib_per_second_of, millis, millis_of};
use crate::text::{concat, concat_of, decimal, decimal_of, lemma_texts_push, texts};

verus! {

// ── profile ─────────────────────────────────────────────────────────────────

/// The line for one file.
pub open spec fn file_line(m: FileMeasurement) -> Seq<char> {
    "| `"@ + m.path@ + "` | "@ + human_bytes_text(m.size_bytes as nat) + " | "@ + m.rate().fixed(1)
        + " MiB/s | "@ + decimal(m.avg_nanos()) + " ns | "@ + decimal(m.percentile(99))
        + " ns |\n"@
}

/// The line for one file type.
pub open spec fn ext_line(e: ExtTotals) -> Seq<char> {
    "| "@ + e.ext + " | "@ + decimal(e.files) + " | "@ + human_bytes_text(e.bytes) + " | "@
        + e.rate().fixed(1) + " MiB/s |\n"@
}

/// The breakdown by file type, where there is more than one.
pub open spec fn ext_section(groups: Seq<ExtTotals>) -> Seq<char> {
    if groups.len() > 1 {
        "\n## By type\n\n| ext | files | size | throughput |\n|---|--:|--:|--:|\n"@ + concat(
            groups.map_values(|e: ExtTotals| ext_line(e)),
        )
    } else {
        ""@
    }
}

/// The head of a profile report.
pub open spec fn profile_head(root: Seq<char>, files: Seq<FileMeasurement>) -> Seq<char> {
    "# Sawskas Profiler — profile report\n\n**Target:** `"@ + root + "` · **Files:** "@ + decimal(
        files.len(),
    ) + " · **Total:** "@ + human_bytes_text(total_read(files)) + " · **Throughput:** "@
        + mib_per_second(total_read(files), total_nanos(files)).fixed(1) + " MiB/s · **Mode:** "@
        + mode_word(first_uncached(files))
        + "\n\n| path | size | throughput | avg | p99 |\n|---|--:|--:|--:|--:|\n"@
}

/// A profile report.
pub open spec fn profile_text(root: Seq<char>, files: Seq<FileMeasurement>) -> Seq<char> {
    profile_head(root, files) + concat(files.map_values(|m: FileMeasurement| file_line(m)))
        + ext_section(breakdown(files))
}

fn file_line_of(m: &FileMeasurement) -> (s: String)
    ensures
        s@ == file_line(*m),
{
    let pct = m.percentiles_ns(&[99]);
    let mut s = "| `".to_owned();
    s.append(m.path.as_str());
    s.append("` | ");
    s.append(human_bytes(m.size_bytes).as_str());
    s.append(" | ");
    s.append(m.throughput_mib_s().fixed_of(1).as_str());
    s.append(" MiB/s | ");
    s.append(decimal_of(m.avg_chunk_nanos() as u128).as_str());
    s.append(" ns | ");
    s.append(decimal_of(pct[0] as u128).as_str());
    s.append(" ns |\n");
    s
}

fn ext_line_of(e: &ExtStat) -> (s: String)
    ensures
        s@ == ext_line(e@),
{
    let mut s = "| ".to_owned();
    s.append(e.ext.as_str());
    s.append(" | ");
    s.append(decimal_of(e.files as u128).as_str());
    s.append(" | ");
    s.append(human_bytes(e.bytes).as_str());
    s.append(" | ");
    s.append(e.throughput_mib_s().fixed_of(1).as_str());
    s.append(" MiB/s |\n");
    s
}

fn ext_section_of(groups: &Vec<ExtStat>) -> (s: String)
    ensures
        s@ == ext_section(groups@.map_values(|e: ExtStat| e@)),
{
    if groups.len() > 1 {
        let ghost models = groups@.map_values(|e: ExtStat| e@);
        let ghost want = models.map_values(|e: ExtTotals| ext_line(e));
        let mut lines: Vec<String> = Vec::new();
        for i in 0..groups.len()
            invariant
                models == groups@.map_values(|e: ExtStat| e@),
                want == models.map_values(|e: ExtTotals| ext_line(e)),
                texts(lines@) == want.take(i as int),
        {
            let line = ext_line_of(&groups[i]);
            proof {
                lemma_texts_push(lines@, line);
                assert(want.take(i + 1) == want.take(i as int).push(want[i as int]));
            }
            lines.push(line);
        }
        assert(want.take(want.len() as int) == want);
        let mut s =
            "\n## By type\n\n| ext | files | size | throughput |\n|---|--:|--:|--:|\n".to_owned();
        s.append(concat_of(&lines).as_str());
        s
    } else {
        "".to_owned()
    }
}

fn profile_head_of(root: &str, files: &Vec<FileMeasurement>) -> (s: String)
    requires
        total_read(files@) <= u64::MAX,
        total_nanos(files@) <= u64::MAX,
    ensures
        s@ == profile_head(root@, files@),
{
    let total = total_read_of(files);
    let nanos = total_nanos_of(files);
    let mut s = "# Sawskas Profiler — profile report\n\n**Target:** `".to_owned();
    s.append(root);
    s.append("` · **Files:** ");
    s.append(decimal_of(files.len() as u128).as_str());
    s.append(" · **Total:** ");
    s.append(human_bytes(total).as_str());
    s.append(" · **Throughput:** ");
    s.append(mib_per_second_of(total, nanos).fixed_of(1).as_str());
    s.append(" MiB/s · **Mode:** ");
    s.append(mode_of(first_uncached_of(files)));
    s.append("\n\n| path | size | throughput | avg | p99 |\n|---|--:|--:|--:|--:|\n");
    s
}

fn render_profile(root: &str, files: &Vec<FileMeasurement>) -> (s: String)
    requires
        total_read(files@) <= u64::MAX,
        total_nanos(files@) <= u64::MAX,
    ensures
        s@ == profile_text(root@, files@),
{
    let ghost want = files@.map_values(|m: FileMeasurement| file_line(m));
    let mut lines: Vec<String> = Vec::new();
    for i in 0..files.len()
        invariant
            want == files@.map_values(|m: FileMeasurement| file_line(m)),
            texts(lines@) == want.take(i as int),
    {
        let line = file_line_of(&files[i]);
        proof {
            lemma_texts_push(lines@, line);
            assert(want.take(i + 1) == want.take(i as int).push(want[i as int]));
        }
        lines.push(line);
    }
    assert(want.take(want.len() as int) == want);
    let mut s = profile_head_of(root, files);
    s.append(concat_of(&lines).as_str());
    s.append(ext_section_of(&ext_breakdown(files)).as_str());
    s
}

// ── bulk ────────────────────────────────────────────────────────────────────

/// The line for one worker thread.
pub open spec fn thread_line(t: ThreadStat) -> Seq<char> {
    "| "@ + decimal(t.index as nat) + " | "@ + decimal(t.files as nat) + " | "@ + human_bytes_text(
        t.bytes as nat,
    ) + " | "@ + t.rate().fixed(1) + " MiB/s |\n"@
}

/// The head of a bulk report.
pub open spec fn bulk_head(root: Seq<char>, b: BulkMeasurement) -> Seq<char> {
    "# Sawskas Profiler — bulk throughput report\n\n**Target:** `"@ + root + "` · **Threads:** "@
        + decimal(b.threads as nat) + " · **Files:** "@ + decimal(b.file_count as nat)
        + " · **Total:** "@ + human_bytes_text(b.bytes_read as nat) + " · **Throughput:** "@
        + b.rate().fixed(1)
        + " MiB/s\n\n| thread | files | bytes | throughput |\n|--:|--:|--:|--:|\n"@
}

/// A bulk report.
pub open spec fn bulk_text(root: Seq<char>, b: BulkMeasurement) -> Seq<char> {
    bulk_head(root, b) + concat(b.per_thread@.map_values(|t: ThreadStat| thread_line(t)))
}

fn thread_line_of(t: &ThreadStat) -> (s: String)
    ensures
        s@ == thread_line(*t),
{
    let mut s = "| ".to_owned();
    s.append(decimal_of(t.index as u128).as_str());
    s.append(" | ");
    s.append(decimal_of(t.files as u128).as_str());
    s.append(" | ");
    s.append(human_bytes(t.bytes).as_str());
    s.append(" | ");
    s.append(t.throughput_mib_s().fixed_of(1).as_str());
    s.append(" MiB/s |\n");
    s
}

fn render_bulk(root: &str, b: &BulkMeasurement) -> (s: String)
    ensures
        s@ == bulk_text(root@, *b),
{
    let ghost want = b.per_thread@.map_values(|t: ThreadStat| thread_line(t));
    let mut lines: Vec<String> = Vec::new();
    for i in 0..b.per_thread.len()
        invariant
            want == b.per_thread@.map_values(|t: ThreadStat| thread_line(t)),
            texts(lines@) == want.take(i as int),
    {
        let line = thread_line_of(&b.per_thread[i]);
        proof {
            lemma_texts_push(lines@, line);
            assert(want.take(i + 1) == want.take(i as int).push(want[i as int]));
        }
        lines.push(line);
    }
    assert(want.take(want.len() as int) == want);
    let mut s = "# Sawskas Profiler — bulk throughput report\n\n**Target:** `".to_owned();
    s.append(root);
    s.append("` · **Threads:** ");
    s.append(decimal_of(b.threads as u128).as_str());
    s.append(" · **Files:** ");
    s.append(decimal_of(b.file_count as u128).as_str());
    s.append(" · **Total:** ");
    s.append(human_bytes(b.bytes_read).as_str());
    s.append(" · **Throughput:** ");
    s.append(b.throughput_mib_s().fixed_of(1).as_str());
    s.append(" MiB/s\n\n| thread | files | bytes | throughput |\n|--:|--:|--:|--:|\n");
    assert(s@ == bulk_head(root@, *b));
    s.append(concat_of(&lines).as_str());
    s
}

// ── sweep ───────────────────────────────────────────────────────────────────

/// The line for one point of a sweep.
pub open spec fn point_line(p: SweepPoint) -> Seq<char> {
    "| "@ + human_bytes_text(p.chunk_size as nat) + " | "@ + p.rate().fixed(1) + " MiB/s | "@
        + decimal(p.avg_chunk_nanos as nat) + " ns |\n"@
}

/// The line for the best block size of a sweep, where there is one.
pub open spec fn best_line(points: Seq<SweepPoint>) -> Seq<char> {
    match best_point(points) {
        Some(p) => "\n**Best block size:** "@ + human_bytes_text(p.chunk_size as nat) + "\n"@,
        None => ""@,
    }
}

/// The head of a sweep report.
pub open spec fn sweep_head(s: SweepResult) -> Seq<char> {
    "# Sawskas Profiler — block-size sweep\n\n**File:** `"@ + s.path@ + "` · **Size:** "@
        + human_bytes_text(s.size_bytes as nat) + " · **Mode:** "@ + mode_word(s.uncached)
        + "\n\n| block size | throughput | avg latency |\n|---|--:|--:|\n"@
}

/// A sweep report.
pub open spec fn sweep_text(s: SweepResult) -> Seq<char> {
    sweep_head(s) + concat(s.points@.map_values(|p: SweepPoint| point_line(p))) + best_line(
        s.points@,
    )
}

fn point_line_of(p: &SweepPoint) -> (s: String)
    ensures
        s@ == point_line(*p),
{
    let mut s = "| ".to_owned();
    s.append(human_bytes(p.chunk_size as u64).as_str());
    s.append(" | ");
    s.append(p.throughput_mib_s().fixed_of(1).as_str());
    s.append(" MiB/s | ");
    s.append(decimal_of(p.avg_chunk_nanos as u128).as_str());
    s.append(" ns |\n");
    s
}

fn best_line_of(r: &SweepResult) -> (s: String)
    ensures
        s@ == best_line(r.points@),
{
    match r.best() {
        Some(p) => {
            let mut s = "\n**Best block size:** ".to_owned();
            s.append(human_bytes(p.chunk_size as u64).as_str());
            s.append("\n");
            s
        },
        None => "".to_owned(),
    }
}

fn render_sweep(r: &SweepResult) -> (s: String)
    ensures
        s@ == sweep_text(*r),
{
    let ghost want = r.points@.map_values(|p: SweepPoint| point_line(p));
    let mut lines: Vec<String> = Vec::new();
    for i in 0..r.points.len()
        invariant
            want == r.points@.map_values(|p: SweepPoint| point_line(p)),
            texts(lines@) == want.take(i as int),
    {
        let line = point_line_of(&r.points[i]);
        proof {
            lemma_texts_push(lines@, line);
            assert(want.take(i + 1) == want.take(i as int).push(want[i as int]));
        }
        lines.push(line);
    }
    assert(want.take(want.len() as int) == want);
    let mut s = "# Sawskas Profiler — block-size sweep\n\n**File:** `".to_owned();
    s.append(r.path.as_str());
    s.append("` · **Size:** ");
    s.append(human_bytes(r.size_bytes).as_str());
    s.append(" · **Mode:** ");
    s.append(mode_of(r.uncached));
    s.append("\n\n| block size | throughput | avg latency |\n|---|--:|--:|\n");
    assert(s@ == sweep_head(*r));
    s.append(concat_of(&lines).as_str());
    s.append(best_line_of(r).as_str());
    s
}

// ── write and random access ─────────────────────────────────────────────────

/// A write report.
pub open spec fn write_text(w: WriteMeasurement) -> Seq<char> {
    "# Sawskas Profiler — write benchmark\n\n- **Bytes written:** "@ + human_bytes_text(
        w.bytes as nat,
    ) + "\n- **Throughput:** "@ + w.rate().fixed(1) + " MiB/s\n- **Block size:** "@
        + human_bytes_text(w.chunk_size as nat) + "\n- **Wall time:** "@ + millis(
        w.wall_nanos as nat,
    ).fixed(2) + " ms\n- **fsync:** "@ + millis(w.fsync_nanos as nat).fixed(2) + " ms\n"@
}

/// A random-access report.
pub open spec fn random_text(r: RandomMeasurement) -> Seq<char> {
    "# Sawskas Profiler — random access\n\n- **IOPS:** "@ + r.rate().fixed(0) + "\n- **Ops:** "@
        + decimal(r.ops as nat) + "\n- **Block size:** "@ + human_bytes_text(r.block_size as nat)
        + "\n- **Avg latency:** "@ + decimal(r.avg_nanos as nat) + " ns\n- **p99 latency:** "@
        + decimal(r.p99_nanos as nat) + " ns\n- **Mode:** "@ + mode_word(r.uncached) + "\n"@
}

fn render_write(w: &WriteMeasurement) -> (s: String)
    ensures
        s@ == write_text(*w),
{
    let mut s = "# Sawskas Profiler — write benchmark\n\n- **Bytes written:** ".to_owned();
    s.append(human_bytes(w.bytes).as_str());
    s.append("\n- **Throughput:** ");
    s.append(w.throughput_mib_s().fixed_of(1).as_str());
    s.append(" MiB/s\n- **Block size:** ");
    s.append(human_bytes(w.chunk_size as u64).as_str());
    s.append("\n- **Wall time:** ");
    s.append(millis_of(w.wall_nanos).fixed_of(2).as_str());
    s.append(" ms\n- **fsync:** ");
    s.append(millis_of(w.fsync_nanos).fixed_of(2).as_str());
    s.append(" ms\n");
    s
}

fn render_random(r: &RandomMeasurement) -> (s: String)
    ensures
        s@ == random_text(*r),
{
    let mut s = "# Sawskas Profiler — random access\n\n- **IOPS:** ".to_owned();
    s.append(r.iops().fixed_of(0).as_str());
    s.append("\n- **Ops:** ");
    s.append(decimal_of(r.ops as u128).as_str());
    s.append("\n- **Block size:** ");
    s.append(human_bytes(r.block_size as u64).as_str());
    s.append("\n- **Avg latency:** ");
    s.append(decimal_of(r.avg_nanos as u128).as_str());
    s.append(" ns\n- **p99 latency:** ");
    s.append(decimal_of(r.p99_nanos as u128).as_str());
    s.append(" ns\n- **Mode:** ");
    s.append(mode_of(r.uncached));
    s.append("\n");
    s
}

/// A report as a Markdown document.
pub open spec fn markdown_text(r: ReportModel) -> Seq<char> {
    match r {
        ReportModel::Profile { root, files } => profile_text(root, files),
        ReportModel::Bulk { root, bulk } => bulk_text(root, bulk),
        ReportModel::Sweep { sweep } => sweep_text(sweep),
        ReportModel::Write { write } => write_text(write),
        ReportModel::Random { random } => random_text(random),
    }
}

/// Renders a report as a Markdown document.
pub fn render(r: &Report) -> (s: String)
    requires
        r@.totals_fit(),
    ensures
        s@ == markdown_text(r@),
{
    match r {
        Report::Profile { root, files } => render_profile(root.as_str(), files),
        Report::Bulk { root, bulk } => render_bulk(root.as_str(), bulk),
        Report::Sweep { sweep } => render_sweep(sweep),
        Report::Write { write } => render_write(write),
        Report::Random { random } => render_random(random),
    }
}

} // verus!
