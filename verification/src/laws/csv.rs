//! CSV reports: what a reader of the table finds in each column.

use vstd::prelude::*;

use crate::interrupt::bulk::ThreadStat;
use crate::interrupt::hardware_interrupt::FileMeasurement;
use crate::interrupt::random::RandomMeasurement;
use crate::interrupt::sweep::SweepPoint;
use crate::interrupt::write::WriteMeasurement;
use crate::report::csv::{
    csv_text, file_cells, file_columns, law_a_csv_document_reads_back, point_cells, point_columns,
    random_cells, random_columns, read_table, report_rows, thread_cells, thread_columns,
    write_cells, write_columns,
};
use crate::report::ReportModel;
use crate::text::decimal;

verus! {

/// Whether a row has this text in the one column of a name.
pub open spec fn holds(
    columns: Seq<Seq<char>>,
    row: Seq<Seq<char>>,
    name: Seq<char>,
    value: Seq<char>,
) -> bool {
    exists|c: int| #[trigger] is_column(columns, c, name) && c < row.len() && row[c] == value
}

/// Whether a column is the only one of its name.
pub open spec fn is_column(columns: Seq<Seq<char>>, c: int, name: Seq<char>) -> bool {
    &&& 0 <= c < columns.len()
    &&& columns[c] == name
    &&& forall|j: int| 0 <= j < columns.len() && j != c ==> #[trigger] columns[j] != name
}

/// Whether a row tells of a profiled file.
pub open spec fn tells_file(columns: Seq<Seq<char>>, row: Seq<Seq<char>>, m: FileMeasurement) -> bool {
    &&& holds(columns, row, "path"@, m.path@)
    &&& holds(columns, row, "size_bytes"@, decimal(m.size_bytes as nat))
    &&& holds(columns, row, "bytes_read"@, decimal(m.bytes_read as nat))
    &&& holds(columns, row, "wall_nanos"@, decimal(m.wall_nanos as nat))
    &&& holds(columns, row, "throughput_mib_s"@, m.rate().fixed(4))
    &&& holds(columns, row, "chunk_count"@, decimal(m.chunk_count as nat))
    &&& holds(columns, row, "avg_chunk_ns"@, decimal(m.avg_nanos()))
    &&& holds(columns, row, "min_chunk_ns"@, decimal(m.min_nanos()))
    &&& holds(columns, row, "max_chunk_ns"@, decimal(m.max_nanos()))
    &&& holds(columns, row, "read_busy_fraction"@, m.busy().fixed(4))
    &&& holds(columns, row, "timer_interrupts"@, decimal(m.timer_interrupts as nat))
    &&& holds(columns, row, "counter_hz"@, decimal(m.counter_hz as nat))
}

/// Whether a row tells of a worker thread.
pub open spec fn tells_thread(columns: Seq<Seq<char>>, row: Seq<Seq<char>>, t: ThreadStat) -> bool {
    &&& holds(columns, row, "thread_index"@, decimal(t.index as nat))
    &&& holds(columns, row, "files"@, decimal(t.files as nat))
    &&& holds(columns, row, "bytes"@, decimal(t.bytes as nat))
    &&& holds(columns, row, "wall_nanos"@, decimal(t.wall_nanos as nat))
    &&& holds(columns, row, "throughput_mib_s"@, t.rate().fixed(4))
}

/// Whether a row tells of a point of a sweep.
pub open spec fn tells_point(columns: Seq<Seq<char>>, row: Seq<Seq<char>>, p: SweepPoint) -> bool {
    &&& holds(columns, row, "chunk_size"@, decimal(p.chunk_size as nat))
    &&& holds(columns, row, "bytes"@, decimal(p.bytes as nat))
    &&& holds(columns, row, "chunks"@, decimal(p.chunks as nat))
    &&& holds(columns, row, "wall_nanos"@, decimal(p.wall_nanos as nat))
    &&& holds(columns, row, "avg_chunk_ns"@, decimal(p.avg_chunk_nanos as nat))
    &&& holds(columns, row, "throughput_mib_s"@, p.rate().fixed(4))
}

/// Whether a row tells of a write benchmark.
pub open spec fn tells_write(columns: Seq<Seq<char>>, row: Seq<Seq<char>>, w: WriteMeasurement) -> bool {
    &&& holds(columns, row, "path"@, w.path@)
    &&& holds(columns, row, "bytes"@, decimal(w.bytes as nat))
    &&& holds(columns, row, "chunk_size"@, decimal(w.chunk_size as nat))
    &&& holds(columns, row, "wall_nanos"@, decimal(w.wall_nanos as nat))
    &&& holds(columns, row, "fsync_nanos"@, decimal(w.fsync_nanos as nat))
    &&& holds(columns, row, "throughput_mib_s"@, w.rate().fixed(4))
    &&& holds(columns, row, "counter_hz"@, decimal(w.counter_hz as nat))
}

/// Whether a row tells of a random-access benchmark.
pub open spec fn tells_random(columns: Seq<Seq<char>>, row: Seq<Seq<char>>, r: RandomMeasurement) -> bool {
    &&& holds(columns, row, "path"@, r.path@)
    &&& holds(columns, row, "block_size"@, decimal(r.block_size as nat))
    &&& holds(columns, row, "ops"@, decimal(r.ops as nat))
    &&& holds(columns, row, "bytes"@, decimal(r.bytes as nat))
    &&& holds(columns, row, "wall_nanos"@, decimal(r.wall_nanos as nat))
    &&& holds(columns, row, "iops"@, r.rate().fixed(1))
    &&& holds(columns, row, "avg_ns"@, decimal(r.avg_nanos as nat))
    &&& holds(columns, row, "p99_ns"@, decimal(r.p99_nanos as nat))
    &&& holds(columns, row, "uncached"@, if r.uncached {
            "true"@
        } else {
            "false"@
        })
    &&& holds(columns, row, "counter_hz"@, decimal(r.counter_hz as nat))
}

/// Whether a table tells of a report: its first row names the columns, and each other
/// row tells of one item, in their order.
pub open spec fn tells(rows: Seq<Seq<Seq<char>>>, r: ReportModel) -> bool {
    &&& rows.len() > 0
    &&& match r {
        ReportModel::Profile { files, .. } => rows.len() == files.len() + 1 && forall|i: int|
            0 <= i < files.len() ==> tells_file(rows[0], rows[i + 1], #[trigger] files[i]),
        ReportModel::Bulk { bulk, .. } => {
            let threads = bulk.per_thread@;
            rows.len() == threads.len() + 1 && forall|i: int|
                0 <= i < threads.len() ==> tells_thread(
                    rows[0],
                    rows[i + 1],
                    #[trigger] threads[i],
                )
        },
        ReportModel::Sweep { sweep } => {
            let points = sweep.points@;
            rows.len() == points.len() + 1 && forall|i: int|
                0 <= i < points.len() ==> tells_point(rows[0], rows[i + 1], #[trigger] points[i])
        },
        ReportModel::Write { write } => rows.len() == 2 && tells_write(rows[0], rows[1], write),
        ReportModel::Random { random } => rows.len() == 2 && tells_random(
            rows[0],
            rows[1],
            random,
        ),
    }
}

// ── the proof ───────────────────────────────────────────────────────────────

/// A number by which names are told apart: their length and first characters.
spec fn mark(s: Seq<char>) -> int {
    s.len() * 100_000_000 + s[0] as int * 1_000_000 + s[1] as int * 1_000 + s[2] as int
}

/// Every small number, one by one.
proof fn lemma_one_of(i: int)
    requires
        0 <= i < 12,
    ensures
        i == 0 || i == 1 || i == 2 || i == 3 || i == 4 || i == 5 || i == 6 || i == 7 || i == 8
            || i == 9 || i == 10 || i == 11,
{
}

proof fn lemma_holds(columns: Seq<Seq<char>>, row: Seq<Seq<char>>)
    requires
        columns.len() <= row.len(),
        forall|i: int, j: int|
            0 <= i < columns.len() && 0 <= j < columns.len() && i != j ==> mark(
                #[trigger] columns[i],
            ) != mark(#[trigger] columns[j]),
    ensures
        forall|i: int| 0 <= i < columns.len() ==> holds(columns, row, #[trigger] columns[i], row[i]),
{
    assert forall|i: int| 0 <= i < columns.len() implies holds(
        columns,
        row,
        #[trigger] columns[i],
        row[i],
    ) by {
        assert forall|j: int| 0 <= j < columns.len() && j != i implies #[trigger] columns[j]
            != columns[i] by {
            assert(mark(columns[i]) != mark(columns[j]));
        }
        assert(is_column(columns, i, columns[i]));
    }
}

#[verifier::spinoff_prover]
#[verifier::rlimit(50)]
proof fn lemma_file_row(m: FileMeasurement)
    ensures
        tells_file(file_columns(), file_cells(m), m),
{
    reveal_strlit("path");
    reveal_strlit("size_bytes");
    reveal_strlit("bytes_read");
    reveal_strlit("wall_nanos");
    reveal_strlit("throughput_mib_s");
    reveal_strlit("chunk_count");
    reveal_strlit("avg_chunk_ns");
    reveal_strlit("min_chunk_ns");
    reveal_strlit("max_chunk_ns");
    reveal_strlit("read_busy_fraction");
    reveal_strlit("timer_interrupts");
    reveal_strlit("counter_hz");
    let columns = file_columns();
    let row = file_cells(m);
    assert forall|i: int, j: int|
        0 <= i < columns.len() && 0 <= j < columns.len() && i != j implies mark(
        #[trigger] columns[i],
    ) != mark(#[trigger] columns[j]) by {
        lemma_one_of(i);
        lemma_one_of(j);
    }
    lemma_holds(columns, row);
    assert(columns[0] == "path"@);
    assert(columns[1] == "size_bytes"@);
    assert(columns[2] == "bytes_read"@);
    assert(columns[3] == "wall_nanos"@);
    assert(columns[4] == "throughput_mib_s"@);
    assert(columns[5] == "chunk_count"@);
    assert(columns[6] == "avg_chunk_ns"@);
    assert(columns[7] == "min_chunk_ns"@);
    assert(columns[8] == "max_chunk_ns"@);
    assert(columns[9] == "read_busy_fraction"@);
    assert(columns[10] == "timer_interrupts"@);
    assert(columns[11] == "counter_hz"@);
}

proof fn lemma_thread_row(t: ThreadStat)
    ensures
        tells_thread(thread_columns(), thread_cells(t), t),
{
    reveal_strlit("thread_index");
    reveal_strlit("files");
    reveal_strlit("bytes");
    reveal_strlit("wall_nanos");
    reveal_strlit("throughput_mib_s");
    let columns = thread_columns();
    let row = thread_cells(t);
    assert forall|i: int, j: int|
        0 <= i < columns.len() && 0 <= j < columns.len() && i != j implies mark(
        #[trigger] columns[i],
    ) != mark(#[trigger] columns[j]) by {
        lemma_one_of(i);
        lemma_one_of(j);
    }
    lemma_holds(columns, row);
    assert(columns[0] == "thread_index"@);
    assert(columns[1] == "files"@);
    assert(columns[2] == "bytes"@);
    assert(columns[3] == "wall_nanos"@);
    assert(columns[4] == "throughput_mib_s"@);
}

proof fn lemma_point_row(p: SweepPoint)
    ensures
        tells_point(point_columns(), point_cells(p), p),
{
    reveal_strlit("chunk_size");
    reveal_strlit("bytes");
    reveal_strlit("chunks");
    reveal_strlit("wall_nanos");
    reveal_strlit("avg_chunk_ns");
    reveal_strlit("throughput_mib_s");
    let columns = point_columns();
    let row = point_cells(p);
    assert forall|i: int, j: int|
        0 <= i < columns.len() && 0 <= j < columns.len() && i != j implies mark(
        #[trigger] columns[i],
    ) != mark(#[trigger] columns[j]) by {
        lemma_one_of(i);
        lemma_one_of(j);
    }
    lemma_holds(columns, row);
    assert(columns[0] == "chunk_size"@);
    assert(columns[1] == "bytes"@);
    assert(columns[2] == "chunks"@);
    assert(columns[3] == "wall_nanos"@);
    assert(columns[4] == "avg_chunk_ns"@);
    assert(columns[5] == "throughput_mib_s"@);
}

#[verifier::spinoff_prover]
#[verifier::rlimit(50)]
proof fn lemma_write_row(w: WriteMeasurement)
    ensures
        tells_write(write_columns(), write_cells(w), w),
{
    reveal_strlit("path");
    reveal_strlit("bytes");
    reveal_strlit("chunk_size");
    reveal_strlit("wall_nanos");
    reveal_strlit("fsync_nanos");
    reveal_strlit("throughput_mib_s");
    reveal_strlit("counter_hz");
    let columns = write_columns();
    let row = write_cells(w);
    assert forall|i: int, j: int|
        0 <= i < columns.len() && 0 <= j < columns.len() && i != j implies mark(
        #[trigger] columns[i],
    ) != mark(#[trigger] columns[j]) by {
        lemma_one_of(i);
        lemma_one_of(j);
    }
    lemma_holds(columns, row);
    assert(columns[0] == "path"@);
    assert(columns[1] == "bytes"@);
    assert(columns[2] == "chunk_size"@);
    assert(columns[3] == "wall_nanos"@);
    assert(columns[4] == "fsync_nanos"@);
    assert(columns[5] == "throughput_mib_s"@);
    assert(columns[6] == "counter_hz"@);
}

#[verifier::spinoff_prover]
#[verifier::rlimit(50)]
proof fn lemma_random_row(r: RandomMeasurement)
    ensures
        tells_random(random_columns(), random_cells(r), r),
{
    reveal_strlit("path");
    reveal_strlit("block_size");
    reveal_strlit("ops");
    reveal_strlit("bytes");
    reveal_strlit("wall_nanos");
    reveal_strlit("iops");
    reveal_strlit("avg_ns");
    reveal_strlit("p99_ns");
    reveal_strlit("uncached");
    reveal_strlit("counter_hz");
    let columns = random_columns();
    let row = random_cells(r);
    assert forall|i: int, j: int|
        0 <= i < columns.len() && 0 <= j < columns.len() && i != j implies mark(
        #[trigger] columns[i],
    ) != mark(#[trigger] columns[j]) by {
        lemma_one_of(i);
        lemma_one_of(j);
    }
    lemma_holds(columns, row);
    assert(columns[0] == "path"@);
    assert(columns[1] == "block_size"@);
    assert(columns[2] == "ops"@);
    assert(columns[3] == "bytes"@);
    assert(columns[4] == "wall_nanos"@);
    assert(columns[5] == "iops"@);
    assert(columns[6] == "avg_ns"@);
    assert(columns[7] == "p99_ns"@);
    assert(columns[8] == "uncached"@);
    assert(columns[9] == "counter_hz"@);
}

// ── the law ─────────────────────────────────────────────────────────────────

/// Every CSV report reads back as a table in which each number of the report stands in
/// the row of its item, in the column of its name.
#[verifier::spinoff_prover]
#[verifier::rlimit(50)]
pub proof fn law_a_csv_report_tells_every_number(r: ReportModel)
    ensures
        read_table(csv_text(r)) matches Some(rows) && tells(rows, r),
{
    law_a_csv_document_reads_back(r);
    let rows = report_rows(r);
    match r {
        ReportModel::Profile { files, .. } => {
            assert forall|i: int| 0 <= i < files.len() implies tells_file(
                rows[0],
                rows[i + 1],
                #[trigger] files[i],
            ) by {
                lemma_file_row(files[i]);
            }
        },
        ReportModel::Bulk { bulk, .. } => {
            let threads = bulk.per_thread@;
            assert forall|i: int| 0 <= i < threads.len() implies tells_thread(
                rows[0],
                rows[i + 1],
                #[trigger] threads[i],
            ) by {
                lemma_thread_row(threads[i]);
            }
        },
        ReportModel::Sweep { sweep } => {
            let points = sweep.points@;
            assert forall|i: int| 0 <= i < points.len() implies tells_point(
                rows[0],
                rows[i + 1],
                #[trigger] points[i],
            ) by {
                lemma_point_row(points[i]);
            }
        },
        ReportModel::Write { write } => lemma_write_row(write),
        ReportModel::Random { random } => lemma_random_row(random),
    }
}

} // verus!
