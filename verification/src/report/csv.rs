//! CSV, written by hand.
//!
//! A profile report has one row per file, a bulk report one per worker thread, a
//! sweep report one per block size, a write or random-access report a single
//! one. Cells that hold a comma, a quote or a line break are quoted.

use vstd::prelude::*;

use super::{Report, ReportModel};
use crate::interrupt::bulk::ThreadStat;
use crate::interrupt::hardware_interrupt::FileMeasurement;
use crate::interrupt::random::RandomMeasurement;
use crate::interrupt::sweep::SweepPoint;
use crate::interrupt::write::WriteMeasurement;
use crate::text::{
    concat, decimal, decimal_of, expanded, join, join_of, lemma_concat_front, lemma_expanded_add,
    lemma_join_front, texts,
};

verus! {

// ── cells and rows ──────────────────────────────────────────────────────────

/// Whether a character makes a cell be quoted.
pub open spec fn is_special(c: char) -> bool {
    c == ',' || c == '"' || c == '\n' || c == '\r'
}

/// Whether a cell is quoted.
pub open spec fn is_quoted(s: Seq<char>) -> bool {
    exists|i: int| 0 <= i < s.len() && is_special(#[trigger] s[i])
}

/// How a character is written in a quoted cell.
pub open spec fn doubled(c: char) -> Seq<char> {
    if c == '"' {
        seq!['"', '"']
    } else {
        seq![c]
    }
}

/// How a cell is written.
pub open spec fn cell(s: Seq<char>) -> Seq<char> {
    if is_quoted(s) {
        "\""@ + expanded(s, |c: char| doubled(c)) + "\""@
    } else {
        s
    }
}

/// How a row is written.
pub open spec fn row(cells: Seq<Seq<char>>) -> Seq<char> {
    join(cells.map_values(|s: Seq<char>| cell(s)), ","@) + "\n"@
}

/// How a table is written.
pub open spec fn table(rows: Seq<Seq<Seq<char>>>) -> Seq<char> {
    concat(rows.map_values(|cells: Seq<Seq<char>>| row(cells)))
}

/// Quotes a cell if it holds a comma, a quote or a line break.
pub fn field(s: &str) -> (r: String)
    ensures
        r@ == cell(s@),
{
    let mut special = false;
    let mut q = "\"".to_owned();
    let ghost f = |c: char| doubled(c);
    for c in it: s.chars()
        invariant
            it.seq() == s@,
            f == (|c: char| doubled(c)),
            q@ == "\""@ + expanded(it.seq().take(it.index()), f),
            special == is_quoted(it.seq().take(it.index())),
    {
        let ghost i = it.index();
        let ghost before = it.seq().take(i);
        let ghost now = it.seq().take(i + 1);
        proof {
            assert(now.drop_last() == before);
            assert(now.last() == c);
            if is_quoted(before) {
                let k = choose|k: int| 0 <= k < before.len() && is_special(#[trigger] before[k]);
                assert(now[k] == before[k]);
            }
            if is_quoted(now) && !is_special(c) {
                let k = choose|k: int| 0 <= k < now.len() && is_special(#[trigger] now[k]);
                assert(before[k] == now[k]);
            }
            if is_special(c) {
                assert(is_special(now[i]));
            }
        }
        if c == ',' || c == '"' || c == '\n' || c == '\r' {
            special = true;
        }
        let ghost q_before = q@;
        if c == '"' {
            q.push('"');
        }
        q.push(c);
        assert(q@ == q_before + doubled(c));
        assert(q@ == "\""@ + (expanded(before, f) + doubled(c)));
    }
    assert(s@.take(s@.len() as int) == s@);
    if special {
        q.append("\"");
        q
    } else {
        s.to_owned()
    }
}

fn row_of(cells: &Vec<String>) -> (r: String)
    ensures
        r@ == row(texts(cells@)),
{
    let ghost want = texts(cells@).map_values(|s: Seq<char>| cell(s));
    let mut v: Vec<String> = Vec::new();
    for i in 0..cells.len()
        invariant
            want == texts(cells@).map_values(|s: Seq<char>| cell(s)),
            texts(v@) == want.take(i as int),
    {
        let ghost before = texts(v@);
        let c = field(cells[i].as_str());
        let ghost t = c@;
        v.push(c);
        assert(texts(v@) == before.push(t));
        assert(want.take(i + 1) == want.take(i as int).push(want[i as int]));
    }
    assert(want.take(want.len() as int) == want);
    let mut r = join_of(&v, ",");
    r.append("\n");
    r
}

// ── reading back ────────────────────────────────────────────────────────────

/// Reads a quoted cell from behind its opening quote: its text, and what follows.
pub open spec fn read_quoted(s: Seq<char>) -> Option<(Seq<char>, Seq<char>)>
    decreases s.len(),
{
    if s.len() == 0 {
        None
    } else if s[0] == '"' && (s.len() == 1 || s[1] != '"') {
        Some((Seq::empty(), s.skip(1)))
    } else {
        let n: int = if s[0] == '"' {
            2
        } else {
            1
        };
        match read_quoted(s.skip(n)) {
            Some((text, rest)) => Some((seq![s[0]] + text, rest)),
            None => None,
        }
    }
}

/// Reads a cell that is not quoted: its text, and what follows.
pub open spec fn read_plain(s: Seq<char>) -> (Seq<char>, Seq<char>)
    decreases s.len(),
{
    if s.len() == 0 || is_special(s[0]) {
        (Seq::empty(), s)
    } else {
        let (text, rest) = read_plain(s.skip(1));
        (seq![s[0]] + text, rest)
    }
}

/// Reads a cell: its text, and what follows.
pub open spec fn read_cell(s: Seq<char>) -> Option<(Seq<char>, Seq<char>)> {
    if s.len() > 0 && s[0] == '"' {
        read_quoted(s.skip(1))
    } else {
        Some(read_plain(s))
    }
}

/// Reads a row with its line break: its cells, and what follows.
pub open spec fn read_row(s: Seq<char>) -> Option<(Seq<Seq<char>>, Seq<char>)>
    decreases s.len(),
{
    match read_cell(s) {
        None => None,
        Some((text, rest)) => if 0 < rest.len() <= s.len() && rest[0] == '\n' {
            Some((seq![text], rest.skip(1)))
        } else if 0 < rest.len() <= s.len() && rest[0] == ',' {
            match read_row(rest.skip(1)) {
                Some((cells, end)) => Some((seq![text] + cells, end)),
                None => None,
            }
        } else {
            None
        },
    }
}

/// Reads a table: its rows.
pub open spec fn read_table(s: Seq<char>) -> Option<Seq<Seq<Seq<char>>>>
    decreases s.len(),
{
    if s.len() == 0 {
        Some(Seq::empty())
    } else {
        match read_row(s) {
            Some((cells, rest)) => if rest.len() < s.len() {
                match read_table(rest) {
                    Some(rows) => Some(seq![cells] + rows),
                    None => None,
                }
            } else {
                None
            },
            None => None,
        }
    }
}

proof fn lemma_quoted_reads_back(s: Seq<char>, rest: Seq<char>)
    requires
        rest.len() == 0 || rest[0] != '"',
    ensures
        read_quoted(expanded(s, |c: char| doubled(c)) + seq!['"'] + rest) == Some((s, rest)),
    decreases s.len(),
{
    let f = |c: char| doubled(c);
    let all = expanded(s, f) + seq!['"'] + rest;
    if s.len() == 0 {
        assert(all[0] == '"');
        assert(all.skip(1) == rest);
        assert(all.len() > 1 ==> all[1] == rest[0]);
    } else {
        let c = s[0];
        let tail = s.skip(1);
        lemma_quoted_reads_back(tail, rest);
        lemma_expanded_add(seq![c], tail, f);
        assert(seq![c] + tail == s);
        assert(expanded(seq![c], f) == doubled(c)) by {
            assert(seq![c].drop_last() == Seq::<char>::empty());
            assert(expanded(Seq::<char>::empty(), f) == Seq::<char>::empty());
        }
        let after = expanded(tail, f) + seq!['"'] + rest;
        assert(all == doubled(c) + after);
        assert(all.skip(doubled(c).len() as int) == after);
        assert(all[0] == c);
    }
}

proof fn lemma_plain_reads_back(s: Seq<char>, rest: Seq<char>)
    requires
        !is_quoted(s),
        rest.len() == 0 || is_special(rest[0]),
    ensures
        read_plain(s + rest) == (s, rest),
    decreases s.len(),
{
    let all = s + rest;
    if s.len() == 0 {
        assert(all == rest);
    } else {
        let tail = s.skip(1);
        assert(!is_special(s[0]));
        assert(!is_quoted(tail)) by {
            if is_quoted(tail) {
                let i = choose|i: int| 0 <= i < tail.len() && is_special(#[trigger] tail[i]);
                assert(is_special(s[i + 1]));
            }
        }
        lemma_plain_reads_back(tail, rest);
        assert(all[0] == s[0]);
        assert(all.skip(1) == tail + rest);
        assert(seq![s[0]] + tail == s);
    }
}

proof fn lemma_cell_reads_back(s: Seq<char>, rest: Seq<char>)
    requires
        rest.len() > 0,
        rest[0] == ',' || rest[0] == '\n',
    ensures
        read_cell(cell(s) + rest) == Some((s, rest)),
{
    let all = cell(s) + rest;
    reveal_strlit("\"");
    assert("\""@ == seq!['"']);
    if is_quoted(s) {
        lemma_quoted_reads_back(s, rest);
        assert(all[0] == '"');
        assert(all.skip(1) == expanded(s, |c: char| doubled(c)) + seq!['"'] + rest);
    } else {
        lemma_plain_reads_back(s, rest);
        if s.len() > 0 {
            assert(!is_special(s[0]));
            assert(all[0] == s[0]);
        }
    }
}

/// A row reads back as its cells, whatever follows it.
pub proof fn law_a_row_reads_back(cells: Seq<Seq<char>>, rest: Seq<char>)
    requires
        cells.len() > 0,
    ensures
        read_row(row(cells) + rest) == Some((cells, rest)),
    decreases cells.len(),
{
    reveal_strlit("\n");
    reveal_strlit(",");
    assert("\n"@ == seq!['\n']);
    assert(","@ == seq![',']);
    let written = cells.map_values(|s: Seq<char>| cell(s));
    let all = row(cells) + rest;
    if cells.len() == 1 {
        let after = "\n"@ + rest;
        lemma_cell_reads_back(cells[0], after);
        assert(all == cell(cells[0]) + after);
        assert(after[0] == '\n');
        assert(after.skip(1) == rest);
        assert(seq![cells[0]] == cells);
    } else {
        let tail = cells.skip(1);
        law_a_row_reads_back(tail, rest);
        lemma_join_front(written, ","@);
        assert(written.skip(1) == tail.map_values(|s: Seq<char>| cell(s)));
        let after = ","@ + (row(tail) + rest);
        lemma_cell_reads_back(cells[0], after);
        assert(all == cell(cells[0]) + after);
        assert(after[0] == ',');
        assert(after.skip(1) == row(tail) + rest);
        assert(seq![cells[0]] + tail == cells);
    }
}

/// A table whose rows are not empty reads back as its rows.
pub proof fn law_a_table_reads_back(rows: Seq<Seq<Seq<char>>>)
    requires
        forall|i: int| 0 <= i < rows.len() ==> (#[trigger] rows[i]).len() > 0,
    ensures
        read_table(table(rows)) == Some(rows),
    decreases rows.len(),
{
    let written = rows.map_values(|cells: Seq<Seq<char>>| row(cells));
    if rows.len() == 0 {
        assert(table(rows) == Seq::<char>::empty());
        assert(rows == Seq::<Seq<Seq<char>>>::empty());
    } else {
        reveal_strlit("\n");
        let tail = rows.skip(1);
        assert forall|i: int| 0 <= i < tail.len() implies (#[trigger] tail[i]).len() > 0 by {
            assert(tail[i] == rows[i + 1]);
        }
        law_a_table_reads_back(tail);
        lemma_concat_front(written);
        assert(written.skip(1) == tail.map_values(|cells: Seq<Seq<char>>| row(cells)));
        assert(rows[0].len() > 0);
        law_a_row_reads_back(rows[0], table(tail));
        assert(row(rows[0]).len() > 0);
        assert(seq![rows[0]] + tail == rows);
    }
}

// ── tables ──────────────────────────────────────────────────────────────────

/// The columns of a profile report.
pub open spec fn file_columns() -> Seq<Seq<char>> {
    seq![
        "path"@,
        "size_bytes"@,
        "bytes_read"@,
        "wall_nanos"@,
        "throughput_mib_s"@,
        "chunk_count"@,
        "avg_chunk_ns"@,
        "min_chunk_ns"@,
        "max_chunk_ns"@,
        "read_busy_fraction"@,
        "timer_interrupts"@,
        "counter_hz"@,
    ]
}

/// The row for one file.
pub open spec fn file_cells(m: FileMeasurement) -> Seq<Seq<char>> {
    seq![
        m.path@,
        decimal(m.size_bytes as nat),
        decimal(m.bytes_read as nat),
        decimal(m.wall_nanos as nat),
        m.rate().fixed(4),
        decimal(m.chunk_count as nat),
        decimal(m.avg_nanos()),
        decimal(m.min_nanos()),
        decimal(m.max_nanos()),
        m.busy().fixed(4),
        decimal(m.timer_interrupts as nat),
        decimal(m.counter_hz as nat),
    ]
}

/// The columns of a bulk report.
pub open spec fn thread_columns() -> Seq<Seq<char>> {
    seq!["thread_index"@, "files"@, "bytes"@, "wall_nanos"@, "throughput_mib_s"@]
}

/// The row for one worker thread.
pub open spec fn thread_cells(t: ThreadStat) -> Seq<Seq<char>> {
    seq![
        decimal(t.index as nat),
        decimal(t.files as nat),
        decimal(t.bytes as nat),
        decimal(t.wall_nanos as nat),
        t.rate().fixed(4),
    ]
}

/// The columns of a sweep report.
pub open spec fn point_columns() -> Seq<Seq<char>> {
    seq![
        "chunk_size"@,
        "bytes"@,
        "chunks"@,
        "wall_nanos"@,
        "avg_chunk_ns"@,
        "throughput_mib_s"@,
    ]
}

/// The row for one point of a sweep.
pub open spec fn point_cells(p: SweepPoint) -> Seq<Seq<char>> {
    seq![
        decimal(p.chunk_size as nat),
        decimal(p.bytes as nat),
        decimal(p.chunks as nat),
        decimal(p.wall_nanos as nat),
        decimal(p.avg_chunk_nanos as nat),
        p.rate().fixed(4),
    ]
}

/// The columns of a write report.
pub open spec fn write_columns() -> Seq<Seq<char>> {
    seq![
        "path"@,
        "bytes"@,
        "chunk_size"@,
        "wall_nanos"@,
        "fsync_nanos"@,
        "throughput_mib_s"@,
        "counter_hz"@,
    ]
}

/// The row of a write report.
pub open spec fn write_cells(w: WriteMeasurement) -> Seq<Seq<char>> {
    seq![
        w.path@,
        decimal(w.bytes as nat),
        decimal(w.chunk_size as nat),
        decimal(w.wall_nanos as nat),
        decimal(w.fsync_nanos as nat),
        w.rate().fixed(4),
        decimal(w.counter_hz as nat),
    ]
}

/// The columns of a random-access report.
pub open spec fn random_columns() -> Seq<Seq<char>> {
    seq![
        "path"@,
        "block_size"@,
        "ops"@,
        "bytes"@,
        "wall_nanos"@,
        "iops"@,
        "avg_ns"@,
        "p99_ns"@,
        "uncached"@,
        "counter_hz"@,
    ]
}

/// The row of a random-access report.
pub open spec fn random_cells(r: RandomMeasurement) -> Seq<Seq<char>> {
    seq![
        r.path@,
        decimal(r.block_size as nat),
        decimal(r.ops as nat),
        decimal(r.bytes as nat),
        decimal(r.wall_nanos as nat),
        r.rate().fixed(1),
        decimal(r.avg_nanos as nat),
        decimal(r.p99_nanos as nat),
        if r.uncached {
            "true"@
        } else {
            "false"@
        },
        decimal(r.counter_hz as nat),
    ]
}

/// The rows of a report, the column names first.
pub open spec fn report_rows(r: ReportModel) -> Seq<Seq<Seq<char>>> {
    match r {
        ReportModel::Profile { files, .. } => seq![file_columns()] + files.map_values(
            |x: FileMeasurement| file_cells(x),
        ),
        ReportModel::Bulk { bulk, .. } => seq![thread_columns()] + bulk.per_thread@.map_values(
            |x: ThreadStat| thread_cells(x),
        ),
        ReportModel::Sweep { sweep } => seq![point_columns()] + sweep.points@.map_values(
            |x: SweepPoint| point_cells(x),
        ),
        ReportModel::Write { write } => seq![write_columns(), write_cells(write)],
        ReportModel::Random { random } => seq![random_columns(), random_cells(random)],
    }
}

/// A report as a CSV document.
pub open spec fn csv_text(r: ReportModel) -> Seq<char> {
    table(report_rows(r))
}

fn number(n: u64) -> (s: String)
    ensures
        s@ == decimal(n as nat),
{
    decimal_of(n as u128)
}

fn file_row(m: &FileMeasurement) -> (r: String)
    ensures
        r@ == row(file_cells(*m)),
{
    let mut v: Vec<String> = Vec::new();
    v.push(m.path.as_str().to_owned());
    v.push(number(m.size_bytes));
    v.push(number(m.bytes_read));
    v.push(number(m.wall_nanos));
    v.push(m.throughput_mib_s().fixed_of(4));
    v.push(number(m.chunk_count));
    v.push(number(m.avg_chunk_nanos()));
    v.push(number(m.min_chunk_nanos()));
    v.push(number(m.max_chunk_nanos()));
    v.push(m.read_busy_fraction().fixed_of(4));
    v.push(number(m.timer_interrupts));
    v.push(number(m.counter_hz));
    assert(texts(v@) == file_cells(*m));
    row_of(&v)
}

fn thread_row(t: &ThreadStat) -> (r: String)
    ensures
        r@ == row(thread_cells(*t)),
{
    let mut v: Vec<String> = Vec::new();
    v.push(number(t.index as u64));
    v.push(number(t.files));
    v.push(number(t.bytes));
    v.push(number(t.wall_nanos));
    v.push(t.throughput_mib_s().fixed_of(4));
    assert(texts(v@) == thread_cells(*t));
    row_of(&v)
}

fn point_row(p: &SweepPoint) -> (r: String)
    ensures
        r@ == row(point_cells(*p)),
{
    let mut v: Vec<String> = Vec::new();
    v.push(number(p.chunk_size as u64));
    v.push(number(p.bytes));
    v.push(number(p.chunks));
    v.push(number(p.wall_nanos));
    v.push(number(p.avg_chunk_nanos));
    v.push(p.throughput_mib_s().fixed_of(4));
    assert(texts(v@) == point_cells(*p));
    row_of(&v)
}

fn write_row(w: &WriteMeasurement) -> (r: String)
    ensures
        r@ == row(write_cells(*w)),
{
    let mut v: Vec<String> = Vec::new();
    v.push(w.path.as_str().to_owned());
    v.push(number(w.bytes));
    v.push(number(w.chunk_size as u64));
    v.push(number(w.wall_nanos));
    v.push(number(w.fsync_nanos));
    v.push(w.throughput_mib_s().fixed_of(4));
    v.push(number(w.counter_hz));
    assert(texts(v@) == write_cells(*w));
    row_of(&v)
}

fn random_row(r: &RandomMeasurement) -> (s: String)
    ensures
        s@ == row(random_cells(*r)),
{
    let mut v: Vec<String> = Vec::new();
    v.push(r.path.as_str().to_owned());
    v.push(number(r.block_size as u64));
    v.push(number(r.ops));
    v.push(number(r.bytes));
    v.push(number(r.wall_nanos));
    v.push(r.iops().fixed_of(1));
    v.push(number(r.avg_nanos));
    v.push(number(r.p99_nanos));
    v.push(
        (if r.uncached {
            "true"
        } else {
            "false"
        }).to_owned(),
    );
    v.push(number(r.counter_hz));
    assert(texts(v@) == random_cells(*r));
    row_of(&v)
}

fn file_header() -> (r: String)
    ensures
        r@ == row(file_columns()),
{
    let mut v: Vec<String> = Vec::new();
    v.push("path".to_owned());
    v.push("size_bytes".to_owned());
    v.push("bytes_read".to_owned());
    v.push("wall_nanos".to_owned());
    v.push("throughput_mib_s".to_owned());
    v.push("chunk_count".to_owned());
    v.push("avg_chunk_ns".to_owned());
    v.push("min_chunk_ns".to_owned());
    v.push("max_chunk_ns".to_owned());
    v.push("read_busy_fraction".to_owned());
    v.push("timer_interrupts".to_owned());
    v.push("counter_hz".to_owned());
    assert(texts(v@) == file_columns());
    row_of(&v)
}

fn thread_header() -> (r: String)
    ensures
        r@ == row(thread_columns()),
{
    let mut v: Vec<String> = Vec::new();
    v.push("thread_index".to_owned());
    v.push("files".to_owned());
    v.push("bytes".to_owned());
    v.push("wall_nanos".to_owned());
    v.push("throughput_mib_s".to_owned());
    assert(texts(v@) == thread_columns());
    row_of(&v)
}

fn point_header() -> (r: String)
    ensures
        r@ == row(point_columns()),
{
    let mut v: Vec<String> = Vec::new();
    v.push("chunk_size".to_owned());
    v.push("bytes".to_owned());
    v.push("chunks".to_owned());
    v.push("wall_nanos".to_owned());
    v.push("avg_chunk_ns".to_owned());
    v.push("throughput_mib_s".to_owned());
    assert(texts(v@) == point_columns());
    row_of(&v)
}

fn write_header() -> (r: String)
    ensures
        r@ == row(write_columns()),
{
    let mut v: Vec<String> = Vec::new();
    v.push("path".to_owned());
    v.push("bytes".to_owned());
    v.push("chunk_size".to_owned());
    v.push("wall_nanos".to_owned());
    v.push("fsync_nanos".to_owned());
    v.push("throughput_mib_s".to_owned());
    v.push("counter_hz".to_owned());
    assert(texts(v@) == write_columns());
    row_of(&v)
}

fn random_header() -> (r: String)
    ensures
        r@ == row(random_columns()),
{
    let mut v: Vec<String> = Vec::new();
    v.push("path".to_owned());
    v.push("block_size".to_owned());
    v.push("ops".to_owned());
    v.push("bytes".to_owned());
    v.push("wall_nanos".to_owned());
    v.push("iops".to_owned());
    v.push("avg_ns".to_owned());
    v.push("p99_ns".to_owned());
    v.push("uncached".to_owned());
    v.push("counter_hz".to_owned());
    assert(texts(v@) == random_columns());
    row_of(&v)
}

/// One more row at the end of a table.
proof fn lemma_table_push(rows: Seq<Seq<Seq<char>>>, cells: Seq<Seq<char>>)
    ensures
        table(rows.push(cells)) == table(rows) + row(cells),
{
    let f = |c: Seq<Seq<char>>| row(c);
    assert(rows.push(cells).map_values(f).drop_last() == rows.map_values(f));
}

proof fn lemma_table_one(cells: Seq<Seq<char>>)
    ensures
        table(seq![cells]) == row(cells),
{
    lemma_table_push(Seq::empty(), cells);
    assert(Seq::<Seq<Seq<char>>>::empty().push(cells) == seq![cells]);
    assert(table(Seq::empty()) == Seq::<char>::empty());
}

fn render_files(files: &Vec<FileMeasurement>) -> (out: String)
    ensures
        out@ == table(seq![file_columns()] + files@.map_values(|x: FileMeasurement| file_cells(x))),
{
    let mut out = file_header();
    let ghost all = seq![file_columns()] + files@.map_values(|x: FileMeasurement| file_cells(x));
    proof {
        lemma_table_one(file_columns());
        assert(all.take(1) == seq![file_columns()]);
    }
    for i in 0..files.len()
        invariant
            all == seq![file_columns()] + files@.map_values(|x: FileMeasurement| file_cells(x)),
            out@ == table(all.take(i + 1)),
    {
        let line = file_row(&files[i]);
        out.append(line.as_str());
        proof {
            lemma_table_push(all.take(i + 1), all[i + 1]);
            assert(all.take(i + 2) == all.take(i + 1).push(all[i + 1]));
        }
    }
    assert(all.take(all.len() as int) == all);
    out
}

fn render_threads(threads: &Vec<ThreadStat>) -> (out: String)
    ensures
        out@ == table(seq![thread_columns()] + threads@.map_values(|x: ThreadStat| thread_cells(x))),
{
    let mut out = thread_header();
    let ghost all = seq![thread_columns()] + threads@.map_values(|x: ThreadStat| thread_cells(x));
    proof {
        lemma_table_one(thread_columns());
        assert(all.take(1) == seq![thread_columns()]);
    }
    for i in 0..threads.len()
        invariant
            all == seq![thread_columns()] + threads@.map_values(|x: ThreadStat| thread_cells(x)),
            out@ == table(all.take(i + 1)),
    {
        let line = thread_row(&threads[i]);
        out.append(line.as_str());
        proof {
            lemma_table_push(all.take(i + 1), all[i + 1]);
            assert(all.take(i + 2) == all.take(i + 1).push(all[i + 1]));
        }
    }
    assert(all.take(all.len() as int) == all);
    out
}

fn render_points(points: &Vec<SweepPoint>) -> (out: String)
    ensures
        out@ == table(seq![point_columns()] + points@.map_values(|x: SweepPoint| point_cells(x))),
{
    let mut out = point_header();
    let ghost all = seq![point_columns()] + points@.map_values(|x: SweepPoint| point_cells(x));
    proof {
        lemma_table_one(point_columns());
        assert(all.take(1) == seq![point_columns()]);
    }
    for i in 0..points.len()
        invariant
            all == seq![point_columns()] + points@.map_values(|x: SweepPoint| point_cells(x)),
            out@ == table(all.take(i + 1)),
    {
        let line = point_row(&points[i]);
        out.append(line.as_str());
        proof {
            lemma_table_push(all.take(i + 1), all[i + 1]);
            assert(all.take(i + 2) == all.take(i + 1).push(all[i + 1]));
        }
    }
    assert(all.take(all.len() as int) == all);
    out
}

fn render_write(m: &WriteMeasurement) -> (out: String)
    ensures
        out@ == table(seq![write_columns(), write_cells(*m)]),
{
    let mut out = write_header();
    let line = write_row(m);
    out.append(line.as_str());
    proof {
        lemma_table_one(write_columns());
        lemma_table_push(seq![write_columns()], write_cells(*m));
        assert(seq![write_columns()].push(write_cells(*m)) == seq![
            write_columns(),
            write_cells(*m),
        ]);
    }
    out
}

fn render_random(m: &RandomMeasurement) -> (out: String)
    ensures
        out@ == table(seq![random_columns(), random_cells(*m)]),
{
    let mut out = random_header();
    let line = random_row(m);
    out.append(line.as_str());
    proof {
        lemma_table_one(random_columns());
        lemma_table_push(seq![random_columns()], random_cells(*m));
        assert(seq![random_columns()].push(random_cells(*m)) == seq![
            random_columns(),
            random_cells(*m),
        ]);
    }
    out
}

/// Renders a report as a CSV document.
pub fn render(r: &Report) -> (s: String)
    ensures
        s@ == csv_text(r@),
{
    match r {
        Report::Profile { files, .. } => render_files(files),
        Report::Bulk { bulk, .. } => render_threads(&bulk.per_thread),
        Report::Sweep { sweep } => render_points(&sweep.points),
        Report::Write { write } => render_write(write),
        Report::Random { random } => render_random(random),
    }
}

/// The number of columns of a report.
pub open spec fn width(r: ReportModel) -> nat {
    match r {
        ReportModel::Profile { .. } => 12,
        ReportModel::Bulk { .. } => 5,
        ReportModel::Sweep { .. } => 6,
        ReportModel::Write { .. } => 7,
        ReportModel::Random { .. } => 10,
    }
}

proof fn lemma_file_width(m: FileMeasurement)
    ensures
        file_columns().len() == 12,
        file_cells(m).len() == 12,
{
}

proof fn lemma_thread_width(t: ThreadStat)
    ensures
        thread_columns().len() == 5,
        thread_cells(t).len() == 5,
{
}

proof fn lemma_point_width(p: SweepPoint)
    ensures
        point_columns().len() == 6,
        point_cells(p).len() == 6,
{
}

proof fn lemma_write_width(w: WriteMeasurement)
    ensures
        write_columns().len() == 7,
        write_cells(w).len() == 7,
{
}

proof fn lemma_random_width(r: RandomMeasurement)
    ensures
        random_columns().len() == 10,
        random_cells(r).len() == 10,
{
}

proof fn lemma_row_of_table<T>(
    columns: Seq<Seq<char>>,
    items: Seq<T>,
    cells: spec_fn(T) -> Seq<Seq<char>>,
    i: int,
)
    requires
        0 <= i < (seq![columns] + items.map_values(cells)).len(),
    ensures
        (seq![columns] + items.map_values(cells))[i] == if i == 0 {
            columns
        } else {
            cells(items[i - 1])
        },
{
}

/// Every row of a report has a cell for each of its columns.
#[verifier::spinoff_prover]
pub proof fn law_every_row_has_every_column(r: ReportModel, i: int)
    requires
        0 <= i < report_rows(r).len(),
    ensures
        report_rows(r)[i].len() == width(r),
{
    match r {
        ReportModel::Profile { files, .. } => {
            lemma_row_of_table(file_columns(), files, |x: FileMeasurement| file_cells(x), i);
            lemma_file_width(files[i - 1]);
        },
        ReportModel::Bulk { bulk, .. } => {
            let threads = bulk.per_thread@;
            lemma_row_of_table(thread_columns(), threads, |x: ThreadStat| thread_cells(x), i);
            lemma_thread_width(threads[i - 1]);
        },
        ReportModel::Sweep { sweep } => {
            let points = sweep.points@;
            lemma_row_of_table(point_columns(), points, |x: SweepPoint| point_cells(x), i);
            lemma_point_width(points[i - 1]);
        },
        ReportModel::Write { write } => {
            lemma_write_width(write);
            assert(report_rows(r)[0] == write_columns());
            assert(report_rows(r)[1] == write_cells(write));
        },
        ReportModel::Random { random } => {
            lemma_random_width(random);
            assert(report_rows(r)[0] == random_columns());
            assert(report_rows(r)[1] == random_cells(random));
        },
    }
}

/// A CSV document reads back as the rows of its report.
pub proof fn law_a_csv_document_reads_back(r: ReportModel)
    ensures
        read_table(csv_text(r)) == Some(report_rows(r)),
{
    let rows = report_rows(r);
    assert forall|i: int| 0 <= i < rows.len() implies (#[trigger] rows[i]).len() > 0 by {
        law_every_row_has_every_column(r, i);
    }
    law_a_table_reads_back(rows);
}

} // verus!
