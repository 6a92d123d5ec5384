//! The scan of many files: a bar for the file at hand, then a sorted table and
//! the totals.

use vstd::prelude::*;

use super::paint::{bare, bare_of, spans, tinted, tinted_of, Span, SpanModel};
use super::paint::{DIM_SLATE, NEON_MAGENTA, NEON_PURPLE};
use super::screen::{
    batch_bar, batch_error, batch_row, divider, divider_of, heading, heading_of, irq_text,
    irq_text_of, millis_text, millis_text_of, print_batch_error, print_batch_row, rate_text,
    rate_text_of, render_batch_bar, report_row, row, sheet, with_end,
};
use super::script::{
    as_lines, chain, no_prints, prints, put, put_bare, say, say_all, Print,
    PrintModel,
};
use crate::binary64::Binary64;
use crate::human::{human_bytes, human_bytes_text};
use crate::interrupt::discovery::{
    in_utf8, joined, paths_of, shown_path, text_path, Name, NameModel,
};
use crate::interrupt::hardware_interrupt::FileMeasurement;
use crate::order::{
    keys_of, lemma_stable_order_keeps_the_items, rearranged, stable_order,
    stable_order_of,
};
use crate::rate::{mib_per_second, mib_per_second_of};
use crate::report::{
    char_key, lemma_sums_of_the_same_files, sums_fit, SortKey, Sums,
};
use crate::text::{chars_of, decimal, decimal_of};

verus! {

// ── totals ──────────────────────────────────────────────────────────────────

/// The running totals of a scan of many files.
#[derive(Clone, Copy, PartialEq, Eq, Structural, Debug)]
pub struct Aggregate {
    pub files: u64,
    pub bytes: u64,
    pub wall_nanos: u64,
    pub chunks: u64,
    pub irqs: u64,
    pub samples: u64,
    pub errors: u64,
    pub counter_hz: u64,
}

impl Default for Aggregate {
    /// The totals of no files.
    fn default() -> (a: Aggregate)
        ensures
            a == Aggregate::nothing(),
    {
        Aggregate {
            files: 0,
            bytes: 0,
            wall_nanos: 0,
            chunks: 0,
            irqs: 0,
            samples: 0,
            errors: 0,
            counter_hz: 0,
        }
    }
}

impl Aggregate {
    /// The totals of no files.
    pub open spec fn nothing() -> Aggregate {
        Aggregate {
            files: 0,
            bytes: 0,
            wall_nanos: 0,
            chunks: 0,
            irqs: 0,
            samples: 0,
            errors: 0,
            counter_hz: 0,
        }
    }

    /// Whether the totals still fit in 64 bits with one more file.
    pub open spec fn has_room(self, m: FileMeasurement) -> bool {
        &&& self.files + 1 <= u64::MAX
        &&& self.bytes + m.bytes_read <= u64::MAX
        &&& self.wall_nanos + m.wall_nanos <= u64::MAX
        &&& self.chunks + m.chunk_count <= u64::MAX
        &&& self.irqs + m.timer_interrupts <= u64::MAX
        &&& self.samples + m.samples@.len() <= u64::MAX
    }

    /// The totals with one more file; the counter's frequency is that of the last.
    pub open spec fn after(self, m: FileMeasurement) -> Aggregate {
        Aggregate {
            files: (self.files + 1) as u64,
            bytes: (self.bytes + m.bytes_read) as u64,
            wall_nanos: (self.wall_nanos + m.wall_nanos) as u64,
            chunks: (self.chunks + m.chunk_count) as u64,
            irqs: (self.irqs + m.timer_interrupts) as u64,
            samples: (self.samples + m.samples@.len()) as u64,
            errors: self.errors,
            counter_hz: m.counter_hz,
        }
    }

    /// The throughput in mebibytes per second.
    pub open spec fn rate(self) -> Binary64 {
        mib_per_second(self.bytes as nat, self.wall_nanos as nat)
    }

    /// Whether the totals still fit in 64 bits with one more file.
    pub fn has_room_for(&self, m: &FileMeasurement) -> (r: bool)
        ensures
            r == self.has_room(*m),
    {
        self.files < u64::MAX && m.bytes_read <= u64::MAX - self.bytes && m.wall_nanos <= u64::MAX
            - self.wall_nanos && m.chunk_count <= u64::MAX - self.chunks && m.timer_interrupts
            <= u64::MAX - self.irqs && m.samples.len() as u64 <= u64::MAX - self.samples
    }

    /// Adds a file.
    pub fn add(&mut self, m: &FileMeasurement)
        requires
            old(self).has_room(*m),
        ensures
            *final(self) == old(self).after(*m),
    {
        self.files = self.files + 1;
        self.bytes = self.bytes + m.bytes_read;
        self.wall_nanos = self.wall_nanos + m.wall_nanos;
        self.chunks = self.chunks + m.chunk_count;
        self.irqs = self.irqs + m.timer_interrupts;
        self.samples = self.samples + m.samples.len() as u64;
        self.counter_hz = m.counter_hz;
    }

    /// The throughput in mebibytes per second.
    pub fn throughput_mib_s(&self) -> (r: Binary64)
        ensures
            r == self.rate(),
            r.moderate(),
            -110 <= r.exponent <= 24,
    {
        mib_per_second_of(self.bytes, self.wall_nanos)
    }
}

/// The report of the totals.
pub open spec fn aggregate_report(a: Aggregate) -> Seq<Seq<SpanModel>> {
    seq![
        Seq::empty(),
        divider(NEON_PURPLE),
        row(
            "FILES"@,
            decimal(a.files as nat) + " scanned · "@ + decimal(a.errors as nat) + " failed"@,
        ),
        row("TOTAL SIZE"@, human_bytes_text(a.bytes as nat)),
        row("READ TIME"@, millis_text(a.wall_nanos as nat)),
        row("THROUGHPUT"@, rate_text(a.rate())),
        row("CHUNKS"@, decimal(a.chunks as nat)),
        row("TIMER IRQS"@, irq_text(a.irqs as nat, a.counter_hz as nat)),
        row("SAMPLES"@, decimal(a.samples as nat) + " captured"@),
        divider(NEON_PURPLE),
    ]
}

/// The report of the totals.
pub fn print_aggregate(a: &Aggregate) -> (r: Vec<Vec<Span>>)
    ensures
        sheet(r@) == aggregate_report(*a),
{
    let mut files = decimal_of(a.files as u128);
    files.append(" scanned · ");
    files.append(decimal_of(a.errors as u128).as_str());
    files.append(" failed");
    let blank: Vec<Span> = Vec::new();
    assert(spans(blank@) == Seq::<SpanModel>::empty());
    let mut r: Vec<Vec<Span>> = Vec::new();
    r.push(blank);
    r.push(divider_of(NEON_PURPLE));
    r.push(report_row("FILES", files.as_str()));
    r.push(report_row("TOTAL SIZE", human_bytes(a.bytes).as_str()));
    r.push(report_row("READ TIME", millis_text_of(a.wall_nanos).as_str()));
    r.push(report_row("THROUGHPUT", rate_text_of(a.throughput_mib_s()).as_str()));
    r.push(report_row("CHUNKS", decimal_of(a.chunks as u128).as_str()));
    r.push(report_row("TIMER IRQS", irq_text_of(a.irqs, a.counter_hz).as_str()));
    r.push(report_row("SAMPLES", with_end(a.samples, " captured").as_str()));
    r.push(divider_of(NEON_PURPLE));
    assert(sheet(r@) == aggregate_report(*a));
    r
}

// ── rows ────────────────────────────────────────────────────────────────────

/// A file that was read: its place in the scan, its name, its measurement.
pub struct Row {
    pub idx: usize,
    pub name: String,
    pub m: FileMeasurement,
}

/// A file that was read, as a value.
pub struct RowModel {
    pub idx: nat,
    pub name: Seq<char>,
    pub m: FileMeasurement,
}

impl View for Row {
    type V = RowModel;

    open spec fn view(&self) -> RowModel {
        RowModel { idx: self.idx as nat, name: self.name@, m: self.m }
    }
}

/// Some rows, as values.
pub open spec fn rows_of(v: Seq<Row>) -> Seq<RowModel> {
    v.map_values(|r: Row| r@)
}

/// The measurements of some rows.
pub open spec fn measured(rows: Seq<RowModel>) -> Seq<FileMeasurement> {
    rows.map_values(|r: RowModel| r.m)
}

/// The place of a row in an order.
pub open spec fn row_place(key: SortKey, r: RowModel) -> Seq<u64> {
    match key {
        SortKey::Throughput => seq![r.m.rate().pattern() as u64],
        SortKey::Size => seq![(u64::MAX - r.m.size_bytes) as u64],
        SortKey::Name => char_key(r.name),
    }
}

/// The places of some rows in an order.
pub open spec fn row_places(key: SortKey, rows: Seq<RowModel>) -> Seq<Seq<u64>> {
    rows.map_values(|r: RowModel| row_place(key, r))
}

/// The rows in an order; names are those that are shown.
pub open spec fn sorted_rows(key: SortKey, rows: Seq<RowModel>) -> Seq<RowModel> {
    stable_order(row_places(key, rows)).map_values(|i: usize| rows[i as int])
}

fn row_place_of(key: SortKey, r: &Row) -> (k: Vec<u64>)
    ensures
        k@ == row_place(key, r@),
{
    let mut k: Vec<u64> = Vec::new();
    match key {
        SortKey::Throughput => {
            k.push(r.m.throughput_mib_s().bits());
            assert(k@ == row_place(key, r@));
        },
        SortKey::Size => {
            k.push(u64::MAX - r.m.size_bytes);
            assert(k@ == row_place(key, r@));
        },
        SortKey::Name => {
            let v = chars_of(r.name.as_str());
            for i in 0..v.len()
                invariant
                    k@ == char_key(v@).take(i as int),
            {
                k.push(v[i] as u64);
                assert(char_key(v@).take(i + 1) == char_key(v@).take(i as int).push(
                    v@[i as int] as u64,
                ));
            }
            assert(char_key(v@).take(v@.len() as int) == char_key(v@));
        },
    }
    k
}

fn sort_rows(key: SortKey, rows: Vec<Row>) -> (r: Vec<Row>)
    ensures
        rows_of(r@) == sorted_rows(key, rows_of(rows@)),
        measured(rows_of(r@)).to_multiset() == measured(rows_of(rows@)).to_multiset(),
{
    let ghost models = rows_of(rows@);
    let ghost places = row_places(key, models);
    let mut keys: Vec<Vec<u64>> = Vec::new();
    for i in 0..rows.len()
        invariant
            models == rows_of(rows@),
            places == row_places(key, models),
            keys_of(keys@) == places.take(i as int),
    {
        let ghost before = keys@;
        let k = row_place_of(key, &rows[i]);
        keys.push(k);
        proof {
            assert(keys_of(keys@) == keys_of(before).push(k@));
            assert(places.take(i + 1) == places.take(i as int).push(places[i as int]));
        }
    }
    assert(keys_of(keys@) == places);
    let order = stable_order_of(&keys);
    let ghost source = rows@;
    let r = rearranged(rows, &order, Ghost(places));
    proof {
        assert(rows_of(r@) == sorted_rows(key, models));
        lemma_stable_order_keeps_the_items(measured(models), places, order@);
        assert(measured(rows_of(r@)) == order@.map_values(|i: usize| measured(models)[i as int]));
    }
    r
}

// ── the scan ────────────────────────────────────────────────────────────────

/// The rows that the table shows at most.
pub const ROW_CAP: usize = 20;

/// The state of a scan of many files, as a value.
pub struct BatchState {
    pub root: Seq<char>,
    pub files: Seq<Seq<NameModel>>,
    pub sort: SortKey,
    /// The file at hand.
    pub next: nat,
    pub agg: Aggregate,
    pub rows: Seq<RowModel>,
}

/// The lines at the start of a scan.
pub open spec fn batch_start(root: Seq<char>, n: nat, sort: SortKey) -> Seq<PrintModel> {
    seq![
        PrintModel::Line(
            heading(
                "BATCH SCAN"@,
                NEON_MAGENTA,
                decimal(n) + " files · "@ + root + " · "@ + sort.title(),
            ),
        ),
        PrintModel::Line(divider(NEON_PURPLE)),
    ]
}

/// The lines of the first rows, at most `n`.
pub open spec fn row_lines(rows: Seq<RowModel>, total: nat, n: nat) -> Seq<Seq<SpanModel>> {
    Seq::new(
        if rows.len() < n {
            rows.len()
        } else {
            n
        },
        |i: int| batch_row(rows[i].idx, total, rows[i].name, rows[i].m),
    )
}

/// The line for the rows that are not shown, where there are any.
pub open spec fn more_lines(n: nat) -> Seq<Seq<SpanModel>> {
    if n > ROW_CAP {
        seq![
            seq![
                bare("  "@),
                tinted("… +"@ + decimal((n - ROW_CAP) as nat) + " more"@, DIM_SLATE),
            ],
        ]
    } else {
        Seq::empty()
    }
}

impl BatchState {
    /// The name under which file `i` is shown: its path below the root.
    pub open spec fn name(self, i: int) -> Seq<char> {
        joined(""@, self.files[i])
    }

    /// The path of file `i`.
    pub open spec fn path(self, i: int) -> Seq<char> {
        joined(self.root, self.files[i])
    }

    /// With one more failure, past the file at hand.
    pub open spec fn failed(self) -> BatchState {
        BatchState {
            next: self.next + 1,
            agg: Aggregate { errors: (self.agg.errors + 1) as u64, ..self.agg },
            ..self
        }
    }

    /// On to the next file whose path is in UTF-8.
    pub open spec fn settled(self) -> BatchState
        decreases self.files.len() - self.next,
    {
        if self.next >= self.files.len() || in_utf8(self.files[self.next as int]) {
            self
        } else {
            self.failed().settled()
        }
    }

    /// What is printed on the way there: a line for each file that is passed over,
    /// and an empty bar for the one that is reached.
    pub open spec fn settling(self) -> Seq<PrintModel>
        decreases self.files.len() - self.next,
    {
        if self.next >= self.files.len() {
            Seq::empty()
        } else if in_utf8(self.files[self.next as int]) {
            seq![
                PrintModel::Text(
                    batch_bar(
                        self.next + 1,
                        self.files.len(),
                        self.name(self.next as int),
                        0,
                        1,
                        0,
                    ),
                ),
            ]
        } else {
            seq![
                PrintModel::Line(
                    batch_error(
                        self.next + 1,
                        self.files.len(),
                        self.name(self.next as int),
                        "non-UTF-8 path"@,
                    ),
                ),
            ] + self.failed().settling()
        }
    }

    /// With the measurement of the file at hand.
    pub open spec fn with_row(self, m: FileMeasurement) -> BatchState {
        BatchState {
            next: self.next + 1,
            agg: self.agg.after(m),
            rows: self.rows.push(
                RowModel { idx: self.next + 1, name: self.name(self.next as int), m },
            ),
            ..self
        }
    }

    /// After the file at hand was measured, or could not be.
    pub open spec fn after(self, r: Result<FileMeasurement, Seq<char>>) -> BatchState {
        match r {
            Ok(m) => self.with_row(m).settled(),
            Err(_) => self.failed().settled(),
        }
    }

    /// What is printed then.
    pub open spec fn printed(self, r: Result<FileMeasurement, Seq<char>>) -> Seq<PrintModel> {
        match r {
            Ok(m) => self.with_row(m).settling(),
            Err(e) => seq![
                PrintModel::Line(
                    batch_error(self.next + 1, self.files.len(), self.name(self.next as int), e),
                ),
            ] + self.failed().settling(),
        }
    }

    /// The rows in their order.
    pub open spec fn table(self) -> Seq<RowModel> {
        sorted_rows(self.sort, self.rows)
    }

    /// What is printed at the end: the table and the totals.
    pub open spec fn closing(self) -> Seq<PrintModel> {
        seq![PrintModel::Text(seq![bare("\r\u{1b}[K"@)])] + as_lines(
            row_lines(self.table(), self.files.len(), ROW_CAP as nat),
        ) + as_lines(more_lines(self.rows.len())) + as_lines(aggregate_report(self.agg))
    }

    /// What holds of every scan.
    pub open spec fn wf(self) -> bool {
        &&& self.next <= self.files.len()
        &&& self.rows.len() + self.agg.errors == self.next
        &&& self.agg.files == self.rows.len()
        &&& sums_fit(measured(self.rows))
        &&& self.next < self.files.len() ==> in_utf8(self.files[self.next as int])
    }
}

/// Every file of a finished scan was either measured or counted as a failure.
pub proof fn law_a_scan_accounts_for_every_file(s: BatchState)
    requires
        s.wf(),
        s.next == s.files.len(),
    ensures
        s.agg.files + s.agg.errors == s.files.len(),
        s.agg.files == s.rows.len(),
{
}

/// A scan of many files.
pub struct Batch {
    root: String,
    files: Vec<Vec<Name>>,
    sort: SortKey,
    next: usize,
    agg: Aggregate,
    rows: Vec<Row>,
    sums: Sums,
}

impl View for Batch {
    type V = BatchState;

    closed spec fn view(&self) -> BatchState {
        BatchState {
            root: self.root@,
            files: paths_of(self.files@),
            sort: self.sort,
            next: self.next as nat,
            agg: self.agg,
            rows: rows_of(self.rows@),
        }
    }
}

impl Batch {
    /// What holds between the steps of a scan.
    spec fn holds(&self) -> bool {
        &&& self@.next <= self@.files.len()
        &&& self@.rows.len() + self@.agg.errors == self@.next
        &&& self@.agg.files == self@.rows.len()
        &&& sums_fit(measured(self@.rows))
        &&& self.sums.over(measured(rows_of(self.rows@)))
    }

    /// What holds of every scan.
    pub closed spec fn wf(&self) -> bool {
        self.holds() && self@.wf()
    }

    /// A scan says nothing of itself that its state does not.
    pub proof fn lemma_wf(&self)
        requires
            self.wf(),
        ensures
            self@.wf(),
    {
    }

    fn fail(&mut self, message: &str) -> (v: Vec<Span>)
        requires
            old(self).holds(),
            old(self)@.next < old(self)@.files.len(),
        ensures
            final(self).holds(),
            final(self)@ == old(self)@.failed(),
            spans(v@) == batch_error(
                old(self)@.next + 1,
                old(self)@.files.len(),
                old(self)@.name(old(self)@.next as int),
                message@,
            ),
    {
        let total = self.files.len();
        assert(self@.files[self.next as int] == crate::interrupt::discovery::path_of(
            self.files@[self.next as int]@,
        ));
        let name = shown_path("", &self.files[self.next]);
        let v = print_batch_error(self.next + 1, total, name.as_str(), message);
        self.agg.errors = self.agg.errors + 1;
        self.next = self.next + 1;
        v
    }

    /// On to the next file whose path is in UTF-8.
    fn settle(&mut self) -> (v: Vec<Print>)
        requires
            old(self).holds(),
        ensures
            final(self).wf(),
            final(self)@ == old(self)@.settled(),
            prints(v@) == old(self)@.settling(),
        decreases old(self)@.files.len() - old(self)@.next,
    {
        let total = self.files.len();
        if self.next >= total {
            return no_prints();
        }
        assert(self@.files[self.next as int] == crate::interrupt::discovery::path_of(
            self.files@[self.next as int]@,
        ));
        if text_path(self.root.as_str(), &self.files[self.next]).is_some() {
            let name = shown_path("", &self.files[self.next]);
            let mut v = no_prints();
            put(&mut v, render_batch_bar(self.next + 1, total, name.as_str(), 0, 1, 0));
            assert(prints(v@) == self@.settling());
            return v;
        }
        let line = self.fail("non-UTF-8 path");
        let mut v = no_prints();
        say(&mut v, line);
        assert(prints(v@) == seq![PrintModel::Line(spans(line@))]);
        let more = self.settle();
        chain(&mut v, more);
        v
    }

    /// Begins a scan of `files` below `root`.
    pub fn start(root: &str, files: Vec<Vec<Name>>, sort: SortKey) -> (r: (Batch, Vec<Print>))
        ensures
            r.0.wf(),
            ({
                let s = BatchState {
                    root: root@,
                    files: paths_of(files@),
                    sort,
                    next: 0,
                    agg: Aggregate::nothing(),
                    rows: Seq::empty(),
                };
                &&& r.0@ == s.settled()
                &&& prints(r.1@) == batch_start(root@, files@.len(), sort) + s.settling()
            }),
    {
        let mut remark = decimal_of(files.len() as u128);
        remark.append(" files · ");
        remark.append(root);
        remark.append(" · ");
        remark.append(sort.label());
        let mut v = no_prints();
        say(&mut v, heading_of("BATCH SCAN", NEON_MAGENTA, remark.as_str()));
        say(&mut v, divider_of(NEON_PURPLE));
        assert(prints(v@) == batch_start(root@, files@.len(), sort));
        let mut b = Batch {
            root: root.to_owned(),
            files,
            sort,
            next: 0,
            agg: Aggregate::default(),
            rows: Vec::new(),
            sums: Sums::new(),
        };
        proof {
            assert(b@.rows == Seq::<RowModel>::empty());
            assert(measured(b@.rows) == Seq::<FileMeasurement>::empty());
            assert(sums_fit(Seq::<FileMeasurement>::empty()));
        }
        let more = b.settle();
        chain(&mut v, more);
        (b, v)
    }

    /// The path of the file at hand, if there is one left.
    pub fn due(&self) -> (r: Option<String>)
        requires
            self.wf(),
        ensures
            r is Some == (self@.next < self@.files.len()),
            r is Some ==> r->0@ == self@.path(self@.next as int),
    {
        if self.next < self.files.len() {
            assert(self@.files[self.next as int] == crate::interrupt::discovery::path_of(
                self.files@[self.next as int]@,
            ));
            text_path(self.root.as_str(), &self.files[self.next])
        } else {
            None
        }
    }

    /// The bar of the file at hand.
    pub fn bar(&self, bytes: u64, size: u64, elapsed_ns: u64) -> (v: Vec<Span>)
        requires
            self.wf(),
            self@.next < self@.files.len(),
        ensures
            spans(v@) == batch_bar(
                self@.next + 1,
                self@.files.len(),
                self@.name(self@.next as int),
                bytes as nat,
                size as nat,
                elapsed_ns as nat,
            ),
    {
        let total = self.files.len();
        assert(self@.files[self.next as int] == crate::interrupt::discovery::path_of(
            self.files@[self.next as int]@,
        ));
        let name = shown_path("", &self.files[self.next]);
        render_batch_bar(self.next + 1, total, name.as_str(), bytes, size, elapsed_ns)
    }

    /// Whether there is room for the measurement of the file at hand.
    pub open spec fn room(&self, m: FileMeasurement) -> bool {
        self@.agg.has_room(m) && sums_fit(measured(self@.rows).push(m))
    }

    /// Whether there is room for the measurement of the file at hand.
    pub fn has_room_for(&self, m: &FileMeasurement) -> (r: bool)
        requires
            self.wf(),
        ensures
            r == self.room(*m),
    {
        self.agg.has_room_for(m) && self.sums.have_room_for(
            m,
            Ghost(measured(rows_of(self.rows@))),
        )
    }

    /// Takes in the measurement of the file at hand, or why there is none.
    pub fn on_measured(&mut self, r: Result<FileMeasurement, String>) -> (v: Vec<Print>)
        requires
            old(self).wf(),
            old(self)@.next < old(self)@.files.len(),
            r is Ok ==> old(self).room(r->Ok_0),
        ensures
            final(self).wf(),
            final(self)@ == old(self)@.after(
                match r {
                    Ok(m) => Ok(m),
                    Err(e) => Err(e@),
                },
            ),
            prints(v@) == old(self)@.printed(
                match r {
                    Ok(m) => Ok(m),
                    Err(e) => Err(e@),
                },
            ),
    {
        let total = self.files.len();
        match r {
            Ok(m) => {
                assert(self@.files[self.next as int] == crate::interrupt::discovery::path_of(
                    self.files@[self.next as int]@,
                ));
                let name = shown_path("", &self.files[self.next]);
                let ghost before = rows_of(self.rows@);
                self.agg.add(&m);
                self.sums.add_file(&m, Ghost(measured(before)));
                let row = Row { idx: self.next + 1, name, m };
                proof {
                    assert(rows_of(self.rows@.push(row)) == before.push(row@));
                    assert(measured(before.push(row@)) == measured(before).push(m));
                }
                self.rows.push(row);
                self.next = self.next + 1;
                self.settle()
            },
            Err(e) => {
                let line = self.fail(e.as_str());
                let mut v = no_prints();
                say(&mut v, line);
                assert(prints(v@) == seq![PrintModel::Line(spans(line@))]);
                let more = self.settle();
                chain(&mut v, more);
                v
            },
        }
    }

    /// Ends a scan: what is printed, and the measurements in their order.
    pub fn finish(self) -> (r: (Vec<Print>, Vec<FileMeasurement>))
        requires
            self.wf(),
        ensures
            prints(r.0@) == self@.closing(),
            r.1@ == measured(self@.table()),
            sums_fit(r.1@),
    {
        let total = self.files.len();
        let n = self.rows.len();
        let mut v = no_prints();
        put_bare(&mut v, "\r\u{1b}[K");
        assert(prints(v@) == seq![PrintModel::Text(seq![bare("\r\u{1b}[K"@)])]);
        let rows = sort_rows(self.sort, self.rows);
        let ghost models = rows_of(rows@);
        say_all(&mut v, row_lines_of(&rows, total));
        say_all(&mut v, more_lines_of(n));
        say_all(&mut v, print_aggregate(&self.agg));
        let files = take_measurements(rows);
        proof {
            lemma_sums_of_the_same_files(measured(models), measured(self@.rows));
        }
        (v, files)
    }
}

fn row_lines_of(rows: &Vec<Row>, total: usize) -> (r: Vec<Vec<Span>>)
    ensures
        sheet(r@) == row_lines(rows_of(rows@), total as nat, ROW_CAP as nat),
{
    let ghost models = rows_of(rows@);
    let ghost want = row_lines(models, total as nat, ROW_CAP as nat);
    let n: usize = if rows.len() < ROW_CAP {
        rows.len()
    } else {
        ROW_CAP
    };
    let mut r: Vec<Vec<Span>> = Vec::new();
    assert(sheet(r@) == want.take(0));
    for i in 0..n
        invariant
            n <= rows@.len(),
            n == want.len(),
            models == rows_of(rows@),
            want == row_lines(models, total as nat, ROW_CAP as nat),
            sheet(r@) == want.take(i as int),
    {
        let line = print_batch_row(rows[i].idx, total, rows[i].name.as_str(), &rows[i].m);
        proof {
            assert(models[i as int] == rows@[i as int]@);
            assert(sheet(r@.push(line)) == sheet(r@).push(spans(line@)));
            assert(want.take(i + 1) == want.take(i as int).push(want[i as int]));
        }
        r.push(line);
    }
    assert(want.take(n as int) == want);
    r
}

fn more_lines_of(n: usize) -> (r: Vec<Vec<Span>>)
    ensures
        sheet(r@) == more_lines(n as nat),
{
    let mut r: Vec<Vec<Span>> = Vec::new();
    if n > ROW_CAP {
        let mut t = "… +".to_owned();
        t.append(decimal_of((n - ROW_CAP) as u128).as_str());
        t.append(" more");
        let mut line: Vec<Span> = Vec::new();
        line.push(bare_of("  "));
        line.push(tinted_of(t.as_str(), DIM_SLATE));
        assert(spans(line@) == seq![bare("  "@), tinted(t@, DIM_SLATE)]);
        r.push(line);
    }
    assert(sheet(r@) == more_lines(n as nat));
    r
}

fn take_measurements(rows: Vec<Row>) -> (r: Vec<FileMeasurement>)
    ensures
        r@ == measured(rows_of(rows@)),
{
    let ghost want = measured(rows_of(rows@));
    let ghost source = rows@;
    let n = rows.len();
    let mut rest = rows;
    let mut back: Vec<FileMeasurement> = Vec::new();
    let mut i: usize = 0;
    while i < n
        invariant
            i <= n,
            n == source.len(),
            rest@ == source.take(n - i),
            back@.len() == i,
            forall|k: int| 0 <= k < i ==> #[trigger] back@[k] == source[n - 1 - k].m,
        decreases n - i,
    {
        match rest.pop() {
            Some(row) => back.push(row.m),
            None => {
                assert(false);
            },
        }
        i = i + 1;
    }
    let mut r: Vec<FileMeasurement> = Vec::new();
    let mut k: usize = 0;
    while k < n
        invariant
            k <= n,
            n == source.len(),
            want == measured(rows_of(source)),
            back@.len() == n - k,
            forall|j: int| 0 <= j < n - k ==> #[trigger] back@[j] == source[n - 1 - j].m,
            r@ == want.take(k as int),
        decreases n - k,
    {
        match back.pop() {
            Some(m) => {
                assert(m == want[k as int]);
                r.push(m);
                assert(want.take(k + 1) == want.take(k as int).push(want[k as int]));
            },
            None => {
                assert(false);
            },
        }
        k = k + 1;
    }
    assert(want.take(n as int) == want);
    r
}

} // verus!
