//! Report building and export.
//!
//! Turns measurements into machine-readable (JSON, CSV) and human-facing (HTML
//! with inline SVG graphs, Markdown) reports.

pub mod csv;
pub mod html;
pub mod json;
pub mod markdown;
pub mod value;

use vstd::prelude::*;

use crate::binary64::{lemma_pattern_order, Binary64};
use crate::interrupt::bulk::BulkMeasurement;
use crate::interrupt::discovery::{extension, extension_start};
use crate::interrupt::hardware_interrupt::{FileMeasurement, LATENCY_BUCKETS};
use crate::interrupt::random::RandomMeasurement;
use crate::interrupt::sweep::{SweepResult, DEFAULT_SWEEP_SIZES};
use crate::interrupt::write::WriteMeasurement;
use crate::order::{
    before, is_stable_order, key_le, keys_of, lemma_stable_order_exists,
    lemma_stable_order_keeps_the_items, rearranged, stable_order, stable_order_of,
};
use crate::rate::{mib_per_second, mib_per_second_of};
use crate::text::{
    chars_of, lemma_split_nonempty, lowercase, lowercase_of, piece_of, same, split, split_of, texts,
    trim_of, trimmed, Cut,
};

verus! {

// ── the order of a report ───────────────────────────────────────────────────

/// How a set of file measurements is ordered for presentation.
#[derive(Clone, Copy, PartialEq, Eq, Structural, Debug)]
pub enum SortKey {
    /// Slowest read throughput first: surfaces bottlenecks.
    Throughput,
    /// Largest file first.
    Size,
    /// Path, alphabetical.
    Name,
}

/// The key that a word names, once trimmed and made small.
pub open spec fn sort_key_named(s: Seq<char>) -> SortKey {
    let t = lowercase(trimmed(s));
    if t == "size"@ || t == "s"@ {
        SortKey::Size
    } else if t == "name"@ || t == "n"@ {
        SortKey::Name
    } else {
        SortKey::Throughput
    }
}

/// The characters of a text as numbers.
pub open spec fn char_key(s: Seq<char>) -> Seq<u64> {
    s.map_values(|c: char| c as u64)
}

impl SortKey {
    /// What a listing in this order is called.
    pub open spec fn title(self) -> Seq<char> {
        match self {
            SortKey::Throughput => "slowest throughput first"@,
            SortKey::Size => "largest first"@,
            SortKey::Name => "by name"@,
        }
    }

    /// The place of a measurement in this order.
    pub open spec fn place(self, m: FileMeasurement) -> Seq<u64> {
        match self {
            SortKey::Throughput => seq![m.rate().pattern() as u64],
            SortKey::Size => seq![(u64::MAX - m.size_bytes) as u64],
            SortKey::Name => char_key(m.path@),
        }
    }

    /// The places of some measurements in this order.
    pub open spec fn places(self, files: Seq<FileMeasurement>) -> Seq<Seq<u64>> {
        files.map_values(|m: FileMeasurement| self.place(m))
    }

    /// The measurements in this order; those with equal places keep their own.
    pub open spec fn sorted(self, files: Seq<FileMeasurement>) -> Seq<FileMeasurement> {
        stable_order(self.places(files)).map_values(|i: usize| files[i as int])
    }

    /// What a listing in this order is called.
    pub fn label(self) -> (s: &'static str)
        ensures
            s@ == self.title(),
    {
        match self {
            SortKey::Throughput => "slowest throughput first",
            SortKey::Size => "largest first",
            SortKey::Name => "by name",
        }
    }

    /// Reads a word from the command line or a prompt; an unknown one means
    /// `Throughput`.
    pub fn parse(s: &str) -> (k: SortKey)
        ensures
            k == sort_key_named(s@),
    {
        let t = lowercase_of(trim_of(s).as_str());
        if same(t.as_str(), "size") || same(t.as_str(), "s") {
            SortKey::Size
        } else if same(t.as_str(), "name") || same(t.as_str(), "n") {
            SortKey::Name
        } else {
            SortKey::Throughput
        }
    }

    fn place_of(self, m: &FileMeasurement) -> (key: Vec<u64>)
        ensures
            key@ == self.place(*m),
    {
        let mut key: Vec<u64> = Vec::new();
        match self {
            SortKey::Throughput => {
                key.push(m.throughput_mib_s().bits());
                assert(key@ == self.place(*m));
            },
            SortKey::Size => {
                key.push(u64::MAX - m.size_bytes);
                assert(key@ == self.place(*m));
            },
            SortKey::Name => {
                let v = chars_of(m.path.as_str());
                for i in 0..v.len()
                    invariant
                        key@ == char_key(v@).take(i as int),
                {
                    key.push(v[i] as u64);
                    assert(char_key(v@).take(i + 1) == char_key(v@).take(i as int).push(
                        v@[i as int] as u64,
                    ));
                }
                assert(char_key(v@).take(v@.len() as int) == char_key(v@));
            },
        }
        key
    }

    /// The positions of the measurements in this order.
    pub fn order_of(self, files: &Vec<FileMeasurement>) -> (p: Vec<usize>)
        ensures
            p@ == stable_order(self.places(files@)),
            is_stable_order(self.places(files@), p@),
            p@.len() == files@.len(),
            forall|i: int| 0 <= i < p@.len() ==> #[trigger] p@[i] < files@.len(),
    {
        let ghost places = self.places(files@);
        let mut keys: Vec<Vec<u64>> = Vec::new();
        for i in 0..files.len()
            invariant
                places == self.places(files@),
                keys_of(keys@) == places.take(i as int),
        {
            let ghost before_keys = keys@;
            let key = self.place_of(&files[i]);
            keys.push(key);
            proof {
                assert(keys_of(keys@) == keys_of(before_keys).push(key@));
                assert(places.take(i + 1) == places.take(i as int).push(places[i as int]));
            }
        }
        assert(keys_of(keys@) == places);
        stable_order_of(&keys)
    }

    /// Sorts measurements in place.
    pub fn sort(self, files: &mut Vec<FileMeasurement>)
        ensures
            final(files)@ == self.sorted(old(files)@),
    {
        let order = self.order_of(files);
        let mut items: Vec<FileMeasurement> = Vec::new();
        std::mem::swap(files, &mut items);
        let ghost places = self.places(items@);
        let mut out = rearranged(items, &order, Ghost(places));
        std::mem::swap(files, &mut out);
    }
}

/// A sorted listing has the same measurements, in the order that its key names:
/// the slower, the larger or the alphabetically earlier first. Those between
/// which the key does not decide keep their order.
pub proof fn law_sorting_orders_by_the_key(
    key: SortKey,
    files: Seq<FileMeasurement>,
    i: int,
    j: int,
)
    requires
        files.len() <= usize::MAX,
        0 <= i < j < files.len(),
        forall|k: int| 0 <= k < files.len() ==> (#[trigger] files[k]).rate().wf(),
    ensures
        is_stable_order(key.places(files), stable_order(key.places(files))),
        key.sorted(files).len() == files.len(),
        key.sorted(files).to_multiset() == files.to_multiset(),
        key == SortKey::Throughput ==> !key.sorted(files)[j].rate().below(
            key.sorted(files)[i].rate(),
        ),
        key == SortKey::Size ==> key.sorted(files)[i].size_bytes >= key.sorted(
            files,
        )[j].size_bytes,
        key == SortKey::Name ==> key_le(
            char_key(key.sorted(files)[i].path@),
            char_key(key.sorted(files)[j].path@),
        ),
{
    let places = key.places(files);
    lemma_stable_order_exists(places);
    let p = stable_order(places);
    let s = key.sorted(files);
    lemma_sorting_keeps_the_files(key, files);
    assert(before(places, p[i] as int, p[j] as int));
    assert(places[p[i] as int] == key.place(s[i]));
    assert(places[p[j] as int] == key.place(s[j]));
    let a = key.place(s[i]);
    let b = key.place(s[j]);
    if key != SortKey::Name {
        assert(a[0] <= b[0]);
    }
    if key == SortKey::Throughput {
        let x = files[p[i] as int].rate();
        let y = files[p[j] as int].rate();
        lemma_pattern_order(y, x);
        lemma_pattern_fits(x);
        lemma_pattern_fits(y);
    }
}

/// Sorting keeps the files.
pub proof fn lemma_sorting_keeps_the_files(key: SortKey, files: Seq<FileMeasurement>)
    requires
        files.len() <= usize::MAX,
    ensures
        key.sorted(files).len() == files.len(),
        key.sorted(files).to_multiset() == files.to_multiset(),
{
    let places = key.places(files);
    lemma_stable_order_exists(places);
    lemma_stable_order_keeps_the_items(files, places, stable_order(places));
}

proof fn lemma_pattern_fits(x: Binary64)
    requires
        x.wf(),
    ensures
        x.pattern() <= u64::MAX,
{
}

// ── reports ─────────────────────────────────────────────────────────────────

/// A finished report.
pub enum Report {
    Profile { root: String, files: Vec<FileMeasurement> },
    Bulk { root: String, bulk: BulkMeasurement },
    Sweep { sweep: SweepResult },
    Write { write: WriteMeasurement },
    Random { random: RandomMeasurement },
}

/// A finished report, as a value.
pub enum ReportModel {
    Profile { root: Seq<char>, files: Seq<FileMeasurement> },
    Bulk { root: Seq<char>, bulk: BulkMeasurement },
    Sweep { sweep: SweepResult },
    Write { write: WriteMeasurement },
    Random { random: RandomMeasurement },
}

impl View for Report {
    type V = ReportModel;

    open spec fn view(&self) -> ReportModel {
        match self {
            Report::Profile { root, files } => ReportModel::Profile { root: root@, files: files@ },
            Report::Bulk { root, bulk } => ReportModel::Bulk { root: root@, bulk: *bulk },
            Report::Sweep { sweep } => ReportModel::Sweep { sweep: *sweep },
            Report::Write { write } => ReportModel::Write { write: *write },
            Report::Random { random } => ReportModel::Random { random: *random },
        }
    }
}

impl ReportModel {
    /// Whether the sums that a report shows fit in 64 bits.
    pub open spec fn adds_up(self) -> bool {
        match self {
            ReportModel::Profile { files, .. } => sums_fit(files),
            _ => true,
        }
    }

    /// Whether a sweep in a report was made across the default block sizes.
    pub open spec fn swept_by_default(self) -> bool {
        self matches ReportModel::Sweep { sweep } ==> sweep.at_sizes(DEFAULT_SWEEP_SIZES@)
    }

    /// Whether the bytes that a report sums up fit in 64 bits.
    pub open spec fn bytes_fit(self) -> bool {
        match self {
            ReportModel::Profile { files, .. } => total_read(files) <= u64::MAX,
            _ => true,
        }
    }

    /// Whether the bytes and the times that a report sums up fit in 64 bits.
    pub open spec fn totals_fit(self) -> bool {
        match self {
            ReportModel::Profile { files, .. } => total_read(files) <= u64::MAX && total_nanos(
                files,
            ) <= u64::MAX,
            _ => true,
        }
    }
}

/// The formats in which a report is written.
#[derive(Clone, Copy, PartialEq, Eq, Structural, Debug)]
pub enum Format {
    Json,
    Csv,
    Html,
    Markdown,
}

impl Format {
    /// The file name extension of the format.
    pub open spec fn ending(self) -> Seq<char> {
        match self {
            Format::Json => "json"@,
            Format::Csv => "csv"@,
            Format::Html => "html"@,
            Format::Markdown => "md"@,
        }
    }

    /// The file name extension of the format.
    pub fn extension(self) -> (s: &'static str)
        ensures
            s@ == self.ending(),
    {
        match self {
            Format::Json => "json",
            Format::Csv => "csv",
            Format::Html => "html",
            Format::Markdown => "md",
        }
    }

    /// The document that a report becomes in this format, made `generated`
    /// seconds after the epoch.
    pub open spec fn document(self, r: ReportModel, generated: nat) -> Seq<char> {
        match self {
            Format::Json => json::json_text(r),
            Format::Csv => csv::csv_text(r),
            Format::Html => html::html_text(r, generated),
            Format::Markdown => markdown::markdown_text(r),
        }
    }

    /// Whether the sums that this format shows of a report fit in 64 bits.
    pub open spec fn can_show(self, r: ReportModel) -> bool {
        match self {
            Format::Json => r.bytes_fit(),
            Format::Csv => true,
            Format::Html => r.adds_up(),
            Format::Markdown => r.totals_fit(),
        }
    }

    /// Renders a report in this format.
    pub fn render(self, r: &Report, generated: u64) -> (s: String)
        requires
            self.can_show(r@),
        ensures
            s@ == self.document(r@, generated as nat),
    {
        match self {
            Format::Json => r.to_json(),
            Format::Csv => r.to_csv(),
            Format::Html => r.to_html(generated),
            Format::Markdown => r.to_markdown(),
        }
    }
}

/// The bytes read from some files.
pub open spec fn total_read(files: Seq<FileMeasurement>) -> nat
    decreases files.len(),
{
    if files.len() == 0 {
        0
    } else {
        total_read(files.drop_last()) + files.last().bytes_read as nat
    }
}

/// The time spent on some files.
pub open spec fn total_nanos(files: Seq<FileMeasurement>) -> nat
    decreases files.len(),
{
    if files.len() == 0 {
        0
    } else {
        total_nanos(files.drop_last()) + files.last().wall_nanos as nat
    }
}

/// The chunks of some files in one bucket of the histogram.
pub open spec fn bucket_total(files: Seq<FileMeasurement>, b: int) -> nat
    decreases files.len(),
{
    if files.len() == 0 {
        0
    } else {
        bucket_total(files.drop_last(), b) + files.last().latency_buckets@[b] as nat
    }
}

/// Sums only grow.
pub proof fn lemma_totals_grow(files: Seq<FileMeasurement>, n: int, b: int)
    requires
        0 <= n <= files.len(),
    ensures
        total_read(files.take(n)) <= total_read(files),
        total_nanos(files.take(n)) <= total_nanos(files),
        bucket_total(files.take(n), b) <= bucket_total(files, b),
    decreases files.len(),
{
    if n == files.len() {
        assert(files.take(n) == files);
    } else {
        lemma_totals_grow(files.drop_last(), n, b);
        assert(files.drop_last().take(n) == files.take(n));
    }
}

/// The bytes read from `files`.
pub fn total_read_of(files: &Vec<FileMeasurement>) -> (n: u64)
    requires
        total_read(files@) <= u64::MAX,
    ensures
        n == total_read(files@),
{
    let mut n: u64 = 0;
    for i in 0..files.len()
        invariant
            total_read(files@) <= u64::MAX,
            n == total_read(files@.take(i as int)),
    {
        proof {
            assert(files@.take(i + 1).drop_last() == files@.take(i as int));
            lemma_totals_grow(files@, i + 1, 0);
        }
        n = n + files[i].bytes_read;
    }
    assert(files@.take(files@.len() as int) == files@);
    n
}

/// The time spent on `files`.
pub fn total_nanos_of(files: &Vec<FileMeasurement>) -> (n: u64)
    requires
        total_nanos(files@) <= u64::MAX,
    ensures
        n == total_nanos(files@),
{
    let mut n: u64 = 0;
    for i in 0..files.len()
        invariant
            total_nanos(files@) <= u64::MAX,
            n == total_nanos(files@.take(i as int)),
    {
        proof {
            assert(files@.take(i + 1).drop_last() == files@.take(i as int));
            lemma_totals_grow(files@, i + 1, 0);
        }
        n = n + files[i].wall_nanos;
    }
    assert(files@.take(files@.len() as int) == files@);
    n
}

/// The chunks of `files` in bucket `b` of the histogram.
pub fn bucket_total_of(files: &Vec<FileMeasurement>, b: usize) -> (n: u64)
    requires
        b < LATENCY_BUCKETS,
        bucket_total(files@, b as int) <= u64::MAX,
    ensures
        n == bucket_total(files@, b as int),
{
    let mut n: u64 = 0;
    for i in 0..files.len()
        invariant
            b < LATENCY_BUCKETS,
            bucket_total(files@, b as int) <= u64::MAX,
            n == bucket_total(files@.take(i as int), b as int),
    {
        proof {
            assert(files@.take(i + 1).drop_last() == files@.take(i as int));
            lemma_totals_grow(files@, i + 1, b as int);
        }
        n = n + files[i].latency_buckets[b];
    }
    assert(files@.take(files@.len() as int) == files@);
    n
}

/// Whether the sums over some files fit in 64 bits.
pub open spec fn sums_fit(files: Seq<FileMeasurement>) -> bool {
    &&& total_read(files) <= u64::MAX
    &&& total_nanos(files) <= u64::MAX
    &&& forall|b: int| 0 <= b < LATENCY_BUCKETS ==> #[trigger] bucket_total(files, b) <= u64::MAX
}

impl Report {
    /// The report as a JSON document.
    pub fn to_json(&self) -> (s: String)
        requires
            self@.bytes_fit(),
        ensures
            s@ == json::json_text(self@),
    {
        json::render(self)
    }

    /// The report as a CSV document.
    pub fn to_csv(&self) -> (s: String)
        ensures
            s@ == csv::csv_text(self@),
    {
        csv::render(self)
    }

    /// The report as an HTML page made `generated` seconds after the epoch.
    pub fn to_html(&self, generated: u64) -> (s: String)
        requires
            self@.adds_up(),
        ensures
            s@ == html::html_text(self@, generated as nat),
    {
        html::render(self, generated)
    }

    /// The report as a Markdown document.
    pub fn to_markdown(&self) -> (s: String)
        requires
            self@.totals_fit(),
        ensures
            s@ == markdown::markdown_text(self@),
    {
        markdown::render(self)
    }

    /// Whether the sums that a report shows fit in 64 bits.
    pub fn fits(&self) -> (r: bool)
        ensures
            r == self@.adds_up(),
    {
        match self {
            Report::Profile { files, .. } => files_fit(files),
            _ => true,
        }
    }
}

/// The running sums over some files.
pub struct Sums {
    bytes: u64,
    nanos: u64,
    buckets: [u64; LATENCY_BUCKETS],
}

impl Sums {
    /// Whether these are the sums over `files`.
    pub closed spec fn over(&self, files: Seq<FileMeasurement>) -> bool {
        &&& self.bytes == total_read(files)
        &&& self.nanos == total_nanos(files)
        &&& forall|b: int|
            0 <= b < LATENCY_BUCKETS ==> #[trigger] self.buckets@[b] == bucket_total(files, b)
    }

    /// The sums over no files.
    pub(crate) fn new() -> (s: Sums)
        ensures
            s.over(Seq::empty()),
    {
        Sums { bytes: 0, nanos: 0, buckets: [0u64;LATENCY_BUCKETS] }
    }

    /// Whether the sums still fit in 64 bits with one more file.
    pub(crate) fn have_room_for(&self, m: &FileMeasurement, Ghost(files): Ghost<Seq<FileMeasurement>>) -> (r:
        bool)
        requires
            self.over(files),
        ensures
            r == sums_fit(files.push(*m)),
    {
        let ghost more = files.push(*m);
        assert(more.drop_last() == files);
        if m.bytes_read > u64::MAX - self.bytes || m.wall_nanos > u64::MAX - self.nanos {
            return false;
        }
        for b in 0..LATENCY_BUCKETS
            invariant
                self.over(files),
                more == files.push(*m),
                more.drop_last() == files,
                forall|k: int| 0 <= k < b ==> #[trigger] bucket_total(more, k) <= u64::MAX,
        {
            if m.latency_buckets[b] > u64::MAX - self.buckets[b] {
                assert(bucket_total(more, b as int) > u64::MAX);
                return false;
            }
        }
        true
    }

    /// Adds a file.
    pub(crate) fn add_file(&mut self, m: &FileMeasurement, Ghost(files): Ghost<Seq<FileMeasurement>>)
        requires
            old(self).over(files),
            sums_fit(files.push(*m)),
        ensures
            final(self).over(files.push(*m)),
    {
        let ghost more = files.push(*m);
        assert(more.drop_last() == files);
        self.bytes = self.bytes + m.bytes_read;
        self.nanos = self.nanos + m.wall_nanos;
        for b in 0..LATENCY_BUCKETS
            invariant
                more == files.push(*m),
                more.drop_last() == files,
                sums_fit(more),
                self.bytes == total_read(more),
                self.nanos == total_nanos(more),
                forall|k: int|
                    0 <= k < b ==> #[trigger] self.buckets@[k] == bucket_total(more, k),
                forall|k: int|
                    b <= k < LATENCY_BUCKETS ==> #[trigger] self.buckets@[k] == bucket_total(
                        files,
                        k,
                    ),
        {
            assert(bucket_total(more, b as int) <= u64::MAX);
            let n: u64 = self.buckets[b] + m.latency_buckets[b];
            self.buckets[b] = n;
        }
    }
}

/// Sums that fit did so all along.
pub proof fn lemma_sums_fit_before(files: Seq<FileMeasurement>, n: int)
    requires
        sums_fit(files),
        0 <= n <= files.len(),
    ensures
        sums_fit(files.take(n)),
{
    lemma_totals_grow(files, n, 0);
    assert forall|b: int| 0 <= b < LATENCY_BUCKETS implies #[trigger] bucket_total(
        files.take(n),
        b,
    ) <= u64::MAX by {
        lemma_totals_grow(files, n, b);
        assert(bucket_total(files, b) <= u64::MAX);
    }
}

/// Sums do not depend on the order of the files.
pub proof fn lemma_sums_of_the_same_files(a: Seq<FileMeasurement>, b: Seq<FileMeasurement>)
    requires
        a.to_multiset() == b.to_multiset(),
    ensures
        total_read(a) == total_read(b),
        total_nanos(a) == total_nanos(b),
        forall|k: int| #[trigger] bucket_total(a, k) == bucket_total(b, k),
        sums_fit(a) == sums_fit(b),
    decreases a.len(),
{
    a.to_multiset_ensures();
    b.to_multiset_ensures();
    assert(a.len() == b.len());
    if a.len() == 0 {
        assert(a == b);
    } else {
        let x = a.last();
        let init = a.drop_last();
        assert(a[a.len() - 1] == x);
        assert(a.contains(x));
        assert(a.to_multiset().count(x) > 0);
        assert(b.to_multiset().count(x) > 0);
        assert(b.contains(x));
        let j = choose|j: int| 0 <= j < b.len() && b[j] == x;
        assert(a.remove(a.len() - 1) == init);
        assert(init.to_multiset() == a.to_multiset().remove(x));
        assert(b.remove(j).to_multiset() == b.to_multiset().remove(x));
        lemma_sums_of_the_same_files(init, b.remove(j));
        lemma_sums_without_one(b, j);
        assert forall|k: int| #[trigger] bucket_total(a, k) == bucket_total(b, k) by {
            assert(bucket_total(init, k) == bucket_total(b.remove(j), k));
        }
    }
    if sums_fit(a) {
        assert forall|k: int| 0 <= k < LATENCY_BUCKETS implies #[trigger] bucket_total(b, k)
            <= u64::MAX by {
            assert(bucket_total(a, k) <= u64::MAX);
        }
    }
}

proof fn lemma_sums_without_one(files: Seq<FileMeasurement>, j: int)
    requires
        0 <= j < files.len(),
    ensures
        total_read(files) == total_read(files.remove(j)) + files[j].bytes_read,
        total_nanos(files) == total_nanos(files.remove(j)) + files[j].wall_nanos,
        forall|k: int| #[trigger]
            bucket_total(files, k) == bucket_total(files.remove(j), k)
                + files[j].latency_buckets@[k],
    decreases files.len(),
{
    let init = files.drop_last();
    if j == files.len() - 1 {
        assert(files.remove(j) == init);
    } else {
        lemma_sums_without_one(init, j);
        assert(files.remove(j).drop_last() == init.remove(j));
        assert(files.remove(j).last() == files.last());
        assert forall|k: int| #[trigger] bucket_total(files, k) == bucket_total(
            files.remove(j),
            k,
        ) + files[j].latency_buckets@[k] by {
            assert(bucket_total(init, k) == bucket_total(init.remove(j), k)
                + init[j].latency_buckets@[k]);
        }
    }
}

/// Whether the sums over `files` fit in 64 bits.
pub fn files_fit(files: &Vec<FileMeasurement>) -> (r: bool)
    ensures
        r == sums_fit(files@),
{
    let mut sums = Sums::new();
    assert(files@.take(0) == Seq::<FileMeasurement>::empty());
    proof {
        assert(sums_fit(Seq::<FileMeasurement>::empty()));
    }
    for i in 0..files.len()
        invariant
            sums.over(files@.take(i as int)),
            sums_fit(files@.take(i as int)),
    {
        let ghost before_files = files@.take(i as int);
        assert(files@.take(i + 1) == before_files.push(files@[i as int]));
        if !sums.have_room_for(&files[i], Ghost(before_files)) {
            proof {
                if sums_fit(files@) {
                    lemma_sums_fit_before(files@, i + 1);
                }
            }
            return false;
        }
        sums.add_file(&files[i], Ghost(before_files));
    }
    assert(files@.take(files@.len() as int) == files@);
    true
}

/// The word for a way of reading.
pub open spec fn mode_word(uncached: bool) -> Seq<char> {
    if uncached {
        "uncached"@
    } else {
        "cached"@
    }
}

/// The word for a way of reading.
pub fn mode_of(uncached: bool) -> (s: &'static str)
    ensures
        s@ == mode_word(uncached),
{
    if uncached {
        "uncached"
    } else {
        "cached"
    }
}

/// Whether the first of some files was read past the page cache.
pub open spec fn first_uncached(files: Seq<FileMeasurement>) -> bool {
    files.len() > 0 && files[0].uncached
}

/// Whether the first of some files was read past the page cache.
pub fn first_uncached_of(files: &Vec<FileMeasurement>) -> (r: bool)
    ensures
        r == first_uncached(files@),
{
    files.len() > 0 && files[0].uncached
}

// ── the breakdown by file type ──────────────────────────────────────────────

/// The name behind the last separator of a path.
pub open spec fn base_name(path: Seq<char>) -> Seq<char> {
    split(path, Cut::Slash).last()
}

/// The name behind the last separator of a path.
pub fn basename(path: &str) -> (s: String)
    ensures
        s@ == base_name(path@),
{
    let mut parts = split_of(path, Cut::Slash);
    proof {
        lemma_split_nonempty(path@, Cut::Slash);
        assert(texts(parts@).last() == parts@.last()@);
    }
    match parts.pop() {
        Some(s) => s,
        None => String::new(),
    }
}

/// The file type that a path shows: its extension in small letters.
pub open spec fn ext_name(path: Seq<char>) -> Seq<char> {
    match extension(base_name(path), '.') {
        Some(e) => lowercase(e),
        None => "(none)"@,
    }
}

fn ext_name_of(path: &str) -> (s: String)
    ensures
        s@ == ext_name(path@),
{
    let name = basename(path);
    let v = chars_of(name.as_str());
    let mut dots: Vec<bool> = Vec::new();
    for i in 0..v.len()
        invariant
            dots@.len() == i,
            forall|k: int| 0 <= k < i ==> #[trigger] dots@[k] == (v@[k] == '.'),
    {
        dots.push(v[i] == '.');
    }
    match extension_start(&v, &dots, Ghost('.')) {
        Some(i) => {
            let e = piece_of(&v, i, v.len());
            assert(e@ == v@.skip(i as int));
            lowercase_of(e.as_str())
        },
        None => "(none)".to_owned(),
    }
}

/// The file types of some files, each where it appears first.
pub open spec fn exts(files: Seq<FileMeasurement>) -> Seq<Seq<char>>
    decreases files.len(),
{
    if files.len() == 0 {
        Seq::empty()
    } else {
        let init = exts(files.drop_last());
        let ext = ext_name(files.last().path@);
        if init.contains(ext) {
            init
        } else {
            init.push(ext)
        }
    }
}

/// The files of one type, in their order.
pub open spec fn of_type(files: Seq<FileMeasurement>, ext: Seq<char>) -> Seq<FileMeasurement>
    decreases files.len(),
{
    if files.len() == 0 {
        Seq::empty()
    } else if ext_name(files.last().path@) == ext {
        of_type(files.drop_last(), ext).push(files.last())
    } else {
        of_type(files.drop_last(), ext)
    }
}

/// What the files of one type come to.
pub struct ExtStat {
    pub ext: String,
    pub files: usize,
    pub bytes: u64,
    pub wall_nanos: u64,
}

/// The totals of one file type.
pub struct ExtTotals {
    pub ext: Seq<char>,
    pub files: nat,
    pub bytes: nat,
    pub wall_nanos: nat,
}

impl View for ExtStat {
    type V = ExtTotals;

    open spec fn view(&self) -> ExtTotals {
        ExtTotals {
            ext: self.ext@,
            files: self.files as nat,
            bytes: self.bytes as nat,
            wall_nanos: self.wall_nanos as nat,
        }
    }
}

impl ExtTotals {
    /// The throughput in mebibytes per second.
    pub open spec fn rate(self) -> Binary64 {
        mib_per_second(self.bytes, self.wall_nanos)
    }
}

impl ExtStat {
    /// The throughput in mebibytes per second.
    pub fn throughput_mib_s(&self) -> (r: Binary64)
        ensures
            r == self@.rate(),
            r.moderate(),
            -110 <= r.exponent <= 24,
    {
        mib_per_second_of(self.bytes, self.wall_nanos)
    }
}

/// The totals of the files of one type.
pub open spec fn type_totals(files: Seq<FileMeasurement>, ext: Seq<char>) -> ExtTotals {
    let chosen = of_type(files, ext);
    ExtTotals {
        ext,
        files: chosen.len(),
        bytes: total_read(chosen),
        wall_nanos: total_nanos(chosen),
    }
}

/// The totals of each file type, in the order in which the types appear.
pub open spec fn breakdown(files: Seq<FileMeasurement>) -> Seq<ExtTotals> {
    exts(files).map_values(|ext: Seq<char>| type_totals(files, ext))
}

proof fn lemma_of_type_step(files: Seq<FileMeasurement>, ext: Seq<char>, n: int)
    requires
        0 <= n < files.len(),
    ensures
        of_type(files.take(n + 1), ext) == if ext_name(files[n].path@) == ext {
            of_type(files.take(n), ext).push(files[n])
        } else {
            of_type(files.take(n), ext)
        },
{
    assert(files.take(n + 1).drop_last() == files.take(n));
}

proof fn lemma_of_type_at_most(files: Seq<FileMeasurement>, ext: Seq<char>)
    ensures
        of_type(files, ext).len() <= files.len(),
        total_read(of_type(files, ext)) <= total_read(files),
        total_nanos(of_type(files, ext)) <= total_nanos(files),
    decreases files.len(),
{
    if files.len() > 0 {
        lemma_of_type_at_most(files.drop_last(), ext);
        let init = of_type(files.drop_last(), ext);
        assert(init.push(files.last()).drop_last() == init);
    }
}

fn type_stat(files: &Vec<FileMeasurement>, ext: String) -> (r: ExtStat)
    requires
        total_read(files@) <= u64::MAX,
        total_nanos(files@) <= u64::MAX,
    ensures
        r@ == type_totals(files@, ext@),
{
    let mut count: usize = 0;
    let mut bytes: u64 = 0;
    let mut nanos: u64 = 0;
    for i in 0..files.len()
        invariant
            total_read(files@) <= u64::MAX,
            total_nanos(files@) <= u64::MAX,
            count <= i,
            count == of_type(files@.take(i as int), ext@).len(),
            bytes == total_read(of_type(files@.take(i as int), ext@)),
            nanos == total_nanos(of_type(files@.take(i as int), ext@)),
    {
        proof {
            let init = of_type(files@.take(i as int), ext@);
            lemma_of_type_step(files@, ext@, i as int);
            lemma_of_type_at_most(files@.take(i + 1), ext@);
            lemma_totals_grow(files@, i + 1, 0);
            assert(init.push(files@[i as int]).drop_last() == init);
        }
        let e = ext_name_of(files[i].path.as_str());
        if same(e.as_str(), ext.as_str()) {
            count = count + 1;
            bytes = bytes + files[i].bytes_read;
            nanos = nanos + files[i].wall_nanos;
        }
    }
    assert(files@.take(files@.len() as int) == files@);
    ExtStat { ext, files: count, bytes, wall_nanos: nanos }
}

fn exts_of(files: &Vec<FileMeasurement>) -> (r: Vec<String>)
    ensures
        texts(r@) == exts(files@),
{
    let mut r: Vec<String> = Vec::new();
    for i in 0..files.len()
        invariant
            texts(r@) == exts(files@.take(i as int)),
    {
        let e = ext_name_of(files[i].path.as_str());
        let ghost known = texts(r@);
        proof {
            assert(files@.take(i + 1).drop_last() == files@.take(i as int));
        }
        let mut seen = false;
        let mut k: usize = 0;
        while k < r.len() && !seen
            invariant
                k <= r@.len(),
                known == texts(r@),
                seen ==> known.contains(e@),
                !seen ==> forall|j: int| 0 <= j < k ==> #[trigger] known[j] != e@,
            decreases r@.len() - k,
        {
            if same(r[k].as_str(), e.as_str()) {
                assert(known[k as int] == e@);
                seen = true;
            }
            k = k + 1;
        }
        if !seen {
            let ghost ext = e@;
            r.push(e);
            assert(texts(r@) == known.push(ext));
        }
    }
    assert(files@.take(files@.len() as int) == files@);
    r
}

/// The totals of each file type.
pub fn ext_breakdown(files: &Vec<FileMeasurement>) -> (r: Vec<ExtStat>)
    requires
        total_read(files@) <= u64::MAX,
        total_nanos(files@) <= u64::MAX,
    ensures
        r@.map_values(|e: ExtStat| e@) == breakdown(files@),
{
    let names = exts_of(files);
    let mut r: Vec<ExtStat> = Vec::new();
    for i in 0..names.len()
        invariant
            total_read(files@) <= u64::MAX,
            total_nanos(files@) <= u64::MAX,
            texts(names@) == exts(files@),
            r@.map_values(|e: ExtStat| e@) == breakdown(files@).take(i as int),
    {
        let ghost before_r = r@;
        let stat = type_stat(files, names[i].as_str().to_owned());
        assert(texts(names@)[i as int] == names@[i as int]@);
        let ghost totals = stat@;
        r.push(stat);
        proof {
            assert(r@.map_values(|e: ExtStat| e@) == before_r.map_values(|e: ExtStat| e@).push(totals));
            assert(breakdown(files@).take(i + 1) == breakdown(files@).take(i as int).push(
                breakdown(files@)[i as int],
            ));
        }
    }
    assert(breakdown(files@).take(names@.len() as int) == breakdown(files@));
    r
}

/// The sums over the types of a breakdown.
pub open spec fn breakdown_sums(groups: Seq<ExtTotals>) -> (nat, nat, nat)
    decreases groups.len(),
{
    if groups.len() == 0 {
        (0, 0, 0)
    } else {
        let (files, bytes, nanos) = breakdown_sums(groups.drop_last());
        let g = groups.last();
        (files + g.files, bytes + g.bytes, nanos + g.wall_nanos)
    }
}

/// The totals of some types over some files.
spec fn groups_of(files: Seq<FileMeasurement>, names: Seq<Seq<char>>) -> Seq<ExtTotals> {
    names.map_values(|ext: Seq<char>| type_totals(files, ext))
}

proof fn lemma_one_more_file(
    files: Seq<FileMeasurement>,
    m: FileMeasurement,
    names: Seq<Seq<char>>,
)
    requires
        names.no_duplicates(),
    ensures
        ({
            let (c, b, n) = breakdown_sums(groups_of(files, names));
            breakdown_sums(groups_of(files.push(m), names)) == if names.contains(
                ext_name(m.path@),
            ) {
                (c + 1, b + m.bytes_read as nat, n + m.wall_nanos as nat)
            } else {
                (c, b, n)
            }
        }),
    decreases names.len(),
{
    let all = files.push(m);
    let ext = ext_name(m.path@);
    assert(all.drop_last() == files);
    if names.len() > 0 {
        let rest = names.drop_last();
        lemma_one_more_file(files, m, rest);
        assert(groups_of(all, names).drop_last() == groups_of(all, rest));
        assert(groups_of(files, names).drop_last() == groups_of(files, rest));
        let last = names.last();
        let init = of_type(files, last);
        assert(init.push(m).drop_last() == init);
        if rest.contains(ext) {
            let i = choose|i: int| 0 <= i < rest.len() && rest[i] == ext;
            assert(names[i] == ext);
            assert(last != ext);
        } else if last == ext {
            assert(names[names.len() - 1] == ext);
            assert(names.contains(ext));
        } else if names.contains(ext) {
            let i = choose|i: int| 0 <= i < names.len() && names[i] == ext;
            assert(rest[i] == ext);
        }
    }
}

proof fn lemma_exts(files: Seq<FileMeasurement>)
    ensures
        exts(files).no_duplicates(),
        forall|i: int| 0 <= i < files.len() ==> exts(files).contains(
            ext_name((#[trigger] files[i]).path@),
        ),
    decreases files.len(),
{
    if files.len() > 0 {
        let init = exts(files.drop_last());
        let ext = ext_name(files.last().path@);
        lemma_exts(files.drop_last());
        assert forall|i: int| 0 <= i < files.len() implies exts(files).contains(
            ext_name((#[trigger] files[i]).path@),
        ) by {
            let e = ext_name(files[i].path@);
            if i < files.len() - 1 {
                assert(files.drop_last()[i] == files[i]);
                let k = choose|k: int| 0 <= k < init.len() && init[k] == e;
                assert(exts(files)[k] == e);
            } else if !init.contains(ext) {
                assert(exts(files)[init.len() as int] == ext);
            }
        }
    }
}

proof fn lemma_sums_over_known_types(files: Seq<FileMeasurement>, names: Seq<Seq<char>>)
    requires
        names.no_duplicates(),
        forall|i: int| 0 <= i < files.len() ==> names.contains(
            ext_name((#[trigger] files[i]).path@),
        ),
    ensures
        breakdown_sums(groups_of(files, names)) == (
            files.len(),
            total_read(files),
            total_nanos(files),
        ),
    decreases files.len(),
{
    if files.len() == 0 {
        lemma_no_files(names);
        assert(files == Seq::<FileMeasurement>::empty());
    } else {
        let init = files.drop_last();
        assert forall|i: int| 0 <= i < init.len() implies names.contains(
            ext_name((#[trigger] init[i]).path@),
        ) by {
            assert(files[i] == init[i]);
        }
        lemma_sums_over_known_types(init, names);
        lemma_one_more_file(init, files.last(), names);
        assert(init.push(files.last()) == files);
        assert(names.contains(ext_name(files[files.len() - 1].path@)));
    }
}

proof fn lemma_no_files(names: Seq<Seq<char>>)
    ensures
        breakdown_sums(groups_of(Seq::empty(), names)) == (0nat, 0nat, 0nat),
    decreases names.len(),
{
    if names.len() > 0 {
        lemma_no_files(names.drop_last());
        assert(groups_of(Seq::empty(), names).drop_last() == groups_of(
            Seq::empty(),
            names.drop_last(),
        ));
    }
}

/// A breakdown lists each file type once, and its types together account for
/// every file, every byte and all of the time.
pub proof fn law_a_breakdown_accounts_for_every_file(files: Seq<FileMeasurement>)
    ensures
        exts(files).no_duplicates(),
        breakdown_sums(breakdown(files)) == (files.len(), total_read(files), total_nanos(files)),
{
    lemma_exts(files);
    lemma_sums_over_known_types(files, exts(files));
    assert(breakdown(files) == groups_of(files, exts(files)));
}

} // verus!
