//! A run without the terminal UI: which step comes next, what is printed, and
//! the exit code.
//!
//! The steps themselves, walking directories, measuring and writing files, are
//! done outside. A run says which step is due and takes its result.

use vstd::prelude::*;

use crate::cli::{Config, Settings};
use crate::human::{human_bytes, human_bytes_text};
use crate::interrupt::bulk::BulkMeasurement;
use crate::interrupt::hardware_interrupt::FileMeasurement;
use crate::interrupt::random::RandomMeasurement;
use crate::interrupt::session::{has_nul, MeasureError};
use crate::interrupt::sweep::{
    best_point, block, default_sweep, Sweep, SweepPoint, SweepResult, SweepState,
    DEFAULT_SWEEP_SIZES,
};
use crate::interrupt::write::WriteMeasurement;
use crate::rate::{millis, millis_of};
use crate::report::{
    lemma_sorting_keeps_the_files, lemma_sums_of_the_same_files, sums_fit, total_read,
    total_read_of, Format, Report, ReportModel, Sums,
};
use crate::text::{decimal, decimal_of, right_align, right_aligned};

verus! {

// ── printed lines ───────────────────────────────────────────────────────────

/// A line for the standard output or the standard error stream.
pub struct Line {
    pub err: bool,
    pub text: String,
}

/// A printed line, as a value.
pub struct LineModel {
    pub err: bool,
    pub text: Seq<char>,
}

impl View for Line {
    type V = LineModel;

    open spec fn view(&self) -> LineModel {
        LineModel { err: self.err, text: self.text@ }
    }
}

/// Some printed lines, as values.
pub open spec fn lines(v: Seq<Line>) -> Seq<LineModel> {
    v.map_values(|l: Line| l@)
}

/// A line on the standard output stream.
pub open spec fn on_out(text: Seq<char>) -> LineModel {
    LineModel { err: false, text }
}

/// A line on the standard error stream.
pub open spec fn on_err(text: Seq<char>) -> LineModel {
    LineModel { err: true, text }
}

proof fn lemma_lines_push(v: Seq<Line>, l: Line)
    ensures
        lines(v.push(l)) == lines(v).push(l@),
{
    assert(lines(v.push(l)) == lines(v).push(l@));
}

fn no_lines() -> (v: Vec<Line>)
    ensures
        lines(v@) == Seq::<LineModel>::empty(),
{
    let v: Vec<Line> = Vec::new();
    assert(lines(v@) == Seq::<LineModel>::empty());
    v
}

fn one_line(err: bool, text: String) -> (v: Vec<Line>)
    ensures
        lines(v@) == seq![LineModel { err, text: text@ }],
{
    let mut v: Vec<Line> = Vec::new();
    v.push(Line { err, text });
    assert(lines(v@) == seq![LineModel { err, text: text@ }]);
    v
}

/// The line for one file.
pub open spec fn file_line(m: FileMeasurement) -> Seq<char> {
    "  "@ + right_aligned(human_bytes_text(m.size_bytes as nat), 10) + "  "@ + right_aligned(
        m.rate().fixed(1),
        9,
    ) + " MiB/s  "@ + m.path@
}

/// The lines for the files of a profile.
pub open spec fn profile_lines(files: Seq<FileMeasurement>) -> Seq<LineModel> {
    seq![
        on_out(
            "profiled "@ + decimal(files.len()) + " files · "@ + human_bytes_text(
                total_read(files),
            ),
        ),
    ] + files.map_values(|m: FileMeasurement| on_out(file_line(m)))
}

/// The line for one point of a sweep.
pub open spec fn point_line(p: SweepPoint) -> Seq<char> {
    "  "@ + right_aligned(human_bytes_text(p.chunk_size as nat), 9) + "  "@ + right_aligned(
        p.rate().fixed(1),
        9,
    ) + " MiB/s  avg "@ + decimal(p.avg_chunk_nanos as nat) + " ns"@
}

/// The line for the best block size of a sweep, if there is one.
pub open spec fn best_lines(points: Seq<SweepPoint>) -> Seq<LineModel> {
    match best_point(points) {
        Some(p) => seq![
            on_out("  best: "@ + human_bytes_text(p.chunk_size as nat) + " block"@),
        ],
        None => Seq::empty(),
    }
}

/// The lines for a sweep over the file `path`.
pub open spec fn sweep_lines(path: Seq<char>, s: SweepResult) -> Seq<LineModel> {
    seq![
        on_out(
            "block-size sweep · "@ + path + " · "@ + human_bytes_text(s.size_bytes as nat),
        ),
    ] + s.points@.map_values(|p: SweepPoint| on_out(point_line(p))) + best_lines(s.points@)
}

/// The line before a bulk read.
pub open spec fn bulk_start(files: nat, threads: nat) -> Seq<char> {
    "bulk reading "@ + decimal(files) + " files across "@ + decimal(threads) + " threads…"@
}

/// The line for a bulk read.
pub open spec fn bulk_line(b: BulkMeasurement) -> Seq<char> {
    "bulk: "@ + decimal(b.file_count as nat) + " files · "@ + human_bytes_text(b.bytes_read as nat)
        + " · "@ + b.rate().fixed(2) + " MiB/s · "@ + decimal(b.threads as nat) + " threads · "@
        + decimal(b.errors as nat) + " failed"@
}

/// The line for a write benchmark.
pub open spec fn write_line(w: WriteMeasurement) -> Seq<char> {
    "write: "@ + human_bytes_text(w.bytes as nat) + " · "@ + w.rate().fixed(2)
        + " MiB/s · fsync "@ + millis(w.fsync_nanos as nat).fixed(2) + " ms"@
}

/// The line for a random-access benchmark.
pub open spec fn random_line(r: RandomMeasurement) -> Seq<char> {
    "random: "@ + decimal(r.ops as nat) + " reads of "@ + human_bytes_text(r.block_size as nat)
        + " · "@ + r.rate().fixed(0) + " IOPS · avg "@ + decimal(r.avg_nanos as nat)
        + " ns · p99 "@ + decimal(r.p99_nanos as nat) + " ns"@
}

fn file_line_of(m: &FileMeasurement) -> (s: String)
    ensures
        s@ == file_line(*m),
{
    let mut s = "  ".to_owned();
    s.append(right_align(human_bytes(m.size_bytes).as_str(), 10).as_str());
    s.append("  ");
    s.append(right_align(m.throughput_mib_s().fixed_of(1).as_str(), 9).as_str());
    s.append(" MiB/s  ");
    s.append(m.path.as_str());
    s
}

fn profile_lines_of(files: &Vec<FileMeasurement>) -> (v: Vec<Line>)
    requires
        total_read(files@) <= u64::MAX,
    ensures
        lines(v@) == profile_lines(files@),
{
    let mut head = "profiled ".to_owned();
    head.append(decimal_of(files.len() as u128).as_str());
    head.append(" files · ");
    head.append(human_bytes(total_read_of(files)).as_str());
    let ghost all = profile_lines(files@);
    let mut v = one_line(false, head);
    assert(all.take(1) == lines(v@));
    for i in 0..files.len()
        invariant
            all == profile_lines(files@),
            lines(v@) == all.take(i + 1),
    {
        let l = Line { err: false, text: file_line_of(&files[i]) };
        proof {
            lemma_lines_push(v@, l);
            assert(all[i + 1] == on_out(file_line(files@[i as int])));
            assert(all.take(i + 2) == all.take(i + 1).push(all[i + 1]));
        }
        v.push(l);
    }
    assert(all.take(all.len() as int) == all);
    v
}

fn point_line_of(p: &SweepPoint) -> (s: String)
    ensures
        s@ == point_line(*p),
{
    let mut s = "  ".to_owned();
    s.append(right_align(human_bytes(p.chunk_size as u64).as_str(), 9).as_str());
    s.append("  ");
    s.append(right_align(p.throughput_mib_s().fixed_of(1).as_str(), 9).as_str());
    s.append(" MiB/s  avg ");
    s.append(decimal_of(p.avg_chunk_nanos as u128).as_str());
    s.append(" ns");
    s
}

fn sweep_lines_of(path: &str, s: &SweepResult) -> (v: Vec<Line>)
    ensures
        lines(v@) == sweep_lines(path@, *s),
{
    let mut head = "block-size sweep · ".to_owned();
    head.append(path);
    head.append(" · ");
    head.append(human_bytes(s.size_bytes).as_str());
    let ghost all = seq![
        on_out("block-size sweep · "@ + path@ + " · "@ + human_bytes_text(s.size_bytes as nat)),
    ] + s.points@.map_values(|p: SweepPoint| on_out(point_line(p)));
    let mut v = one_line(false, head);
    assert(all.take(1) == lines(v@));
    for i in 0..s.points.len()
        invariant
            all == seq![
                on_out(
                    "block-size sweep · "@ + path@ + " · "@ + human_bytes_text(
                        s.size_bytes as nat,
                    ),
                ),
            ] + s.points@.map_values(|p: SweepPoint| on_out(point_line(p))),
            lines(v@) == all.take(i + 1),
    {
        let l = Line { err: false, text: point_line_of(&s.points[i]) };
        proof {
            lemma_lines_push(v@, l);
            assert(all[i + 1] == on_out(point_line(s.points@[i as int])));
            assert(all.take(i + 2) == all.take(i + 1).push(all[i + 1]));
        }
        v.push(l);
    }
    assert(all.take(all.len() as int) == all);
    match s.best() {
        Some(p) => {
            let mut text = "  best: ".to_owned();
            text.append(human_bytes(p.chunk_size as u64).as_str());
            text.append(" block");
            let l = Line { err: false, text };
            proof {
                lemma_lines_push(v@, l);
                assert(all.push(l@) == sweep_lines(path@, *s));
            }
            v.push(l);
            v
        },
        None => {
            assert(all == sweep_lines(path@, *s));
            v
        },
    }
}

fn bulk_start_of(files: usize, threads: usize) -> (s: String)
    ensures
        s@ == bulk_start(files as nat, threads as nat),
{
    let mut s = "bulk reading ".to_owned();
    s.append(decimal_of(files as u128).as_str());
    s.append(" files across ");
    s.append(decimal_of(threads as u128).as_str());
    s.append(" threads…");
    s
}

fn bulk_line_of(b: &BulkMeasurement) -> (s: String)
    ensures
        s@ == bulk_line(*b),
{
    let mut s = "bulk: ".to_owned();
    s.append(decimal_of(b.file_count as u128).as_str());
    s.append(" files · ");
    s.append(human_bytes(b.bytes_read).as_str());
    s.append(" · ");
    s.append(b.throughput_mib_s().fixed_of(2).as_str());
    s.append(" MiB/s · ");
    s.append(decimal_of(b.threads as u128).as_str());
    s.append(" threads · ");
    s.append(decimal_of(b.errors as u128).as_str());
    s.append(" failed");
    s
}

fn write_line_of(w: &WriteMeasurement) -> (s: String)
    ensures
        s@ == write_line(*w),
{
    let mut s = "write: ".to_owned();
    s.append(human_bytes(w.bytes).as_str());
    s.append(" · ");
    s.append(w.throughput_mib_s().fixed_of(2).as_str());
    s.append(" MiB/s · fsync ");
    s.append(millis_of(w.fsync_nanos).fixed_of(2).as_str());
    s.append(" ms");
    s
}

fn random_line_of(r: &RandomMeasurement) -> (s: String)
    ensures
        s@ == random_line(*r),
{
    let mut s = "random: ".to_owned();
    s.append(decimal_of(r.ops as u128).as_str());
    s.append(" reads of ");
    s.append(human_bytes(r.block_size as u64).as_str());
    s.append(" · ");
    s.append(r.iops().fixed_of(0).as_str());
    s.append(" IOPS · avg ");
    s.append(decimal_of(r.avg_nanos as u128).as_str());
    s.append(" ns · p99 ");
    s.append(decimal_of(r.p99_nanos as u128).as_str());
    s.append(" ns");
    s
}

// ── steps ───────────────────────────────────────────────────────────────────

/// The steps of a run.
#[derive(Clone, Copy, PartialEq, Eq, Structural, Debug)]
pub enum Task {
    /// Find the files under the path.
    Collect,
    /// Run the write benchmark in the directory that is the target.
    Write,
    /// Run the random-access benchmark on the target.
    Random,
    /// Sweep the target.
    Sweep,
    /// Read all files that were found.
    Bulk,
    /// Profile the target.
    Profile,
    /// Write the report to the target.
    Save(Format),
    /// End with the exit code.
    Exit,
}

/// The state of a run, as a value.
pub struct HeadlessState {
    pub settings: Settings,
    pub task: Task,
    /// The files that were found, by their paths; those not in UTF-8 have none.
    pub files: Seq<Option<Seq<char>>>,
    /// The file that is profiled.
    pub next: nat,
    pub measured: Seq<FileMeasurement>,
    pub report: Option<ReportModel>,
    pub failed: bool,
}

/// What a step leads to: the next state and the lines to print.
pub struct Outcome {
    pub state: HeadlessState,
    pub printed: Seq<LineModel>,
}

/// The formats, in the order in which reports are written.
pub open spec fn format_at(k: int) -> Format {
    if k == 0 {
        Format::Json
    } else if k == 1 {
        Format::Csv
    } else if k == 2 {
        Format::Html
    } else {
        Format::Markdown
    }
}

/// The place of a format in that order.
pub open spec fn format_place(f: Format) -> int {
    match f {
        Format::Json => 0,
        Format::Csv => 1,
        Format::Html => 2,
        Format::Markdown => 3,
    }
}

impl Settings {
    /// Where the report goes in a format, if it was asked for.
    pub open spec fn output(self, f: Format) -> Option<Seq<char>> {
        match f {
            Format::Json => self.json,
            Format::Csv => self.csv,
            Format::Html => self.html,
            Format::Markdown => self.md,
        }
    }

    /// The first report to write from the `k`-th format on, or the end.
    pub open spec fn save_from(self, k: int) -> Task
        decreases 4 - k,
    {
        if k >= 4 {
            Task::Exit
        } else if self.output(format_at(k)) is Some {
            Task::Save(format_at(k))
        } else {
            self.save_from(k + 1)
        }
    }
}

/// The first file from `k` on whose path is in UTF-8, or the number of files.
pub open spec fn first_text(files: Seq<Option<Seq<char>>>, k: int) -> int
    decreases files.len() - k,
{
    if k >= files.len() || files[k] is Some {
        k
    } else {
        first_text(files, k + 1)
    }
}

impl HeadlessState {
    /// The start of a run.
    pub open spec fn start(settings: Settings) -> HeadlessState {
        HeadlessState {
            settings,
            task: if settings.write {
                Task::Write
            } else {
                Task::Collect
            },
            files: Seq::empty(),
            next: 0,
            measured: Seq::empty(),
            report: None,
            failed: false,
        }
    }

    /// What the step that is due works on.
    pub open spec fn target(self) -> Seq<char> {
        match self.task {
            Task::Profile => self.files[self.next as int]->0,
            Task::Sweep | Task::Random => match self.files[0] {
                Some(path) => path,
                None => self.settings.path,
            },
            Task::Save(f) => self.settings.output(f)->0,
            _ => self.settings.path,
        }
    }

    /// The exit code.
    pub open spec fn code(self) -> int {
        if self.failed {
            1
        } else {
            0
        }
    }

    /// The end, after a failure.
    pub open spec fn stopped(self, message: Seq<char>) -> Outcome {
        Outcome {
            state: HeadlessState { task: Task::Exit, failed: true, ..self },
            printed: seq![on_err(message)],
        }
    }

    /// With a report, which is then written.
    pub open spec fn reported(self, r: ReportModel) -> HeadlessState {
        HeadlessState { report: Some(r), task: self.settings.save_from(0), ..self }
    }

    /// On to the next file from the `k`-th on, or to the report.
    pub open spec fn profiling(self, k: int) -> Outcome {
        let n = first_text(self.files, k);
        if n < self.files.len() {
            Outcome {
                state: HeadlessState { task: Task::Profile, next: n as nat, ..self },
                printed: Seq::empty(),
            }
        } else {
            let sorted = self.settings.sort.sorted(self.measured);
            Outcome {
                state: HeadlessState { measured: Seq::empty(), next: n as nat, ..self }.reported(
                    ReportModel::Profile { root: self.settings.path, files: sorted },
                ),
                printed: profile_lines(sorted),
            }
        }
    }

    /// After the files were looked for.
    pub open spec fn collected(self, found: Result<Seq<Option<Seq<char>>>, Seq<char>>) -> Outcome {
        match found {
            Err(e) => self.stopped("error: "@ + e),
            Ok(files) => {
                let n = files.len();
                let s = HeadlessState { files, ..self };
                if n == 0 {
                    s.stopped("error: no files matched under "@ + self.settings.path)
                } else if self.settings.random {
                    if n != 1 {
                        s.stopped("error: --random requires a single file (got "@ + decimal(n) + ")"@)
                    } else {
                        Outcome {
                            state: HeadlessState { task: Task::Random, ..s },
                            printed: Seq::empty(),
                        }
                    }
                } else if self.settings.sweep {
                    if n != 1 {
                        s.stopped("error: --sweep requires a single file (got "@ + decimal(n) + ")"@)
                    } else {
                        Outcome {
                            state: HeadlessState { task: Task::Sweep, ..s },
                            printed: Seq::empty(),
                        }
                    }
                } else if self.settings.bulk {
                    Outcome {
                        state: HeadlessState { task: Task::Bulk, ..s },
                        printed: seq![on_err(bulk_start(n, self.settings.threads))],
                    }
                } else {
                    s.profiling(0)
                }
            },
        }
    }

    /// After a file was profiled.
    pub open spec fn profiled(self, r: Result<FileMeasurement, Seq<char>>) -> Outcome {
        match r {
            Ok(m) => HeadlessState { measured: self.measured.push(m), ..self }.profiling(
                (self.next + 1) as int,
            ),
            Err(e) => {
                let o = self.profiling((self.next + 1) as int);
                Outcome {
                    state: o.state,
                    printed: seq![on_err("skip "@ + self.target() + ": "@ + e)] + o.printed,
                }
            },
        }
    }

    /// After the sweep.
    pub open spec fn swept(self, r: Result<SweepResult, Seq<char>>) -> Outcome {
        match r {
            Ok(sweep) => Outcome {
                state: self.reported(ReportModel::Sweep { sweep }),
                printed: sweep_lines(self.target(), sweep),
            },
            Err(e) => self.stopped("error: "@ + e),
        }
    }

    /// After the bulk read.
    pub open spec fn bulk_read(self, bulk: BulkMeasurement) -> Outcome {
        Outcome {
            state: self.reported(ReportModel::Bulk { root: self.settings.path, bulk }),
            printed: seq![on_out(bulk_line(bulk))],
        }
    }

    /// After the write benchmark.
    pub open spec fn written(self, r: Result<WriteMeasurement, Seq<char>>) -> Outcome {
        match r {
            Ok(write) => Outcome {
                state: self.reported(ReportModel::Write { write }),
                printed: seq![on_out(write_line(write))],
            },
            Err(e) => self.stopped("error: "@ + e),
        }
    }

    /// After the random-access benchmark.
    pub open spec fn random_read(self, r: Result<RandomMeasurement, Seq<char>>) -> Outcome {
        match r {
            Ok(random) => Outcome {
                state: self.reported(ReportModel::Random { random }),
                printed: seq![on_out(random_line(random))],
            },
            Err(e) => self.stopped("error: "@ + e),
        }
    }

    /// After the report was written in a format.
    pub open spec fn saved(self, f: Format, r: Result<(), Seq<char>>) -> Outcome {
        let task = self.settings.save_from(format_place(f) + 1);
        match r {
            Ok(_) => Outcome {
                state: HeadlessState { task, ..self },
                printed: seq![on_err("wrote "@ + self.target())],
            },
            Err(e) => Outcome {
                state: HeadlessState { task, failed: true, ..self },
                printed: seq![on_err("error: failed to write "@ + self.target() + ": "@ + e)],
            },
        }
    }

    /// What holds of every state of a run.
    pub open spec fn wf(self) -> bool {
        &&& sums_fit(self.measured)
        &&& self.measured.len() <= self.next <= self.files.len()
        &&& self.report is Some ==> self.report->0.swept_by_default()
        &&& match self.task {
            Task::Collect => self.next == 0 && self.files.len() == 0 && self.measured.len() == 0,
            Task::Profile => self.next < self.files.len() && self.files[self.next as int] is Some,
            Task::Sweep | Task::Random => self.files.len() == 1,
            Task::Save(f) => self.settings.output(f) is Some && self.report is Some
                && self.report->0.adds_up(),
            _ => true,
        }
    }
}

/// A run without the terminal UI.
pub struct Headless {
    cfg: Config,
    task: Task,
    files: Vec<Option<String>>,
    next: usize,
    measured: Vec<FileMeasurement>,
    sums: Sums,
    report: Option<Report>,
    failed: bool,
}

/// The paths of some files, as texts.
pub open spec fn paths(v: Seq<Option<String>>) -> Seq<Option<Seq<char>>> {
    v.map_values(|p: Option<String>| crate::cli::maybe(p))
}

impl View for Headless {
    type V = HeadlessState;

    closed spec fn view(&self) -> HeadlessState {
        HeadlessState {
            settings: self.cfg@,
            task: self.task,
            files: paths(self.files@),
            next: self.next as nat,
            measured: self.measured@,
            report: match self.report {
                Some(r) => Some(r@),
                None => None,
            },
            failed: self.failed,
        }
    }
}

fn output_of(cfg: &Config, f: Format) -> (r: &Option<String>)
    ensures
        crate::cli::maybe(*r) == cfg@.output(f),
{
    match f {
        Format::Json => &cfg.json,
        Format::Csv => &cfg.csv,
        Format::Html => &cfg.html,
        Format::Markdown => &cfg.md,
    }
}

fn save_from_of(cfg: &Config, k: u8) -> (t: Task)
    requires
        k <= 4,
    ensures
        t == cfg@.save_from(k as int),
        t matches Task::Save(f) ==> cfg@.output(f) is Some,
        t is Save || t is Exit,
    decreases 4 - k,
{
    if k >= 4 {
        return Task::Exit;
    }
    let f = if k == 0 {
        Format::Json
    } else if k == 1 {
        Format::Csv
    } else if k == 2 {
        Format::Html
    } else {
        Format::Markdown
    };
    if output_of(cfg, f).is_some() {
        Task::Save(f)
    } else {
        save_from_of(cfg, k + 1)
    }
}

fn error_line(e: &str) -> (s: String)
    ensures
        s@ == "error: "@ + e@,
{
    let mut s = "error: ".to_owned();
    s.append(e);
    s
}

fn single_file_line(option: &str, n: usize) -> (s: String)
    ensures
        s@ == option@ + decimal(n as nat) + ")"@,
{
    let mut s = option.to_owned();
    s.append(decimal_of(n as u128).as_str());
    s.append(")");
    s
}

impl Headless {
    /// What holds of every run.
    pub closed spec fn wf(&self) -> bool {
        &&& self@.wf()
        &&& self.sums.over(self.measured@)
    }

    /// The state of a run is a proper one.
    pub proof fn lemma_wf(&self)
        requires
            self.wf(),
        ensures
            self@.wf(),
    {
    }

    /// Begins a run.
    pub fn start(cfg: Config) -> (h: Headless)
        ensures
            h.wf(),
            h@ == HeadlessState::start(cfg@),
    {
        let task = if cfg.write {
            Task::Write
        } else {
            Task::Collect
        };
        let h = Headless {
            cfg,
            task,
            files: Vec::new(),
            next: 0,
            measured: Vec::new(),
            sums: Sums::new(),
            report: None,
            failed: false,
        };
        proof {
            assert(h@.files == Seq::<Option<Seq<char>>>::empty());
            assert(h@.measured == Seq::<FileMeasurement>::empty());
            assert(sums_fit(Seq::<FileMeasurement>::empty()));
        }
        h
    }

    /// The step that is due.
    pub fn task(&self) -> (t: Task)
        ensures
            t == self@.task,
    {
        self.task
    }

    /// The settings of the run.
    pub fn config(&self) -> (cfg: &Config)
        ensures
            cfg@ == self@.settings,
    {
        &self.cfg
    }

    /// What the step that is due works on.
    pub fn target(&self) -> (s: &str)
        requires
            self.wf(),
        ensures
            s@ == self@.target(),
    {
        match self.task {
            Task::Profile => {
                assert(self@.files[self.next as int] == crate::cli::maybe(
                    self.files@[self.next as int],
                ));
                match &self.files[self.next] {
                    Some(path) => path.as_str(),
                    None => self.cfg.path.as_str(),
                }
            },
            Task::Sweep | Task::Random => {
                assert(self@.files[0] == crate::cli::maybe(self.files@[0]));
                match &self.files[0] {
                    Some(path) => path.as_str(),
                    None => self.cfg.path.as_str(),
                }
            },
            Task::Save(f) => match output_of(&self.cfg, f) {
                Some(path) => path.as_str(),
                None => self.cfg.path.as_str(),
            },
            _ => self.cfg.path.as_str(),
        }
    }

    /// The document to write, made `generated` seconds after the epoch.
    pub fn document(&self, generated: u64) -> (s: Option<String>)
        requires
            self.wf(),
        ensures
            s is Some == self@.task is Save,
            self@.task matches Task::Save(f) ==> s->0@ == f.document(
                self@.report->0,
                generated as nat,
            ),
    {
        match self.task {
            Task::Save(f) => match &self.report {
                Some(r) => Some(f.render(r, generated)),
                None => None,
            },
            _ => None,
        }
    }

    /// The exit code.
    pub fn exit_code(&self) -> (code: i32)
        ensures
            code == self@.code(),
    {
        if self.failed {
            1
        } else {
            0
        }
    }

    fn stop(&mut self, message: String) -> (v: Vec<Line>)
        requires
            old(self).wf(),
        ensures
            final(self).wf(),
            (Outcome { state: final(self)@, printed: lines(v@) }) == old(self)@.stopped(message@),
    {
        self.task = Task::Exit;
        self.failed = true;
        one_line(true, message)
    }

    fn set_report(&mut self, r: Report)
        requires
            old(self).wf(),
            r@.adds_up(),
            r@.swept_by_default(),
        ensures
            final(self).wf(),
            final(self)@ == old(self)@.reported(r@),
    {
        self.report = Some(r);
        self.task = save_from_of(&self.cfg, 0);
    }

    /// On to the next file from the `k`-th on, or to the report.
    fn go_on(&mut self, k: usize) -> (v: Vec<Line>)
        requires
            old(self).wf(),
            k <= old(self)@.files.len(),
            old(self)@.measured.len() <= k,
        ensures
            final(self).wf(),
            (Outcome { state: final(self)@, printed: lines(v@) }) == old(self)@.profiling(
                k as int,
            ),
    {
        let ghost was = self@;
        let mut n: usize = k;
        while n < self.files.len() && self.files[n].is_none()
            invariant
                k <= n <= self.files@.len(),
                was.files == paths(self.files@),
                first_text(was.files, n as int) == first_text(was.files, k as int),
            decreases self.files@.len() - n,
        {
            assert(was.files[n as int] == crate::cli::maybe(self.files@[n as int]));
            n = n + 1;
        }
        self.next = n;
        if n < self.files.len() {
            assert(was.files[n as int] == crate::cli::maybe(self.files@[n as int]));
            self.task = Task::Profile;
            return no_lines();
        }
        let mut files: Vec<FileMeasurement> = Vec::new();
        std::mem::swap(&mut self.measured, &mut files);
        self.sums = Sums::new();
        proof {
            assert(files@ == was.measured);
            assert(files@.len() <= usize::MAX) by {
                let n = files.len();
            }
            lemma_sorting_keeps_the_files(was.settings.sort, files@);
            lemma_sums_of_the_same_files(was.settings.sort.sorted(files@), files@);
            assert(sums_fit(Seq::<FileMeasurement>::empty()));
            assert(self.measured@ == Seq::<FileMeasurement>::empty());
        }
        self.task = Task::Exit;
        self.cfg.sort.sort(&mut files);
        let v = profile_lines_of(&files);
        let r = Report::Profile { root: self.cfg.path.as_str().to_owned(), files };
        self.set_report(r);
        v
    }

    /// Takes in the files that were found, by their paths; those not in UTF-8 have
    /// none.
    pub fn on_collected(&mut self, found: Result<Vec<Option<String>>, String>) -> (v: Vec<Line>)
        requires
            old(self).wf(),
            old(self)@.task == Task::Collect,
        ensures
            final(self).wf(),
            (Outcome { state: final(self)@, printed: lines(v@) }) == old(self)@.collected(
                match found {
                    Ok(files) => Ok(paths(files@)),
                    Err(e) => Err(e@),
                },
            ),
    {
        match found {
            Err(e) => {
                let line = error_line(e.as_str());
                self.stop(line)
            },
            Ok(files) => {
                let n = files.len();
                self.files = files;
                self.task = Task::Exit;
                if n == 0 {
                    let mut line = "error: no files matched under ".to_owned();
                    line.append(self.cfg.path.as_str());
                    return self.stop(line);
                }
                if self.cfg.random {
                    if n != 1 {
                        let line = single_file_line(
                            "error: --random requires a single file (got ",
                            n,
                        );
                        return self.stop(line);
                    }
                    self.task = Task::Random;
                    no_lines()
                } else if self.cfg.sweep {
                    if n != 1 {
                        let line = single_file_line(
                            "error: --sweep requires a single file (got ",
                            n,
                        );
                        return self.stop(line);
                    }
                    self.task = Task::Sweep;
                    no_lines()
                } else if self.cfg.bulk {
                    self.task = Task::Bulk;
                    one_line(true, bulk_start_of(n, self.cfg.threads))
                } else {
                    self.go_on(0)
                }
            },
        }
    }

    /// Whether the sums over the files still fit in 64 bits with one more.
    pub fn has_room_for(&self, m: &FileMeasurement) -> (r: bool)
        requires
            self.wf(),
        ensures
            r == sums_fit(self@.measured.push(*m)),
    {
        self.sums.have_room_for(m, Ghost(self.measured@))
    }

    /// Takes in the measurement of a file, or why there is none.
    pub fn on_profiled(&mut self, r: Result<FileMeasurement, String>) -> (v: Vec<Line>)
        requires
            old(self).wf(),
            old(self)@.task == Task::Profile,
            r is Ok ==> sums_fit(old(self)@.measured.push(r->Ok_0)),
        ensures
            final(self).wf(),
            (Outcome { state: final(self)@, printed: lines(v@) }) == old(self)@.profiled(
                match r {
                    Ok(m) => Ok(m),
                    Err(e) => Err(e@),
                },
            ),
    {
        let all = self.files.len();
        assert(self.next < all);
        let k = self.next + 1;
        match r {
            Ok(m) => {
                let ghost files = self.measured@;
                self.sums.add_file(&m, Ghost(files));
                self.measured.push(m);
                self.task = Task::Exit;
                self.next = k;
                self.go_on(k)
            },
            Err(e) => {
                let mut line = "skip ".to_owned();
                line.append(self.target());
                line.append(": ");
                line.append(e.as_str());
                let ghost text = line@;
                let mut more = self.go_on(k);
                let mut v = one_line(true, line);
                let ghost first = lines(v@);
                let ghost rest = lines(more@);
                v.append(&mut more);
                assert(lines(v@) == first + rest);
                v
            },
        }
    }

    /// Begins the sweep that is due, across the default block sizes.
    pub fn begin_sweep(&self) -> (r: Result<Sweep, MeasureError>)
        requires
            self.wf(),
            self@.task == Task::Sweep,
        ensures
            has_nul(self@.target()) ==> r == Err::<Sweep, MeasureError>(MeasureError::NulInPath),
            !has_nul(self@.target()) ==> r is Ok && r->Ok_0@ == SweepState::initial(
                self@.target(),
                DEFAULT_SWEEP_SIZES@,
                self@.settings.uncached,
            ) && r->Ok_0@.wf(),
    {
        default_sweep(self.target(), self.cfg.uncached)
    }

    /// Takes in the sweep that was due, or why there is none.
    pub fn on_swept(&mut self, r: Result<SweepResult, String>) -> (v: Vec<Line>)
        requires
            old(self).wf(),
            old(self)@.task == Task::Sweep,
            r is Ok ==> r->Ok_0.at_sizes(DEFAULT_SWEEP_SIZES@),
        ensures
            final(self).wf(),
            (Outcome { state: final(self)@, printed: lines(v@) }) == old(self)@.swept(
                match r {
                    Ok(s) => Ok(s),
                    Err(e) => Err(e@),
                },
            ),
    {
        match r {
            Ok(s) => {
                let v = sweep_lines_of(self.target(), &s);
                self.set_report(Report::Sweep { sweep: s });
                v
            },
            Err(e) => {
                let line = error_line(e.as_str());
                self.stop(line)
            },
        }
    }

    /// Takes in the bulk measurement.
    pub fn on_bulk(&mut self, bulk: BulkMeasurement) -> (v: Vec<Line>)
        requires
            old(self).wf(),
            old(self)@.task == Task::Bulk,
        ensures
            final(self).wf(),
            (Outcome { state: final(self)@, printed: lines(v@) }) == old(self)@.bulk_read(bulk),
    {
        let v = one_line(false, bulk_line_of(&bulk));
        let r = Report::Bulk { root: self.cfg.path.as_str().to_owned(), bulk };
        self.set_report(r);
        v
    }

    /// Takes in the write measurement, or why there is none.
    pub fn on_written(&mut self, r: Result<WriteMeasurement, String>) -> (v: Vec<Line>)
        requires
            old(self).wf(),
            old(self)@.task == Task::Write,
        ensures
            final(self).wf(),
            (Outcome { state: final(self)@, printed: lines(v@) }) == old(self)@.written(
                match r {
                    Ok(w) => Ok(w),
                    Err(e) => Err(e@),
                },
            ),
    {
        match r {
            Ok(write) => {
                let v = one_line(false, write_line_of(&write));
                self.set_report(Report::Write { write });
                v
            },
            Err(e) => {
                let line = error_line(e.as_str());
                self.stop(line)
            },
        }
    }

    /// Takes in the random-access measurement, or why there is none.
    pub fn on_random(&mut self, r: Result<RandomMeasurement, String>) -> (v: Vec<Line>)
        requires
            old(self).wf(),
            old(self)@.task == Task::Random,
        ensures
            final(self).wf(),
            (Outcome { state: final(self)@, printed: lines(v@) }) == old(self)@.random_read(
                match r {
                    Ok(m) => Ok(m),
                    Err(e) => Err(e@),
                },
            ),
    {
        match r {
            Ok(random) => {
                let v = one_line(false, random_line_of(&random));
                self.set_report(Report::Random { random });
                v
            },
            Err(e) => {
                let line = error_line(e.as_str());
                self.stop(line)
            },
        }
    }

    /// Takes in whether the report was written.
    pub fn on_saved(&mut self, r: Result<(), String>) -> (v: Vec<Line>)
        requires
            old(self).wf(),
            old(self)@.task is Save,
        ensures
            final(self).wf(),
            (Outcome { state: final(self)@, printed: lines(v@) }) == old(self)@.saved(
                old(self)@.task->Save_0,
                match r {
                    Ok(_) => Ok(()),
                    Err(e) => Err(e@),
                },
            ),
    {
        let place: u8 = match self.task {
            Task::Save(Format::Json) => 0,
            Task::Save(Format::Csv) => 1,
            Task::Save(Format::Html) => 2,
            _ => 3,
        };
        let line = match r {
            Ok(_) => {
                let mut line = "wrote ".to_owned();
                line.append(self.target());
                line
            },
            Err(e) => {
                let mut line = "error: failed to write ".to_owned();
                line.append(self.target());
                line.append(": ");
                line.append(e.as_str());
                self.failed = true;
                line
            },
        };
        self.task = save_from_of(&self.cfg, place + 1);
        one_line(true, line)
    }
}

// ── laws ────────────────────────────────────────────────────────────────────

proof fn lemma_format_at(f: Format)
    ensures
        format_at(format_place(f)) == f,
        0 <= format_place(f) < 4,
{
}

proof fn lemma_save_from(s: Settings, k: int, f: Format)
    requires
        0 <= k <= 4,
    ensures
        s.save_from(k) is Save || s.save_from(k) is Exit,
        s.save_from(k) matches Task::Save(g) ==> k <= format_place(g) && s.output(g) is Some,
        k <= format_place(f) && s.output(f) is Some ==> (s.save_from(k) matches Task::Save(g)
            && format_place(g) <= format_place(f)),
    decreases 4 - k,
{
    lemma_format_at(f);
    if k < 4 {
        if s.output(format_at(k)) is Some {
        } else {
            lemma_save_from(s, k + 1, f);
        }
    }
}

/// Every report that was asked for is written, each once and in order: a report
/// that is not written yet is still ahead, and one that was written never comes
/// again.
pub proof fn law_every_report_asked_for_is_written(
    st: HeadlessState,
    f: Format,
    r: Result<(), Seq<char>>,
    g: Format,
)
    requires
        st.task == Task::Save(f),
    ensures
        ({
            let next = st.saved(f, r).state.task;
            &&& next matches Task::Save(n) ==> format_place(f) < format_place(n)
                && st.settings.output(n) is Some
            &&& format_place(f) < format_place(g) && st.settings.output(g) is Some ==> (
            next matches Task::Save(n) && format_place(n) <= format_place(g))
        }),
{
    lemma_format_at(f);
    lemma_save_from(st.settings, format_place(f) + 1, g);
}

/// Once there is a report, the first that was asked for is written next.
pub proof fn law_a_finished_measurement_is_written(st: HeadlessState, r: ReportModel, g: Format)
    ensures
        st.settings.output(g) is Some ==> (st.reported(r).task matches Task::Save(n)
            && format_place(n) <= format_place(g)),
{
    lemma_format_at(g);
    lemma_save_from(st.settings, 0, g);
}

/// The exit code is zero only where nothing that ends a run and no writing of a
/// report has failed.
pub proof fn law_the_exit_code_tells_of_failures(
    st: HeadlessState,
    f: Format,
    r: Result<(), Seq<char>>,
    message: Seq<char>,
)
    ensures
        st.saved(f, r).state.code() == 0 <==> st.code() == 0 && r is Ok,
        st.stopped(message).state.code() == 1,
{
}

/// A file that cannot be read is passed over: the others are measured all the
/// same, and the exit code stays what it was.
pub proof fn law_an_unreadable_file_is_passed_over(st: HeadlessState, e: Seq<char>)
    requires
        st.wf(),
        st.task == Task::Profile,
    ensures
        st.profiled(Err(e)).state == st.profiling((st.next + 1) as int).state,
        st.profiled(Err(e)).state.code() == st.code(),
{
}

/// A run that sweeps reports a point for each of the default block sizes, from
/// 4 KiB to 16 MiB in this order, and nothing else.
pub proof fn law_a_run_sweeps_the_default_sizes(s: HeadlessState, i: int)
    requires
        s.wf(),
        s.report matches Some(ReportModel::Sweep { .. }),
        0 <= i < 7,
    ensures
        s.report->0->sweep.points@.len() == 7,
        s.report->0->sweep.points@[i].chunk_size == seq![
            4_096usize,
            16_384,
            65_536,
            262_144,
            1_048_576,
            4_194_304,
            16_777_216,
        ][i],
{
    assert(s.report->0->sweep.points@[i].chunk_size == block(DEFAULT_SWEEP_SIZES@[i]));
}

} // verus!
