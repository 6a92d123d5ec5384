//! The terminal UI as a state machine.
//!
//! Keys, typed answers, the file system and the measurements are outside. The UI
//! says what it needs next and takes it in; each step gives what is printed.

use vstd::prelude::*;

use super::batch::{batch_start, measured, Aggregate, Batch, BatchState};
use super::boot::{boot, boot_screen};
use super::menu::{
    draw_menu_items, menu_lines, menu_prompt, menu_prompt_of, press, pressed, redraw_menu_items,
    rewind, Key, MenuReply, UiState, MENU_ROWS,
};
use super::paint::{
    bare, bare_of, bold, bold_of, spans, tinted, tinted_of, Color, Span, SpanModel, NEON_CYAN,
    NEON_GREEN, NEON_PURPLE, NEON_RED, NEON_YELLOW,
};
use super::prompt::{
    answer_or, asks_uncached, base_question, base_question_of, filter_for, filter_question,
    filter_question_of, mode_question, mode_question_of, path_question, path_question_of,
    prompt_filter, prompt_path, prompt_threads, prompt_uncached, sort_question, sort_question_of,
    threads_for, threads_question, threads_question_of,
};
use super::screen::{
    answer_mark, answer_mark_of, bulk_report, divider, divider_of, file_report, heading,
    heading_of, print_bulk_report, print_report, print_sweep_report, render_scan_bar, scan_bar,
    scan_error, scan_error_of, sweep_report, title_line, title_line_of,
};
use super::script::{
    as_lines, blank_line, chain, no_prints, prints, put, put_bare, say, say_all, say_blank,
    type_sentence, typed, Print, PrintModel,
};
use crate::interrupt::bulk::BulkMeasurement;
use crate::interrupt::discovery::{
    in_utf8, joined, path_of, paths_of, text_path, Filter, FilterModel, Name, NameModel,
};
use crate::interrupt::hardware_interrupt::{FileMeasurement, Progress};
use crate::interrupt::session::{has_nul, MeasureError};
use crate::interrupt::sweep::{
    default_sweep, Sweep, SweepResult, SweepState, DEFAULT_SWEEP_SIZES,
};
use crate::report::{
    bucket_total, mode_of, mode_word, sort_key_named, sums_fit, total_nanos, total_read, Format,
    Report, ReportModel, SortKey,
};
use crate::text::{decimal, decimal_of};

verus! {

/// What is typed above the menu.
pub const INPUT_HEADER: &'static str = "AWAITING OPERATOR INPUT...";

/// What is typed before a scan.
pub const RUNNING_MESSAGE: &'static str = "DAEMON ONLINE.\nMONITORING SYSTEM PROCESSES...";

/// What is typed at the end.
pub const EXIT_MESSAGE: &'static str = "INITIATING SHUTDOWN...\nKILLING THE CONNECTION...";

/// What is typed after input that makes no sense.
pub const ERROR_MESSAGE: &'static str = "ERROR :: UNRECOGNIZED INPUT...\nABORTING SESSION...";

// ── stages ──────────────────────────────────────────────────────────────────

/// How far the UI is within a state.
#[derive(Clone, Copy, PartialEq, Eq, Structural, Debug)]
pub enum Stage {
    /// At the start of the state.
    Idle,
    /// Waiting for a key.
    Menu,
    /// Waiting for the answer to a question.
    Path,
    Filter,
    Sort,
    Threads,
    Mode,
    Base,
    /// Waiting to hear what the path is.
    Kind,
    /// Waiting for the files.
    Collect,
    /// Waiting for a measurement.
    Single,
    Batch,
    Bulk,
    Sweep,
    /// Waiting to hear whether the report was written.
    Save(Format),
    /// At the end.
    Over,
}

/// What the UI needs next.
#[derive(Clone, Copy, PartialEq, Eq, Structural, Debug)]
pub enum Need {
    /// To be updated.
    Tick,
    /// A key.
    Key,
    /// A typed line.
    Answer,
    /// What the target is.
    Kind,
    /// The files below the target.
    Collect,
    /// The measurement of the target.
    Measure,
    /// The measurement of all files.
    Bulk,
    /// A sweep over the target.
    Sweep,
    /// The report written to the target.
    Save,
    /// The end, with an exit code.
    Exit(i32),
}

/// The state of the UI, as a value.
pub struct UiModel {
    pub palette: Seq<Color>,
    /// The path that is profiled by default.
    pub exe: Seq<char>,
    /// The number of processors.
    pub processors: nat,
    pub state: UiState,
    pub stage: Stage,
    /// The highlighted row of the menu.
    pub selected: nat,
    /// The latest report.
    pub report: Option<ReportModel>,
    pub input: Seq<char>,
    pub filter: FilterModel,
    pub sort: SortKey,
    pub threads: nat,
    pub uncached: bool,
    /// The file of a scan of one file.
    pub single: Seq<char>,
    pub base: Seq<char>,
    pub batch: Option<BatchState>,
}

/// What a step leads to: the next state and what is printed.
pub struct UiOutcome {
    pub ui: UiModel,
    pub printed: Seq<PrintModel>,
}

/// A question with the mark behind which the answer is typed.
pub open spec fn asked(question: Seq<SpanModel>) -> Seq<PrintModel> {
    seq![PrintModel::Line(question), PrintModel::Text(answer_mark())]
}

/// The banner above a mode of the UI.
pub open spec fn mode_banner(text: Seq<char>, color: Color, palette: Seq<Color>) -> Seq<PrintModel> {
    seq![blank_line(), PrintModel::Line(divider(color))] + typed(text, 15, palette) + seq![
        PrintModel::Line(divider(color)),
        blank_line(),
    ]
}

/// The last words of the UI.
pub open spec fn last_words(text: Seq<char>, palette: Seq<Color>) -> Seq<PrintModel> {
    seq![blank_line(), PrintModel::Line(divider(NEON_RED))] + typed(text, 30, palette) + seq![
        PrintModel::Line(divider(NEON_RED)),
    ]
}

/// The menu with its prompt.
pub open spec fn menu_drawn(selected: int) -> Seq<PrintModel> {
    as_lines(menu_lines(selected)) + seq![PrintModel::Text(menu_prompt())]
}

/// A filter that keeps everything.
pub open spec fn everything() -> FilterModel {
    FilterModel { skip_hidden: false, extensions: Seq::empty() }
}

/// The line for a report that was written.
pub open spec fn wrote_line(path: Seq<char>) -> Seq<SpanModel> {
    seq![bare("  "@), bold("✓ WROTE"@, NEON_GREEN), bare(" "@), tinted(path, NEON_YELLOW)]
}

/// The line for a report that could not be written.
pub open spec fn not_written_line(path: Seq<char>, e: Seq<char>) -> Seq<SpanModel> {
    seq![
        bare("  "@),
        bold("✗ FAILED"@, NEON_RED),
        bare(" "@),
        tinted(path + ": "@ + e, NEON_RED),
    ]
}

/// What is printed once one file was scanned.
pub open spec fn single_done(m: FileMeasurement) -> Seq<PrintModel> {
    seq![
        PrintModel::Text(
            scan_bar(
                m.bytes_read as nat,
                if m.bytes_read > 1 {
                    m.bytes_read as nat
                } else {
                    1
                },
                m.wall_nanos as nat,
            ),
        ),
        PrintModel::Line(title_line("✓ SCAN COMPLETE"@, NEON_GREEN)),
        blank_line(),
    ] + as_lines(file_report(m))
}

impl UiModel {
    /// What the UI needs next.
    pub open spec fn need(self) -> Need {
        match self.stage {
            Stage::Idle => Need::Tick,
            Stage::Menu => Need::Key,
            Stage::Path | Stage::Filter | Stage::Sort | Stage::Threads | Stage::Mode | Stage::Base => Need::Answer,
            Stage::Kind => Need::Kind,
            Stage::Collect => Need::Collect,
            Stage::Single | Stage::Batch => Need::Measure,
            Stage::Bulk => Need::Bulk,
            Stage::Sweep => Need::Sweep,
            Stage::Save(_) => Need::Save,
            Stage::Over => Need::Exit(
                if self.state == UiState::Error {
                    1
                } else {
                    0
                },
            ),
        }
    }

    /// The path that is taken where none is typed.
    pub open spec fn default_path(self) -> Seq<char> {
        if self.state == UiState::Bulk {
            "."@
        } else {
            self.exe
        }
    }

    /// The file to which a report is written.
    pub open spec fn report_path(self, f: Format) -> Seq<char> {
        self.base + "."@ + f.ending()
    }

    /// What the step that is due works on.
    pub open spec fn target(self) -> Seq<char> {
        match self.stage {
            Stage::Single => self.single,
            Stage::Batch => self.batch->0.path(self.batch->0.next as int),
            Stage::Save(f) => self.report_path(f),
            _ => self.input,
        }
    }

    /// Back to the menu.
    pub open spec fn home(self) -> UiModel {
        UiModel { state: UiState::Input, stage: Stage::Idle, batch: None, ..self }
    }

    /// Back to the menu, with some lines.
    pub open spec fn back(self, printed: Seq<PrintModel>) -> UiOutcome {
        UiOutcome { ui: self.home(), printed }
    }

    /// At a question.
    pub open spec fn asking(self, stage: Stage, question: Seq<SpanModel>) -> UiOutcome {
        UiOutcome { ui: UiModel { stage, ..self }, printed: asked(question) }
    }

    /// After an update.
    pub open spec fn updated(self, banner: Seq<char>) -> UiOutcome {
        match self.state {
            UiState::Start => UiOutcome {
                ui: UiModel { state: UiState::Input, ..self },
                printed: boot(banner, self.palette),
            },
            UiState::Input => UiOutcome {
                ui: UiModel { stage: Stage::Menu, selected: 0, ..self },
                printed: seq![blank_line()] + typed(INPUT_HEADER@, 10, self.palette) + seq![
                    blank_line(),
                ] + menu_drawn(0),
            },
            UiState::Run => UiOutcome {
                ui: UiModel { stage: Stage::Path, ..self },
                printed: mode_banner(RUNNING_MESSAGE@, NEON_GREEN, self.palette) + asked(
                    path_question(self.exe),
                ),
            },
            UiState::Bulk => UiOutcome {
                ui: UiModel { stage: Stage::Path, ..self },
                printed: mode_banner("PARALLEL BULK-READ MODE..."@, NEON_CYAN, self.palette)
                    + asked(path_question("."@)),
            },
            UiState::Sweep => UiOutcome {
                ui: UiModel { stage: Stage::Path, ..self },
                printed: mode_banner("BLOCK-SIZE SWEEP..."@, NEON_PURPLE, self.palette) + asked(
                    path_question(self.exe),
                ),
            },
            UiState::Export => if self.report is Some {
                UiOutcome {
                    ui: UiModel { stage: Stage::Base, ..self },
                    printed: mode_banner("EXPORT LAST REPORT..."@, NEON_YELLOW, self.palette)
                        + asked(base_question()),
                }
            } else {
                self.back(
                    mode_banner("EXPORT LAST REPORT..."@, NEON_YELLOW, self.palette) + seq![
                        PrintModel::Line(scan_error("no report yet — run a scan first"@)),
                    ],
                )
            },
            UiState::Exit => UiOutcome {
                ui: UiModel { stage: Stage::Over, ..self },
                printed: last_words(EXIT_MESSAGE@, self.palette),
            },
            UiState::Error => UiOutcome {
                ui: UiModel { stage: Stage::Over, ..self },
                printed: last_words(ERROR_MESSAGE@, self.palette),
            },
        }
    }

    /// After a key.
    pub open spec fn keyed(self, key: Key, released: bool) -> UiOutcome {
        let (selected, reply) = pressed(self.selected, key, released);
        let ui = UiModel { selected, ..self };
        match reply {
            MenuReply::Stay => UiOutcome { ui, printed: Seq::empty() },
            MenuReply::Redraw => UiOutcome {
                ui,
                printed: seq![PrintModel::Text(seq![bare(rewind())])] + menu_drawn(
                    selected as int,
                ),
            },
            MenuReply::Chosen(state) => UiOutcome {
                ui: UiModel { state, stage: Stage::Idle, ..ui },
                printed: seq![blank_line()],
            },
        }
    }

    /// After an answer.
    pub open spec fn answered(self, line: Seq<char>) -> UiOutcome {
        match self.stage {
            Stage::Path => UiOutcome {
                ui: UiModel {
                    input: answer_or(line, self.default_path()),
                    stage: Stage::Kind,
                    ..self
                },
                printed: Seq::empty(),
            },
            Stage::Filter => {
                let ui = UiModel { filter: filter_for(line), ..self };
                if self.state == UiState::Bulk {
                    ui.asking(Stage::Threads, threads_question(self.processors))
                } else {
                    ui.asking(Stage::Sort, sort_question())
                }
            },
            Stage::Sort => UiModel { sort: sort_key_named(line), ..self }.asking(
                Stage::Mode,
                mode_question(),
            ),
            Stage::Threads => UiModel {
                threads: threads_for(line, self.processors),
                ..self
            }.asking(Stage::Mode, mode_question()),
            Stage::Mode => {
                let ui = UiModel { uncached: asks_uncached(line), ..self };
                if self.state == UiState::Sweep {
                    UiOutcome {
                        ui: UiModel { stage: Stage::Sweep, ..ui },
                        printed: seq![
                            blank_line(),
                            PrintModel::Line(
                                heading(
                                    "SWEEPING"@,
                                    NEON_PURPLE,
                                    "reading at 4 KiB → 16 MiB block sizes ("@ + mode_word(
                                        asks_uncached(line),
                                    ) + ")…"@,
                                ),
                            ),
                        ],
                    }
                } else {
                    UiOutcome {
                        ui: UiModel { stage: Stage::Collect, ..ui },
                        printed: seq![blank_line()],
                    }
                }
            },
            _ => UiOutcome {
                ui: UiModel {
                    base: answer_or(line, "profiler-report"@),
                    stage: Stage::Save(Format::Json),
                    ..self
                },
                printed: seq![blank_line()],
            },
        }
    }

    /// After the path turned out to be a directory, a file or neither.
    pub open spec fn told_kind(self, is_dir: bool, is_file: bool) -> UiOutcome {
        if self.state == UiState::Sweep {
            if is_file {
                self.asking(Stage::Mode, mode_question())
            } else {
                self.back(
                    seq![
                        blank_line(),
                        PrintModel::Line(scan_error("block-size sweep needs a single file"@)),
                    ],
                )
            }
        } else if is_dir {
            self.asking(Stage::Filter, filter_question())
        } else if self.state == UiState::Bulk {
            UiModel { filter: everything(), ..self }.asking(
                Stage::Threads,
                threads_question(self.processors),
            )
        } else {
            UiModel { filter: everything(), sort: SortKey::Throughput, ..self }.asking(
                Stage::Mode,
                mode_question(),
            )
        }
    }

    /// With a scan of many files that is done or at its next file.
    pub open spec fn scanning(self, b: BatchState, printed: Seq<PrintModel>) -> UiOutcome {
        if b.next < b.files.len() {
            UiOutcome { ui: UiModel { stage: Stage::Batch, batch: Some(b), ..self }, printed }
        } else {
            let files = measured(b.table());
            UiOutcome {
                ui: UiModel {
                    report: if files.len() > 0 {
                        Some(ReportModel::Profile { root: self.input, files })
                    } else {
                        self.report
                    },
                    ..self.home()
                },
                printed: printed + b.closing(),
            }
        }
    }

    /// The scan of many files at its start.
    pub open spec fn new_batch(self, files: Seq<Seq<NameModel>>) -> BatchState {
        BatchState {
            root: self.input,
            files,
            sort: self.sort,
            next: 0,
            agg: Aggregate::nothing(),
            rows: Seq::empty(),
        }
    }

    /// After the files were looked for.
    pub open spec fn collected(self, found: Result<Seq<Seq<NameModel>>, Seq<char>>) -> UiOutcome {
        match found {
            Err(e) => self.back(seq![PrintModel::Line(scan_error(e))]),
            Ok(files) => if files.len() == 0 {
                self.back(
                    seq![PrintModel::Line(scan_error("no files matched under that path"@))],
                )
            } else if self.state == UiState::Bulk {
                UiOutcome {
                    ui: UiModel { stage: Stage::Bulk, ..self },
                    printed: seq![
                        PrintModel::Line(
                            heading(
                                "BULK READ"@,
                                NEON_CYAN,
                                decimal(files.len()) + " files · "@ + decimal(self.threads)
                                    + " threads · working…"@,
                            ),
                        ),
                    ],
                }
            } else if files.len() == 1 {
                UiOutcome {
                    ui: UiModel {
                        stage: Stage::Single,
                        single: if in_utf8(files[0]) {
                            joined(self.input, files[0])
                        } else {
                            self.input
                        },
                        ..self
                    },
                    printed: seq![PrintModel::Text(scan_bar(0, 1, 0))],
                }
            } else {
                let b = self.new_batch(files);
                self.scanning(
                    b.settled(),
                    batch_start(self.input, files.len(), self.sort) + b.settling(),
                )
            },
        }
    }

    /// After a measurement.
    pub open spec fn measured(self, r: Result<FileMeasurement, Seq<char>>) -> UiOutcome {
        if self.stage == Stage::Batch {
            let b = self.batch->0;
            self.scanning(b.after(r), b.printed(r))
        } else {
            match r {
                Ok(m) => UiOutcome {
                    ui: UiModel {
                        report: Some(
                            ReportModel::Profile { root: self.input, files: seq![m] },
                        ),
                        ..self.home()
                    },
                    printed: single_done(m),
                },
                Err(e) => self.back(
                    seq![
                        PrintModel::Text(seq![bare("\r\u{1b}[K"@)]),
                        PrintModel::Line(scan_error(e)),
                    ],
                ),
            }
        }
    }

    /// After a bulk read.
    pub open spec fn bulk_read(self, m: BulkMeasurement) -> UiOutcome {
        UiOutcome {
            ui: UiModel {
                report: Some(ReportModel::Bulk { root: self.input, bulk: m }),
                ..self.home()
            },
            printed: seq![
                PrintModel::Line(title_line("✓ BULK COMPLETE"@, NEON_GREEN)),
                blank_line(),
            ] + as_lines(bulk_report(m)),
        }
    }

    /// After a sweep.
    pub open spec fn swept(self, r: Result<SweepResult, Seq<char>>) -> UiOutcome {
        match r {
            Ok(s) => UiOutcome {
                ui: UiModel { report: Some(ReportModel::Sweep { sweep: s }), ..self.home() },
                printed: seq![
                    PrintModel::Line(title_line("✓ SWEEP COMPLETE"@, NEON_GREEN)),
                    blank_line(),
                ] + as_lines(sweep_report(s)),
            },
            Err(e) => self.back(seq![PrintModel::Line(scan_error(e))]),
        }
    }

    /// After the report was written in a format, or could not be.
    pub open spec fn saved(self, f: Format, r: Result<(), Seq<char>>) -> UiOutcome {
        UiOutcome {
            ui: match f {
                Format::Json => UiModel { stage: Stage::Save(Format::Csv), ..self },
                Format::Csv => UiModel { stage: Stage::Save(Format::Html), ..self },
                Format::Html => UiModel { stage: Stage::Save(Format::Markdown), ..self },
                Format::Markdown => self.home(),
            },
            printed: seq![
                PrintModel::Line(
                    match r {
                        Ok(_) => wrote_line(self.report_path(f)),
                        Err(e) => not_written_line(self.report_path(f), e),
                    },
                ),
            ],
        }
    }

    /// What holds of every state of the UI.
    pub open spec fn wf(self) -> bool {
        &&& self.palette.len() > 0
        &&& self.selected < MENU_ROWS
        &&& self.report is Some ==> self.report->0.adds_up() && self.report->0.swept_by_default()
        &&& match self.stage {
            Stage::Idle => self.batch is None,
            Stage::Menu => self.state == UiState::Input && self.batch is None,
            Stage::Path | Stage::Kind | Stage::Mode => (self.state == UiState::Run || self.state
                == UiState::Bulk || self.state == UiState::Sweep) && self.batch is None,
            Stage::Filter | Stage::Collect => (self.state == UiState::Run || self.state
                == UiState::Bulk) && self.batch is None,
            Stage::Sort | Stage::Single => self.state == UiState::Run && self.batch is None,
            Stage::Threads | Stage::Bulk => self.state == UiState::Bulk && self.batch is None,
            Stage::Sweep => self.state == UiState::Sweep && self.batch is None,
            Stage::Base | Stage::Save(_) => self.state == UiState::Export && self.report is Some
                && self.batch is None,
            Stage::Batch => self.state == UiState::Run && self.batch is Some && self.batch->0.wf()
                && self.batch->0.next < self.batch->0.files.len(),
            Stage::Over => (self.state == UiState::Exit || self.state == UiState::Error)
                && self.batch is None,
        }
    }
}

// ── the machine ─────────────────────────────────────────────────────────────

/// The terminal UI.
pub struct Ui {
    palette: Vec<Color>,
    exe: String,
    processors: usize,
    current_state: UiState,
    stage: Stage,
    selected_index: usize,
    last_report: Option<Report>,
    input: String,
    filter: Filter,
    sort: SortKey,
    threads: usize,
    uncached: bool,
    single: String,
    base: String,
    batch: Option<Batch>,
}

impl View for Ui {
    type V = UiModel;

    closed spec fn view(&self) -> UiModel {
        UiModel {
            palette: self.palette@,
            exe: self.exe@,
            processors: self.processors as nat,
            state: self.current_state,
            stage: self.stage,
            selected: self.selected_index as nat,
            report: match self.last_report {
                Some(r) => Some(r@),
                None => None,
            },
            input: self.input@,
            filter: self.filter@,
            sort: self.sort,
            threads: self.threads as nat,
            uncached: self.uncached,
            single: self.single@,
            base: self.base@,
            batch: match self.batch {
                Some(b) => Some(b@),
                None => None,
            },
        }
    }
}

fn ask(v: &mut Vec<Print>, question: Vec<Span>)
    ensures
        prints(final(v)@) == prints(old(v)@) + asked(spans(question@)),
{
    let ghost before = prints(v@);
    say(v, question);
    put(v, answer_mark_of());
    assert(prints(v@) == before + asked(spans(question@)));
}

fn asked_of(question: Vec<Span>) -> (v: Vec<Print>)
    ensures
        prints(v@) == asked(spans(question@)),
{
    let mut v = no_prints();
    ask(&mut v, question);
    assert(Seq::<PrintModel>::empty() + asked(spans(question@)) == asked(spans(question@)));
    v
}

fn mode_banner_of(text: &str, color: Color, palette: &Vec<Color>) -> (v: Vec<Print>)
    requires
        palette@.len() > 0,
    ensures
        prints(v@) == mode_banner(text@, color, palette@),
{
    let mut v = no_prints();
    say_blank(&mut v);
    say(&mut v, divider_of(color));
    assert(prints(v@) == seq![blank_line(), PrintModel::Line(divider(color))]);
    type_sentence(&mut v, text, 15, palette);
    let ghost before = prints(v@);
    say(&mut v, divider_of(color));
    say_blank(&mut v);
    assert(prints(v@) == before + seq![PrintModel::Line(divider(color)), blank_line()]);
    v
}

fn last_words_of(text: &str, palette: &Vec<Color>) -> (v: Vec<Print>)
    requires
        palette@.len() > 0,
    ensures
        prints(v@) == last_words(text@, palette@),
{
    let mut v = no_prints();
    say_blank(&mut v);
    say(&mut v, divider_of(NEON_RED));
    assert(prints(v@) == seq![blank_line(), PrintModel::Line(divider(NEON_RED))]);
    type_sentence(&mut v, text, 30, palette);
    let ghost before = prints(v@);
    say(&mut v, divider_of(NEON_RED));
    assert(prints(v@) == before + seq![PrintModel::Line(divider(NEON_RED))]);
    v
}

fn menu_drawn_of(selected: usize) -> (v: Vec<Print>)
    ensures
        prints(v@) == menu_drawn(selected as int),
{
    let mut v = no_prints();
    say_all(&mut v, draw_menu_items(selected));
    assert(prints(v@) == as_lines(menu_lines(selected as int)));
    put(&mut v, menu_prompt_of());
    assert(prints(v@) == menu_drawn(selected as int));
    v
}

fn one_line(line: Vec<Span>) -> (v: Vec<Print>)
    ensures
        prints(v@) == seq![PrintModel::Line(spans(line@))],
{
    let mut v = no_prints();
    say(&mut v, line);
    assert(prints(v@) == seq![PrintModel::Line(spans(line@))]);
    v
}

fn one_blank() -> (v: Vec<Print>)
    ensures
        prints(v@) == seq![blank_line()],
{
    let mut v = no_prints();
    say_blank(&mut v);
    assert(prints(v@) == seq![blank_line()]);
    v
}

fn single_done_of(m: &FileMeasurement) -> (v: Vec<Print>)
    ensures
        prints(v@) == single_done(*m),
{
    let size: u64 = if m.bytes_read > 1 {
        m.bytes_read
    } else {
        1
    };
    let mut v = no_prints();
    put(&mut v, render_scan_bar(m.bytes_read, size, m.wall_nanos));
    say(&mut v, title_line_of("✓ SCAN COMPLETE", NEON_GREEN));
    say_blank(&mut v);
    assert(prints(v@) == seq![
        PrintModel::Text(scan_bar(m.bytes_read as nat, size as nat, m.wall_nanos as nat)),
        PrintModel::Line(title_line("✓ SCAN COMPLETE"@, NEON_GREEN)),
        blank_line(),
    ]);
    say_all(&mut v, print_report(m));
    v
}

proof fn lemma_one_file_fits(m: FileMeasurement)
    ensures
        sums_fit(seq![m]),
{
    let files = seq![m];
    let none = Seq::<FileMeasurement>::empty();
    assert(files.drop_last() == none);
    assert(total_read(none) == 0 && total_nanos(none) == 0);
    assert forall|b: int| 0 <= b < crate::interrupt::hardware_interrupt::LATENCY_BUCKETS implies
        #[trigger] bucket_total(files, b) <= u64::MAX by {
        assert(bucket_total(none, b) == 0);
    }
}

impl Ui {
    /// What holds of the UI at every time.
    pub closed spec fn wf(&self) -> bool {
        &&& self@.wf()
        &&& self.batch matches Some(b) ==> b.wf()
    }

    /// The UI says nothing of itself that its state does not.
    pub proof fn lemma_wf(&self)
        requires
            self.wf(),
        ensures
            self@.wf(),
    {
    }

    /// A UI before its start. `exe` is the path that is profiled by default.
    pub fn new(color_palette: Vec<Color>, exe: Option<String>, processors: usize) -> (ui: Ui)
        requires
            color_palette@.len() > 0,
        ensures
            ui.wf(),
            ui@.palette == color_palette@,
            ui@.exe == match exe {
                Some(path) => path@,
                None => "Cargo.toml"@,
            },
            ui@.processors == processors,
            ui@.state == UiState::Start,
            ui@.stage == Stage::Idle,
            ui@.selected == 0,
            ui@.report is None,
    {
        let exe = match exe {
            Some(path) => path,
            None => "Cargo.toml".to_owned(),
        };
        Ui {
            palette: color_palette,
            exe,
            processors,
            current_state: UiState::Start,
            stage: Stage::Idle,
            selected_index: 0,
            last_report: None,
            input: String::new(),
            filter: Filter::default(),
            sort: SortKey::Throughput,
            threads: processors,
            uncached: false,
            single: String::new(),
            base: String::new(),
            batch: None,
        }
    }

    /// What the UI needs next.
    pub fn need(&self) -> (n: Need)
        ensures
            n == self@.need(),
    {
        match self.stage {
            Stage::Idle => Need::Tick,
            Stage::Menu => Need::Key,
            Stage::Path | Stage::Filter | Stage::Sort | Stage::Threads | Stage::Mode | Stage::Base => Need::Answer,
            Stage::Kind => Need::Kind,
            Stage::Collect => Need::Collect,
            Stage::Single | Stage::Batch => Need::Measure,
            Stage::Bulk => Need::Bulk,
            Stage::Sweep => Need::Sweep,
            Stage::Save(_) => Need::Save,
            Stage::Over => Need::Exit(
                if self.current_state == UiState::Error {
                    1
                } else {
                    0
                },
            ),
        }
    }

    /// The filter for the files.
    pub fn filter(&self) -> (f: &Filter)
        ensures
            f@ == self@.filter,
    {
        &self.filter
    }

    /// The number of worker threads.
    pub fn threads(&self) -> (n: usize)
        ensures
            n == self@.threads,
    {
        self.threads
    }

    /// Whether the page cache is bypassed.
    pub fn uncached(&self) -> (r: bool)
        ensures
            r == self@.uncached,
    {
        self.uncached
    }

    fn report_path_of(&self, f: Format) -> (s: String)
        ensures
            s@ == self@.report_path(f),
    {
        let mut s = self.base.as_str().to_owned();
        s.append(".");
        s.append(f.extension());
        s
    }

    /// What the step that is due works on.
    pub fn target(&self) -> (s: String)
        requires
            self.wf(),
        ensures
            s@ == self@.target(),
    {
        match self.stage {
            Stage::Single => self.single.as_str().to_owned(),
            Stage::Batch => match &self.batch {
                Some(b) => match b.due() {
                    Some(path) => path,
                    None => self.input.as_str().to_owned(),
                },
                None => self.input.as_str().to_owned(),
            },
            Stage::Save(f) => self.report_path_of(f),
            _ => self.input.as_str().to_owned(),
        }
    }

    /// The document to write, made `generated` seconds after the epoch.
    pub fn document(&self, generated: u64) -> (s: Option<String>)
        requires
            self.wf(),
        ensures
            s is Some == self@.stage is Save,
            self@.stage matches Stage::Save(f) ==> s->0@ == f.document(
                self@.report->0,
                generated as nat,
            ),
    {
        match self.stage {
            Stage::Save(f) => match &self.last_report {
                Some(r) => Some(f.render(r, generated)),
                None => None,
            },
            _ => None,
        }
    }

    /// The bar for a measurement that is under way.
    pub fn progress(&self, p: Progress) -> (v: Vec<Span>)
        requires
            self.wf(),
            self@.stage == Stage::Single || self@.stage == Stage::Batch,
        ensures
            self@.stage == Stage::Single ==> spans(v@) == scan_bar(
                p.bytes_read as nat,
                p.size_bytes as nat,
                p.elapsed_nanos as nat,
            ),
            self@.stage == Stage::Batch ==> spans(v@) == super::screen::batch_bar(
                self@.batch->0.next + 1,
                self@.batch->0.files.len(),
                self@.batch->0.name(self@.batch->0.next as int),
                p.bytes_read as nat,
                p.size_bytes as nat,
                p.elapsed_nanos as nat,
            ),
    {
        match &self.batch {
            Some(b) => b.bar(p.bytes_read, p.size_bytes, p.elapsed_nanos),
            None => render_scan_bar(p.bytes_read, p.size_bytes, p.elapsed_nanos),
        }
    }

    fn go_home(&mut self)
        requires
            old(self)@.palette.len() > 0,
            old(self)@.selected < MENU_ROWS,
            old(self)@.report is Some ==> old(self)@.report->0.adds_up()
                && old(self)@.report->0.swept_by_default(),
        ensures
            final(self).wf(),
            final(self)@ == old(self)@.home(),
    {
        self.current_state = UiState::Input;
        self.stage = Stage::Idle;
        self.batch = None;
    }

    /// One tick: prints what a state begins with and goes to what it needs.
    pub fn update(&mut self, banner: &str) -> (v: Vec<Print>)
        requires
            old(self).wf(),
            old(self)@.stage == Stage::Idle,
        ensures
            final(self).wf(),
            (UiOutcome { ui: final(self)@, printed: prints(v@) }) == old(self)@.updated(banner@),
    {
        match self.current_state {
            UiState::Start => {
                let mut v = no_prints();
                boot_screen(&mut v, banner, &self.palette);
                assert(prints(v@) == boot(banner@, self.palette@));
                self.current_state = UiState::Input;
                v
            },
            UiState::Input => {
                let mut v = one_blank();
                type_sentence(&mut v, INPUT_HEADER, 10, &self.palette);
                let ghost before = prints(v@);
                say_blank(&mut v);
                assert(prints(v@) == before + seq![blank_line()]);
                chain(&mut v, menu_drawn_of(0));
                self.selected_index = 0;
                self.stage = Stage::Menu;
                v
            },
            UiState::Run => {
                let mut v = mode_banner_of(RUNNING_MESSAGE, NEON_GREEN, &self.palette);
                ask(&mut v, path_question_of(self.exe.as_str()));
                self.stage = Stage::Path;
                v
            },
            UiState::Bulk => {
                let mut v = mode_banner_of("PARALLEL BULK-READ MODE...", NEON_CYAN, &self.palette);
                ask(&mut v, path_question_of("."));
                self.stage = Stage::Path;
                v
            },
            UiState::Sweep => {
                let mut v = mode_banner_of("BLOCK-SIZE SWEEP...", NEON_PURPLE, &self.palette);
                ask(&mut v, path_question_of(self.exe.as_str()));
                self.stage = Stage::Path;
                v
            },
            UiState::Export => {
                let mut v = mode_banner_of("EXPORT LAST REPORT...", NEON_YELLOW, &self.palette);
                if self.last_report.is_some() {
                    ask(&mut v, base_question_of());
                    self.stage = Stage::Base;
                } else {
                    chain(&mut v, one_line(scan_error_of("no report yet — run a scan first")));
                    self.go_home();
                }
                v
            },
            UiState::Exit => {
                self.stage = Stage::Over;
                last_words_of(EXIT_MESSAGE, &self.palette)
            },
            UiState::Error => {
                self.stage = Stage::Over;
                last_words_of(ERROR_MESSAGE, &self.palette)
            },
        }
    }

    /// Takes in a key. `released` says that it went up rather than down.
    pub fn on_key(&mut self, key: Key, released: bool) -> (v: Vec<Print>)
        requires
            old(self).wf(),
            old(self)@.stage == Stage::Menu,
        ensures
            final(self).wf(),
            (UiOutcome { ui: final(self)@, printed: prints(v@) }) == old(self)@.keyed(
                key,
                released,
            ),
    {
        let (selected, reply) = press(self.selected_index, key, released);
        self.selected_index = selected;
        match reply {
            MenuReply::Stay => no_prints(),
            MenuReply::Redraw => {
                let mut v = no_prints();
                put_bare(&mut v, redraw_menu_items().as_str());
                assert(prints(v@) == seq![PrintModel::Text(seq![bare(rewind())])]);
                chain(&mut v, menu_drawn_of(selected));
                v
            },
            MenuReply::Chosen(state) => {
                self.current_state = state;
                self.stage = Stage::Idle;
                one_blank()
            },
        }
    }

    /// Takes in the answer to a question.
    pub fn on_answer(&mut self, line: &str) -> (v: Vec<Print>)
        requires
            old(self).wf(),
            old(self)@.need() == Need::Answer,
        ensures
            final(self).wf(),
            (UiOutcome { ui: final(self)@, printed: prints(v@) }) == old(self)@.answered(line@),
    {
        match self.stage {
            Stage::Path => {
                let path = if self.current_state == UiState::Bulk {
                    prompt_path(line, ".")
                } else {
                    prompt_path(line, self.exe.as_str())
                };
                self.input = path;
                self.stage = Stage::Kind;
                no_prints()
            },
            Stage::Filter => {
                self.filter = prompt_filter(line);
                if self.current_state == UiState::Bulk {
                    self.stage = Stage::Threads;
                    asked_of(threads_question_of(self.processors))
                } else {
                    self.stage = Stage::Sort;
                    asked_of(sort_question_of())
                }
            },
            Stage::Sort => {
                self.sort = SortKey::parse(line);
                self.stage = Stage::Mode;
                asked_of(mode_question_of())
            },
            Stage::Threads => {
                self.threads = prompt_threads(line, self.processors);
                self.stage = Stage::Mode;
                asked_of(mode_question_of())
            },
            Stage::Mode => {
                let uncached = prompt_uncached(line);
                self.uncached = uncached;
                let mut v = one_blank();
                if self.current_state == UiState::Sweep {
                    let mut remark = "reading at 4 KiB → 16 MiB block sizes (".to_owned();
                    remark.append(mode_of(uncached));
                    remark.append(")…");
                    say(&mut v, heading_of("SWEEPING", NEON_PURPLE, remark.as_str()));
                    self.stage = Stage::Sweep;
                    assert(prints(v@) == seq![
                        blank_line(),
                        PrintModel::Line(heading("SWEEPING"@, NEON_PURPLE, remark@)),
                    ]);
                } else {
                    self.stage = Stage::Collect;
                }
                v
            },
            _ => {
                self.base = prompt_path(line, "profiler-report");
                self.stage = Stage::Save(Format::Json);
                one_blank()
            },
        }
    }

    /// Takes in what the path is.
    pub fn on_kind(&mut self, is_dir: bool, is_file: bool) -> (v: Vec<Print>)
        requires
            old(self).wf(),
            old(self)@.stage == Stage::Kind,
        ensures
            final(self).wf(),
            (UiOutcome { ui: final(self)@, printed: prints(v@) }) == old(self)@.told_kind(
                is_dir,
                is_file,
            ),
    {
        if self.current_state == UiState::Sweep {
            if is_file {
                self.stage = Stage::Mode;
                asked_of(mode_question_of())
            } else {
                let mut v = one_blank();
                say(&mut v, scan_error_of("block-size sweep needs a single file"));
                assert(prints(v@) == seq![
                    blank_line(),
                    PrintModel::Line(scan_error("block-size sweep needs a single file"@)),
                ]);
                self.go_home();
                v
            }
        } else if is_dir {
            self.stage = Stage::Filter;
            asked_of(filter_question_of())
        } else if self.current_state == UiState::Bulk {
            self.filter = Filter::default();
            self.stage = Stage::Threads;
            asked_of(threads_question_of(self.processors))
        } else {
            self.filter = Filter::default();
            self.sort = SortKey::Throughput;
            self.stage = Stage::Mode;
            asked_of(mode_question_of())
        }
    }

    /// Goes on with a scan of many files, or ends it.
    fn go_on(&mut self, b: Batch, printed: Vec<Print>) -> (v: Vec<Print>)
        requires
            b.wf(),
            old(self)@.palette.len() > 0,
            old(self)@.selected < MENU_ROWS,
            old(self)@.report is Some ==> old(self)@.report->0.adds_up()
                && old(self)@.report->0.swept_by_default(),
            old(self)@.state == UiState::Run,
        ensures
            final(self).wf(),
            (UiOutcome { ui: final(self)@, printed: prints(v@) }) == old(self)@.scanning(
                b@,
                prints(printed@),
            ),
    {
        proof {
            b.lemma_wf();
        }
        let mut v = printed;
        if b.due().is_some() {
            self.stage = Stage::Batch;
            self.batch = Some(b);
            return v;
        }
        let (closing, files) = b.finish();
        chain(&mut v, closing);
        if files.len() > 0 {
            self.last_report = Some(
                Report::Profile { root: self.input.as_str().to_owned(), files },
            );
        }
        self.go_home();
        v
    }

    /// Takes in the files that were found, or why there are none.
    pub fn on_collected(&mut self, found: Result<Vec<Vec<Name>>, String>) -> (v: Vec<Print>)
        requires
            old(self).wf(),
            old(self)@.stage == Stage::Collect,
        ensures
            final(self).wf(),
            (UiOutcome { ui: final(self)@, printed: prints(v@) }) == old(self)@.collected(
                match found {
                    Ok(files) => Ok(paths_of(files@)),
                    Err(e) => Err(e@),
                },
            ),
    {
        match found {
            Err(e) => {
                self.go_home();
                one_line(scan_error_of(e.as_str()))
            },
            Ok(files) => {
                let n = files.len();
                if n == 0 {
                    self.go_home();
                    return one_line(scan_error_of("no files matched under that path"));
                }
                if self.current_state == UiState::Bulk {
                    let mut remark = decimal_of(n as u128);
                    remark.append(" files · ");
                    remark.append(decimal_of(self.threads as u128).as_str());
                    remark.append(" threads · working…");
                    self.stage = Stage::Bulk;
                    return one_line(heading_of("BULK READ", NEON_CYAN, remark.as_str()));
                }
                if n == 1 {
                    assert(paths_of(files@)[0] == path_of(files@[0]@));
                    self.single = match text_path(self.input.as_str(), &files[0]) {
                        Some(path) => path,
                        None => self.input.as_str().to_owned(),
                    };
                    self.stage = Stage::Single;
                    let mut v = no_prints();
                    put(&mut v, render_scan_bar(0, 1, 0));
                    assert(prints(v@) == seq![PrintModel::Text(scan_bar(0, 1, 0))]);
                    return v;
                }
                let (b, v) = Batch::start(self.input.as_str(), files, self.sort);
                self.go_on(b, v)
            },
        }
    }

    /// Whether there is room for a measurement.
    pub open spec fn room(&self, m: FileMeasurement) -> bool {
        self@.batch matches Some(b) ==> b.agg.has_room(m) && sums_fit(measured(b.rows).push(m))
    }

    /// Whether there is room for a measurement.
    pub fn has_room_for(&self, m: &FileMeasurement) -> (r: bool)
        requires
            self.wf(),
        ensures
            r == self.room(*m),
    {
        match &self.batch {
            Some(b) => b.has_room_for(m),
            None => true,
        }
    }

    /// Takes in a measurement, or why there is none.
    pub fn on_measured(&mut self, r: Result<FileMeasurement, String>) -> (v: Vec<Print>)
        requires
            old(self).wf(),
            old(self)@.stage == Stage::Single || old(self)@.stage == Stage::Batch,
            r is Ok ==> old(self).room(r->Ok_0),
        ensures
            final(self).wf(),
            (UiOutcome { ui: final(self)@, printed: prints(v@) }) == old(self)@.measured(
                match r {
                    Ok(m) => Ok(m),
                    Err(e) => Err(e@),
                },
            ),
    {
        let mut taken: Option<Batch> = None;
        std::mem::swap(&mut self.batch, &mut taken);
        match taken {
            Some(mut b) => {
                let v = b.on_measured(r);
                self.go_on(b, v)
            },
            None => match r {
                Ok(m) => {
                    let v = single_done_of(&m);
                    let mut files: Vec<FileMeasurement> = Vec::new();
                    files.push(m);
                    proof {
                        lemma_one_file_fits(m);
                        assert(files@ == seq![m]);
                    }
                    self.last_report = Some(
                        Report::Profile { root: self.input.as_str().to_owned(), files },
                    );
                    self.go_home();
                    v
                },
                Err(e) => {
                    let mut v = no_prints();
                    put_bare(&mut v, "\r\u{1b}[K");
                    say(&mut v, scan_error_of(e.as_str()));
                    assert(prints(v@) == seq![
                        PrintModel::Text(seq![bare("\r\u{1b}[K"@)]),
                        PrintModel::Line(scan_error(e@)),
                    ]);
                    self.go_home();
                    v
                },
            },
        }
    }

    /// Takes in the measurement of a bulk read.
    pub fn on_bulk(&mut self, m: BulkMeasurement) -> (v: Vec<Print>)
        requires
            old(self).wf(),
            old(self)@.stage == Stage::Bulk,
        ensures
            final(self).wf(),
            (UiOutcome { ui: final(self)@, printed: prints(v@) }) == old(self)@.bulk_read(m),
    {
        let mut v = one_line(title_line_of("✓ BULK COMPLETE", NEON_GREEN));
        say_blank(&mut v);
        assert(prints(v@) == seq![
            PrintModel::Line(title_line("✓ BULK COMPLETE"@, NEON_GREEN)),
            blank_line(),
        ]);
        say_all(&mut v, print_bulk_report(&m));
        self.last_report = Some(Report::Bulk { root: self.input.as_str().to_owned(), bulk: m });
        self.go_home();
        v
    }

    /// Begins the sweep that is due, across the default block sizes.
    pub fn begin_sweep(&self) -> (r: Result<Sweep, MeasureError>)
        requires
            self.wf(),
            self@.stage == Stage::Sweep,
        ensures
            has_nul(self@.target()) ==> r == Err::<Sweep, MeasureError>(MeasureError::NulInPath),
            !has_nul(self@.target()) ==> r is Ok && r->Ok_0@ == SweepState::initial(
                self@.target(),
                DEFAULT_SWEEP_SIZES@,
                self@.uncached,
            ) && r->Ok_0@.wf(),
    {
        default_sweep(self.target().as_str(), self.uncached)
    }

    /// Takes in the sweep that was due, or why there is none.
    pub fn on_swept(&mut self, r: Result<SweepResult, String>) -> (v: Vec<Print>)
        requires
            old(self).wf(),
            old(self)@.stage == Stage::Sweep,
            r is Ok ==> r->Ok_0.at_sizes(DEFAULT_SWEEP_SIZES@),
        ensures
            final(self).wf(),
            (UiOutcome { ui: final(self)@, printed: prints(v@) }) == old(self)@.swept(
                match r {
                    Ok(s) => Ok(s),
                    Err(e) => Err(e@),
                },
            ),
    {
        match r {
            Ok(s) => {
                let mut v = one_line(title_line_of("✓ SWEEP COMPLETE", NEON_GREEN));
                say_blank(&mut v);
                assert(prints(v@) == seq![
                    PrintModel::Line(title_line("✓ SWEEP COMPLETE"@, NEON_GREEN)),
                    blank_line(),
                ]);
                say_all(&mut v, print_sweep_report(&s));
                self.last_report = Some(Report::Sweep { sweep: s });
                self.go_home();
                v
            },
            Err(e) => {
                self.go_home();
                one_line(scan_error_of(e.as_str()))
            },
        }
    }

    /// Takes in whether the report was written.
    pub fn on_saved(&mut self, r: Result<(), String>) -> (v: Vec<Print>)
        requires
            old(self).wf(),
            old(self)@.stage is Save,
        ensures
            final(self).wf(),
            (UiOutcome { ui: final(self)@, printed: prints(v@) }) == old(self)@.saved(
                old(self)@.stage->Save_0,
                match r {
                    Ok(_) => Ok(()),
                    Err(e) => Err(e@),
                },
            ),
    {
        let f = match self.stage {
            Stage::Save(f) => f,
            _ => Format::Json,
        };
        let path = self.report_path_of(f);
        let mut line: Vec<Span> = Vec::new();
        line.push(bare_of("  "));
        match r {
            Ok(_) => {
                line.push(bold_of("✓ WROTE", NEON_GREEN));
                line.push(bare_of(" "));
                line.push(tinted_of(path.as_str(), NEON_YELLOW));
                assert(spans(line@) == wrote_line(path@));
            },
            Err(e) => {
                let mut t = path.as_str().to_owned();
                t.append(": ");
                t.append(e.as_str());
                line.push(bold_of("✗ FAILED", NEON_RED));
                line.push(bare_of(" "));
                line.push(tinted_of(t.as_str(), NEON_RED));
                assert(spans(line@) == not_written_line(path@, e@));
            },
        }
        match f {
            Format::Json => {
                self.stage = Stage::Save(Format::Csv);
            },
            Format::Csv => {
                self.stage = Stage::Save(Format::Html);
            },
            Format::Html => {
                self.stage = Stage::Save(Format::Markdown);
            },
            Format::Markdown => {
                self.go_home();
            },
        }
        one_line(line)
    }
}

// ── laws ────────────────────────────────────────────────────────────────────

/// An export writes all four formats, one after the other, whether or not some of
/// them fail, and then goes back to the menu.
pub proof fn law_an_export_writes_all_four_formats(
    ui: UiModel,
    json: Result<(), Seq<char>>,
    csv: Result<(), Seq<char>>,
    html: Result<(), Seq<char>>,
    markdown: Result<(), Seq<char>>,
)
    requires
        ui.stage == Stage::Save(Format::Json),
    ensures
        ({
            let a = ui.saved(Format::Json, json).ui;
            let b = a.saved(Format::Csv, csv).ui;
            let c = b.saved(Format::Html, html).ui;
            &&& a.stage == Stage::Save(Format::Csv)
            &&& b.stage == Stage::Save(Format::Html)
            &&& c.stage == Stage::Save(Format::Markdown)
            &&& c.saved(Format::Markdown, markdown).ui == ui.home()
        }),
{
}

/// A scan that fails leaves the latest report as it was.
pub proof fn law_a_failed_scan_keeps_the_report(ui: UiModel, e: Seq<char>)
    ensures
        ui.collected(Err(e)).ui == ui.home(),
        ui.collected(Ok(Seq::empty())).ui == ui.home(),
        ui.stage == Stage::Single ==> ui.measured(Err(e)).ui == ui.home(),
        ui.swept(Err(e)).ui == ui.home(),
        ui.home().report == ui.report,
{
}

/// Whatever is measured becomes the latest report, and the UI goes back to the
/// menu.
pub proof fn law_a_measurement_becomes_the_report(
    ui: UiModel,
    m: FileMeasurement,
    bulk: BulkMeasurement,
    sweep: SweepResult,
)
    ensures
        ui.stage == Stage::Single ==> ui.measured(Ok(m)).ui == (UiModel {
            report: Some(ReportModel::Profile { root: ui.input, files: seq![m] }),
            ..ui.home()
        }),
        ui.bulk_read(bulk).ui == (UiModel {
            report: Some(ReportModel::Bulk { root: ui.input, bulk }),
            ..ui.home()
        }),
        ui.swept(Ok(sweep)).ui == (UiModel {
            report: Some(ReportModel::Sweep { sweep }),
            ..ui.home()
        }),
        ui.home().state == UiState::Input,
{
}

/// The menu is always entered with its first row highlighted.
pub proof fn law_the_menu_starts_at_the_top(ui: UiModel, banner: Seq<char>)
    requires
        ui.state == UiState::Input,
    ensures
        ui.updated(banner).ui.selected == 0,
        ui.updated(banner).ui.stage == Stage::Menu,
{
}

} // verus!
