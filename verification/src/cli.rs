//! The command line: its options, and what a run without the terminal UI prints
//! and decides.

use vstd::prelude::*;

use crate::headless::{Headless, HeadlessState};
use crate::interrupt::bulk::{clamp_threads, workers};
use crate::interrupt::discovery::{Filter, FilterModel};
use crate::report::{sort_key_named, SortKey};
use crate::text::{
    begins, begins_with, lowercase, lowercase_of, same, split, split_of, strip_front, texts,
    unsigned, unsigned_of, without_front, Cut,
};

verus! {

/// What the arguments ask for.
pub enum Mode {
    /// No path: the interactive terminal UI.
    Interactive,
    /// The help text.
    Help,
    /// A run without the terminal UI.
    Run(Config),
}

/// The settings of a run without the terminal UI.
pub struct Config {
    pub path: String,
    pub bulk: bool,
    pub sweep: bool,
    pub write: bool,
    pub random: bool,
    pub uncached: bool,
    pub threads: usize,
    pub filter: Filter,
    pub sort: SortKey,
    pub json: Option<String>,
    pub csv: Option<String>,
    pub html: Option<String>,
    pub md: Option<String>,
}

/// The help text.
pub fn help() -> (s: String)
    ensures
        s@ == HELP@,
{
    HELP.to_owned()
}

/// The help text.
pub const HELP: &'static str = "SAWSKAS PROFILER — hardware-interrupt file measurement

USAGE:
Sawskas-profiler [OPTIONS] [PATH]

With no PATH, launches the interactive terminal UI.
With a PATH (file or directory), runs headless and prints a report.

OPTIONS:
--bulk                Parallel bulk-throughput mode (no per-file sampling)
--sweep               Block-size sweep on a single file (4 KiB → 16 MiB)
--write               Sequential write benchmark into PATH (a directory)
--random              Random-access IOPS benchmark on PATH (a file)
--uncached            Bypass the page cache (measure storage, not RAM)
--threads N           Worker threads for --bulk (default: CPU count)
--ext LIST            Only files with these extensions, e.g. rs,toml
--all                 Include hidden (dot) files (default: skipped)
--sort KEY            throughput | size | name  (default: throughput)
--json [FILE]         Write a JSON report (default: profiler-report.json)
--csv  [FILE]         Write a CSV report  (default: profiler-report.csv)
--html [FILE]         Write an HTML report with graphs (default: profiler-report.html)
--md   [FILE]         Write a Markdown report (default: profiler-report.md)
-h, --help            Show this help

EXAMPLES:
Sawskas-profiler src --ext rs --html report.html
Sawskas-profiler . --bulk --threads 8 --json
";

// ── a list of extensions ────────────────────────────────────────────────────

/// An extension as it is kept: without stars and dots in front, in small letters.
pub open spec fn plain_extension(s: Seq<char>) -> Seq<char> {
    lowercase(without_front(without_front(s, '*'), '.'))
}

/// The extensions that some pieces of text name; empty ones are left out.
pub open spec fn plain_extensions(pieces: Seq<Seq<char>>) -> Seq<Seq<char>>
    decreases pieces.len(),
{
    if pieces.len() == 0 {
        Seq::empty()
    } else {
        let init = plain_extensions(pieces.drop_last());
        let e = plain_extension(pieces.last());
        if e.len() == 0 {
            init
        } else {
            init.push(e)
        }
    }
}

/// The extensions that a text lists, with commas or white space between them.
pub open spec fn listed_extensions(raw: Seq<char>) -> Seq<Seq<char>> {
    plain_extensions(split(raw, Cut::CommaOrSpace))
}

/// Reads a list of extensions: `rs`, `.rs`, `*.rs` and `rs, toml` are all fine.
pub fn parse_extensions(raw: &str) -> (r: Vec<String>)
    ensures
        texts(r@) == listed_extensions(raw@),
{
    let pieces = split_of(raw, Cut::CommaOrSpace);
    let ghost all = texts(pieces@);
    let mut r: Vec<String> = Vec::new();
    for i in 0..pieces.len()
        invariant
            all == texts(pieces@),
            texts(r@) == plain_extensions(all.take(i as int)),
    {
        let a = strip_front(pieces[i].as_str(), '*');
        let b = strip_front(a.as_str(), '.');
        let e = lowercase_of(b.as_str());
        proof {
            assert(all.take(i + 1).drop_last() == all.take(i as int));
            assert(all.take(i + 1).last() == pieces@[i as int]@);
            crate::text::lemma_texts_push(r@, e);
        }
        if !e.as_str().is_empty() {
            r.push(e);
        }
    }
    assert(all.take(all.len() as int) == all);
    r
}

proof fn lemma_without_front(s: Seq<char>, c: char)
    ensures
        !begins_with(without_front(s, c), c),
    decreases s.len(),
{
    if begins_with(s, c) {
        lemma_without_front(s.skip(1), c);
    }
}

/// An extension that was read is never empty and never begins with a dot.
pub proof fn law_extensions_have_no_dot_in_front(raw: Seq<char>, i: int)
    requires
        0 <= i < listed_extensions(raw).len(),
    ensures
        listed_extensions(raw)[i].len() > 0,
        !begins_with(listed_extensions(raw)[i], '.'),
{
    lemma_plain_extensions(split(raw, Cut::CommaOrSpace), i);
}

proof fn lemma_plain_extensions(pieces: Seq<Seq<char>>, i: int)
    requires
        0 <= i < plain_extensions(pieces).len(),
    ensures
        plain_extensions(pieces)[i].len() > 0,
        !begins_with(plain_extensions(pieces)[i], '.'),
    decreases pieces.len(),
{
    let init = plain_extensions(pieces.drop_last());
    if i < init.len() {
        lemma_plain_extensions(pieces.drop_last(), i);
    } else {
        let s = without_front(pieces.last(), '*');
        lemma_without_front(s, '.');
        let e = plain_extension(pieces.last());
        assert(plain_extensions(pieces)[i] == e);
        assert(e[0] == crate::text::small(without_front(s, '.')[0]));
    }
}

/// An extension in small letters, with neither a star nor a dot in front, is kept
/// as it is.
pub proof fn law_plain_extensions_stay_as_they_are(e: Seq<char>)
    requires
        !begins_with(e, '*'),
        !begins_with(e, '.'),
        lowercase(e) == e,
    ensures
        plain_extension(e) == e,
{
}

// ── options ─────────────────────────────────────────────────────────────────

/// What the arguments so far have set.
pub struct Options {
    path: Option<String>,
    bulk: bool,
    sweep: bool,
    write: bool,
    random: bool,
    uncached: bool,
    skip_hidden: bool,
    threads: usize,
    extensions: Vec<String>,
    sort: SortKey,
    json: Option<String>,
    csv: Option<String>,
    html: Option<String>,
    md: Option<String>,
}

/// What the arguments so far have set, as a value.
pub struct Given {
    pub path: Option<Seq<char>>,
    pub bulk: bool,
    pub sweep: bool,
    pub write: bool,
    pub random: bool,
    pub uncached: bool,
    pub skip_hidden: bool,
    pub threads: nat,
    pub extensions: Seq<Seq<char>>,
    pub sort: SortKey,
    pub json: Option<Seq<char>>,
    pub csv: Option<Seq<char>>,
    pub html: Option<Seq<char>>,
    pub md: Option<Seq<char>>,
}

/// A text that may be missing.
pub open spec fn maybe(s: Option<String>) -> Option<Seq<char>> {
    match s {
        Some(t) => Some(t@),
        None => None,
    }
}

impl View for Options {
    type V = Given;

    closed spec fn view(&self) -> Given {
        Given {
            path: maybe(self.path),
            bulk: self.bulk,
            sweep: self.sweep,
            write: self.write,
            random: self.random,
            uncached: self.uncached,
            skip_hidden: self.skip_hidden,
            threads: self.threads as nat,
            extensions: texts(self.extensions@),
            sort: self.sort,
            json: maybe(self.json),
            csv: maybe(self.csv),
            html: maybe(self.html),
            md: maybe(self.md),
        }
    }
}

/// The settings before the first argument.
pub open spec fn nothing_given(threads: nat) -> Given {
    Given {
        path: None,
        bulk: false,
        sweep: false,
        write: false,
        random: false,
        uncached: false,
        skip_hidden: true,
        threads,
        extensions: Seq::empty(),
        sort: SortKey::Throughput,
        json: None,
        csv: None,
        html: None,
        md: None,
    }
}

/// What an argument does.
pub enum Taken {
    /// It asks for the help text.
    Help,
    /// It cannot be used.
    Fail(Seq<char>),
    /// It makes the settings what they are now, together with this many arguments.
    Used(Given, int),
}

/// The file name behind an output option: the next argument, unless that is an
/// option too or missing.
pub open spec fn output_name(args: Seq<Seq<char>>, i: int, default: Seq<char>) -> (Seq<char>, int) {
    if i + 1 < args.len() && !begins_with(args[i + 1], '-') {
        (args[i + 1], 2)
    } else {
        (default, 1)
    }
}

/// The kinds of argument.
#[derive(Clone, Copy, PartialEq, Eq, Structural)]
pub enum Arg {
    Help,
    Bulk,
    Sweep,
    Write,
    Random,
    Uncached,
    All,
    Threads,
    Ext,
    Sort,
    Json,
    Csv,
    Html,
    Md,
    /// Something else that begins with a dash.
    Unknown,
    /// Anything that does not begin with a dash.
    Plain,
}

/// The kind of an argument.
pub open spec fn arg_kind(a: Seq<char>) -> Arg {
    if a == "-h"@ || a == "--help"@ {
        Arg::Help
    } else if a == "--bulk"@ {
        Arg::Bulk
    } else if a == "--sweep"@ {
        Arg::Sweep
    } else if a == "--write"@ {
        Arg::Write
    } else if a == "--random"@ {
        Arg::Random
    } else if a == "--uncached"@ {
        Arg::Uncached
    } else if a == "--all"@ {
        Arg::All
    } else if a == "--threads"@ {
        Arg::Threads
    } else if a == "--ext"@ {
        Arg::Ext
    } else if a == "--sort"@ {
        Arg::Sort
    } else if a == "--json"@ {
        Arg::Json
    } else if a == "--csv"@ {
        Arg::Csv
    } else if a == "--html"@ {
        Arg::Html
    } else if a == "--md"@ {
        Arg::Md
    } else if begins_with(a, '-') {
        Arg::Unknown
    } else {
        Arg::Plain
    }
}

fn arg_kind_of(a: &str) -> (k: Arg)
    ensures
        k == arg_kind(a@),
{
    if same(a, "-h") || same(a, "--help") {
        Arg::Help
    } else if same(a, "--bulk") {
        Arg::Bulk
    } else if same(a, "--sweep") {
        Arg::Sweep
    } else if same(a, "--write") {
        Arg::Write
    } else if same(a, "--random") {
        Arg::Random
    } else if same(a, "--uncached") {
        Arg::Uncached
    } else if same(a, "--all") {
        Arg::All
    } else if same(a, "--threads") {
        Arg::Threads
    } else if same(a, "--ext") {
        Arg::Ext
    } else if same(a, "--sort") {
        Arg::Sort
    } else if same(a, "--json") {
        Arg::Json
    } else if same(a, "--csv") {
        Arg::Csv
    } else if same(a, "--html") {
        Arg::Html
    } else if same(a, "--md") {
        Arg::Md
    } else if begins(a, '-') {
        Arg::Unknown
    } else {
        Arg::Plain
    }
}

/// What argument `i` does to the settings `g`.
pub open spec fn taken(args: Seq<Seq<char>>, i: int, g: Given) -> Taken {
    let a = args[i];
    let more = i + 1 < args.len();
    match arg_kind(a) {
        Arg::Help => Taken::Help,
        Arg::Bulk => Taken::Used(Given { bulk: true, ..g }, 1),
        Arg::Sweep => Taken::Used(Given { sweep: true, ..g }, 1),
        Arg::Write => Taken::Used(Given { write: true, ..g }, 1),
        Arg::Random => Taken::Used(Given { random: true, ..g }, 1),
        Arg::Uncached => Taken::Used(Given { uncached: true, ..g }, 1),
        Arg::All => Taken::Used(Given { skip_hidden: false, ..g }, 1),
        Arg::Threads => if !more {
            Taken::Fail("--threads requires a number"@)
        } else {
            match unsigned(args[i + 1]) {
                Some(n) => Taken::Used(Given { threads: workers(n as nat), ..g }, 2),
                None => Taken::Fail("invalid --threads value: "@ + args[i + 1]),
            }
        },
        Arg::Ext => if !more {
            Taken::Fail("--ext requires a list"@)
        } else {
            Taken::Used(Given { extensions: listed_extensions(args[i + 1]), ..g }, 2)
        },
        Arg::Sort => if !more {
            Taken::Fail("--sort requires a key"@)
        } else {
            Taken::Used(Given { sort: sort_key_named(args[i + 1]), ..g }, 2)
        },
        Arg::Json => {
            let (name, n) = output_name(args, i, "profiler-report.json"@);
            Taken::Used(Given { json: Some(name), ..g }, n)
        },
        Arg::Csv => {
            let (name, n) = output_name(args, i, "profiler-report.csv"@);
            Taken::Used(Given { csv: Some(name), ..g }, n)
        },
        Arg::Html => {
            let (name, n) = output_name(args, i, "profiler-report.html"@);
            Taken::Used(Given { html: Some(name), ..g }, n)
        },
        Arg::Md => {
            let (name, n) = output_name(args, i, "profiler-report.md"@);
            Taken::Used(Given { md: Some(name), ..g }, n)
        },
        Arg::Unknown => Taken::Fail("unknown option: "@ + a),
        Arg::Plain => if g.path is Some {
            Taken::Fail("unexpected extra argument: "@ + a)
        } else {
            Taken::Used(Given { path: Some(a), ..g }, 1)
        },
    }
}

/// What the arguments from `i` on make of the settings `g`; nothing where they
/// ask for the help text.
pub open spec fn scanned(args: Seq<Seq<char>>, i: int, g: Given) -> Result<Option<Given>, Seq<char>>
    decreases args.len() - i,
{
    if i >= args.len() {
        Ok(Some(g))
    } else {
        match taken(args, i, g) {
            Taken::Help => Ok(None),
            Taken::Fail(message) => Err(message),
            Taken::Used(next, n) => if n >= 1 {
                scanned(args, i + n, next)
            } else {
                Ok(None)
            },
        }
    }
}

/// What the arguments ask for, as a value.
pub enum Wanted {
    Interactive,
    Help,
    Run(Settings),
}

/// The settings of a run, as a value.
pub struct Settings {
    pub path: Seq<char>,
    pub bulk: bool,
    pub sweep: bool,
    pub write: bool,
    pub random: bool,
    pub uncached: bool,
    pub threads: nat,
    pub filter: FilterModel,
    pub sort: SortKey,
    pub json: Option<Seq<char>>,
    pub csv: Option<Seq<char>>,
    pub html: Option<Seq<char>>,
    pub md: Option<Seq<char>>,
}

impl View for Config {
    type V = Settings;

    open spec fn view(&self) -> Settings {
        Settings {
            path: self.path@,
            bulk: self.bulk,
            sweep: self.sweep,
            write: self.write,
            random: self.random,
            uncached: self.uncached,
            threads: self.threads as nat,
            filter: self.filter@,
            sort: self.sort,
            json: maybe(self.json),
            csv: maybe(self.csv),
            html: maybe(self.html),
            md: maybe(self.md),
        }
    }
}

impl View for Mode {
    type V = Wanted;

    open spec fn view(&self) -> Wanted {
        match self {
            Mode::Interactive => Wanted::Interactive,
            Mode::Help => Wanted::Help,
            Mode::Run(cfg) => Wanted::Run(cfg@),
        }
    }
}

impl Given {
    /// Whether anything is set that makes sense with a path only.
    pub open spec fn needs_path(self) -> bool {
        self.json is Some || self.csv is Some || self.html is Some || self.md is Some || self.bulk
            || self.sweep || self.write || self.random
    }

    /// What the settings ask for.
    pub open spec fn wanted(self) -> Result<Wanted, Seq<char>> {
        match self.path {
            None => if self.needs_path() {
                Err("a PATH is required for headless mode"@)
            } else {
                Ok(Wanted::Interactive)
            },
            Some(path) => Ok(
                Wanted::Run(
                    Settings {
                        path,
                        bulk: self.bulk,
                        sweep: self.sweep,
                        write: self.write,
                        random: self.random,
                        uncached: self.uncached,
                        threads: self.threads,
                        filter: FilterModel {
                            skip_hidden: self.skip_hidden,
                            extensions: self.extensions,
                        },
                        sort: self.sort,
                        json: self.json,
                        csv: self.csv,
                        html: self.html,
                        md: self.md,
                    },
                ),
            ),
        }
    }
}

/// What the arguments ask for, where `threads` is the number of processors.
pub open spec fn parsed(args: Seq<Seq<char>>, threads: nat) -> Result<Wanted, Seq<char>> {
    match scanned(args, 0, nothing_given(threads)) {
        Err(message) => Err(message),
        Ok(None) => Ok(Wanted::Help),
        Ok(Some(g)) => g.wanted(),
    }
}

/// A result of parsing, as a value.
pub open spec fn outcome(r: Result<Mode, String>) -> Result<Wanted, Seq<char>> {
    match r {
        Ok(mode) => Ok(mode@),
        Err(message) => Err(message@),
    }
}

fn joined(a: &str, b: &str) -> (s: String)
    ensures
        s@ == a@ + b@,
{
    let mut s = a.to_owned();
    s.append(b);
    s
}

fn output_name_of(args: &Vec<String>, i: usize, default: &str) -> (r: (String, usize))
    requires
        i < args@.len(),
    ensures
        (r.0@, r.1 as int) == output_name(texts(args@), i as int, default@),
        1 <= r.1 <= 2,
        i + r.1 <= args@.len(),
{
    if args.len() - i > 1 && !begins(args[i + 1].as_str(), '-') {
        (args[i + 1].as_str().to_owned(), 2)
    } else {
        (default.to_owned(), 1)
    }
}

impl Options {
    fn new(threads: usize) -> (o: Options)
        ensures
            o@ == nothing_given(threads as nat),
    {
        let o = Options {
            path: None,
            bulk: false,
            sweep: false,
            write: false,
            random: false,
            uncached: false,
            skip_hidden: true,
            threads,
            extensions: Vec::new(),
            sort: SortKey::Throughput,
            json: None,
            csv: None,
            html: None,
            md: None,
        };
        assert(o@.extensions == Seq::<Seq<char>>::empty());
        o
    }

    /// Takes argument `i` in: how many arguments that used, none where it asks for
    /// the help text, or what is wrong with it.
    fn take(&mut self, args: &Vec<String>, i: usize) -> (r: Result<usize, String>)
        requires
            i < args@.len(),
        ensures
            match r {
                Ok(n) => if n == 0 {
                    taken(texts(args@), i as int, old(self)@) is Help
                } else {
                    &&& taken(texts(args@), i as int, old(self)@) == Taken::Used(
                        final(self)@,
                        n as int,
                    )
                    &&& i + n <= args@.len()
                },
                Err(message) => taken(texts(args@), i as int, old(self)@) == Taken::Fail(
                    message@,
                ),
            },
    {
        let a = args[i].as_str();
        let more = args.len() - i > 1;
        proof {
            assert(texts(args@)[i as int] == a@);
            if i + 1 < args@.len() {
                assert(texts(args@)[i + 1] == args@[i + 1]@);
            }
        }
        match arg_kind_of(a) {
            Arg::Help => Ok(0),
            Arg::Bulk => {
                self.bulk = true;
                Ok(1)
            },
            Arg::Sweep => {
                self.sweep = true;
                Ok(1)
            },
            Arg::Write => {
                self.write = true;
                Ok(1)
            },
            Arg::Random => {
                self.random = true;
                Ok(1)
            },
            Arg::Uncached => {
                self.uncached = true;
                Ok(1)
            },
            Arg::All => {
                self.skip_hidden = false;
                Ok(1)
            },
            Arg::Threads => {
                if !more {
                    return Err("--threads requires a number".to_owned());
                }
                match unsigned_of(args[i + 1].as_str()) {
                    Some(n) => {
                        self.threads = clamp_threads(n);
                        Ok(2)
                    },
                    None => Err(joined("invalid --threads value: ", args[i + 1].as_str())),
                }
            },
            Arg::Ext => {
                if !more {
                    return Err("--ext requires a list".to_owned());
                }
                self.extensions = parse_extensions(args[i + 1].as_str());
                Ok(2)
            },
            Arg::Sort => {
                if !more {
                    return Err("--sort requires a key".to_owned());
                }
                self.sort = SortKey::parse(args[i + 1].as_str());
                Ok(2)
            },
            Arg::Json => {
                let (name, n) = output_name_of(args, i, "profiler-report.json");
                self.json = Some(name);
                Ok(n)
            },
            Arg::Csv => {
                let (name, n) = output_name_of(args, i, "profiler-report.csv");
                self.csv = Some(name);
                Ok(n)
            },
            Arg::Html => {
                let (name, n) = output_name_of(args, i, "profiler-report.html");
                self.html = Some(name);
                Ok(n)
            },
            Arg::Md => {
                let (name, n) = output_name_of(args, i, "profiler-report.md");
                self.md = Some(name);
                Ok(n)
            },
            Arg::Unknown => Err(joined("unknown option: ", a)),
            Arg::Plain => {
                if self.path.is_some() {
                    return Err(joined("unexpected extra argument: ", a));
                }
                self.path = Some(a.to_owned());
                Ok(1)
            },
        }
    }

    fn finish(self) -> (r: Result<Mode, String>)
        ensures
            outcome(r) == self@.wanted(),
    {
        match self.path {
            None => {
                if self.json.is_some() || self.csv.is_some() || self.html.is_some()
                    || self.md.is_some() || self.bulk || self.sweep || self.write || self.random {
                    Err("a PATH is required for headless mode".to_owned())
                } else {
                    Ok(Mode::Interactive)
                }
            },
            Some(path) => Ok(
                Mode::Run(
                    Config {
                        path,
                        bulk: self.bulk,
                        sweep: self.sweep,
                        write: self.write,
                        random: self.random,
                        uncached: self.uncached,
                        threads: self.threads,
                        filter: Filter {
                            skip_hidden: self.skip_hidden,
                            extensions: self.extensions,
                        },
                        sort: self.sort,
                        json: self.json,
                        csv: self.csv,
                        html: self.html,
                        md: self.md,
                    },
                ),
            ),
        }
    }
}

/// Reads the arguments behind the program's name. `threads` is the number of
/// processors.
pub fn parse(args: &Vec<String>, threads: usize) -> (r: Result<Mode, String>)
    ensures
        outcome(r) == parsed(texts(args@), threads as nat),
{
    let ghost all = texts(args@);
    let mut options = Options::new(threads);
    let mut i: usize = 0;
    while i < args.len()
        invariant
            all == texts(args@),
            i <= args@.len(),
            scanned(all, i as int, options@) == scanned(all, 0, nothing_given(threads as nat)),
        decreases args@.len() - i,
    {
        match options.take(args, i) {
            Err(message) => {
                return Err(message);
            },
            Ok(n) => {
                if n == 0 {
                    return Ok(Mode::Help);
                }
                i = i + n;
            },
        }
    }
    options.finish()
}

/// Begins a run without the terminal UI.
pub fn run(cfg: Config) -> (h: Headless)
    ensures
        h.wf(),
        h@ == HeadlessState::start(cfg@),
{
    Headless::start(cfg)
}

// ── laws ────────────────────────────────────────────────────────────────────

proof fn lemma_threads_in_range(args: Seq<Seq<char>>, i: int, g: Given, threads: nat)
    requires
        0 <= i,
        g.threads == threads || 1 <= g.threads <= 256,
        scanned(args, i, g) matches Ok(Some(_)),
    ensures
        scanned(args, i, g)->Ok_0->0.threads == threads || 1 <= scanned(args, i, g)->Ok_0->0.threads
            <= 256,
    decreases args.len() - i,
{
    if i < args.len() {
        match taken(args, i, g) {
            Taken::Used(next, n) => {
                lemma_threads_in_range(args, i + n, next, threads);
            },
            _ => {},
        }
    }
}

/// The number of worker threads is the number of processors, unless one from 1
/// to 256 was asked for.
pub proof fn law_worker_threads_are_in_range(args: Seq<Seq<char>>, threads: nat)
    requires
        parsed(args, threads) matches Ok(Wanted::Run(_)),
    ensures
        ({
            let s = parsed(args, threads)->Ok_0->Run_0;
            s.threads == threads || 1 <= s.threads <= 256
        }),
{
    lemma_threads_in_range(args, 0, nothing_given(threads), threads);
}

/// A request for help is answered with help, whatever comes behind it.
pub proof fn law_help_ends_the_reading(args: Seq<Seq<char>>, i: int, g: Given)
    requires
        0 <= i < args.len(),
        args[i] == "-h"@ || args[i] == "--help"@,
    ensures
        scanned(args, i, g) == Ok::<Option<Given>, Seq<char>>(None),
{
}

/// Options that ask for a measurement or a report are refused without a path.
pub proof fn law_options_without_a_path_are_refused(g: Given)
    requires
        g.path is None,
    ensures
        g.wanted() is Err <==> g.needs_path(),
{
}

// ── the order of arguments ──────────────────────────────────────────────────

/// Whether some arguments belong together: an option with its value, an option
/// that takes none, or a path. An output option has its file behind it.
pub open spec fn is_group(g: Seq<Seq<char>>) -> bool {
    match arg_kind(g[0]) {
        Arg::Help | Arg::Unknown => false,
        Arg::Bulk | Arg::Sweep | Arg::Write | Arg::Random | Arg::Uncached | Arg::All | Arg::Plain => g.len()
            == 1,
        Arg::Threads => g.len() == 2 && unsigned(g[1]) is Some,
        Arg::Ext | Arg::Sort => g.len() == 2,
        Arg::Json | Arg::Csv | Arg::Html | Arg::Md => g.len() == 2 && !begins_with(g[1], '-'),
    }
}

/// Whether arguments can be taken group by group: every group is one, and no
/// option, nor the path, occurs twice.
pub open spec fn are_groups(groups: Seq<Seq<Seq<char>>>) -> bool {
    &&& forall|i: int| 0 <= i < groups.len() ==> is_group(#[trigger] groups[i])
    &&& forall|i: int, j: int|
        0 <= i < j < groups.len() ==> arg_kind((#[trigger] groups[i])[0]) != arg_kind(
            (#[trigger] groups[j])[0],
        )
}

/// The arguments of some groups, one group behind the other.
pub open spec fn arguments(groups: Seq<Seq<Seq<char>>>) -> Seq<Seq<char>>
    decreases groups.len(),
{
    if groups.len() == 0 {
        Seq::empty()
    } else {
        arguments(groups.drop_last()) + groups.last()
    }
}

/// The group of a kind, if there is one.
spec fn group_of(groups: Seq<Seq<Seq<char>>>, kind: Arg) -> Option<Seq<Seq<char>>>
    decreases groups.len(),
{
    if groups.len() == 0 {
        None
    } else if arg_kind(groups.last()[0]) == kind {
        Some(groups.last())
    } else {
        group_of(groups.drop_last(), kind)
    }
}

spec fn file_of(groups: Seq<Seq<Seq<char>>>, kind: Arg) -> Option<Seq<char>> {
    match group_of(groups, kind) {
        Some(g) => Some(g[1]),
        None => None,
    }
}

/// What some groups set, read off kind by kind.
spec fn given_by(groups: Seq<Seq<Seq<char>>>, threads: nat) -> Given {
    Given {
        path: match group_of(groups, Arg::Plain) {
            Some(g) => Some(g[0]),
            None => None,
        },
        bulk: group_of(groups, Arg::Bulk) is Some,
        sweep: group_of(groups, Arg::Sweep) is Some,
        write: group_of(groups, Arg::Write) is Some,
        random: group_of(groups, Arg::Random) is Some,
        uncached: group_of(groups, Arg::Uncached) is Some,
        skip_hidden: group_of(groups, Arg::All) is None,
        threads: match group_of(groups, Arg::Threads) {
            Some(g) => workers(unsigned(g[1])->0 as nat),
            None => threads,
        },
        extensions: match group_of(groups, Arg::Ext) {
            Some(g) => listed_extensions(g[1]),
            None => Seq::empty(),
        },
        sort: match group_of(groups, Arg::Sort) {
            Some(g) => sort_key_named(g[1]),
            None => SortKey::Throughput,
        },
        json: file_of(groups, Arg::Json),
        csv: file_of(groups, Arg::Csv),
        html: file_of(groups, Arg::Html),
        md: file_of(groups, Arg::Md),
    }
}

proof fn lemma_no_group(groups: Seq<Seq<Seq<char>>>, kind: Arg)
    requires
        forall|i: int| 0 <= i < groups.len() ==> arg_kind((#[trigger] groups[i])[0]) != kind,
    ensures
        group_of(groups, kind) is None,
    decreases groups.len(),
{
    if groups.len() > 0 {
        let init = groups.drop_last();
        assert(groups[groups.len() - 1] == groups.last());
        assert forall|i: int| 0 <= i < init.len() implies arg_kind((#[trigger] init[i])[0])
            != kind by {
            assert(init[i] == groups[i]);
        }
        lemma_no_group(init, kind);
    }
}

proof fn lemma_one_group(groups: Seq<Seq<Seq<char>>>, i: int)
    requires
        are_groups(groups),
        0 <= i < groups.len(),
    ensures
        group_of(groups, arg_kind(groups[i][0])) == Some(groups[i]),
    decreases groups.len(),
{
    let last = groups.len() - 1;
    if i < last {
        let init = groups.drop_last();
        lemma_groups_in_front(groups);
        assert(arg_kind(groups[i][0]) != arg_kind(groups[last][0]));
        assert(init[i] == groups[i]);
        lemma_one_group(init, i);
    }
}

proof fn lemma_groups_in_front(groups: Seq<Seq<Seq<char>>>)
    requires
        are_groups(groups),
        groups.len() > 0,
    ensures
        are_groups(groups.drop_last()),
{
    let init = groups.drop_last();
    assert forall|i: int| 0 <= i < init.len() implies is_group(#[trigger] init[i]) by {
        assert(init[i] == groups[i]);
    }
    assert forall|i: int, j: int| 0 <= i < j < init.len() implies arg_kind((#[trigger] init[i])[0])
        != arg_kind((#[trigger] init[j])[0]) by {
        assert(init[i] == groups[i] && init[j] == groups[j]);
    }
}

/// The settings with one more group, which is of the kind `kind`.
spec fn with_group(given: Given, kind: Arg, g: Seq<Seq<char>>) -> Given {
    match kind {
        Arg::Help | Arg::Unknown => given,
        Arg::Bulk => Given { bulk: true, ..given },
        Arg::Sweep => Given { sweep: true, ..given },
        Arg::Write => Given { write: true, ..given },
        Arg::Random => Given { random: true, ..given },
        Arg::Uncached => Given { uncached: true, ..given },
        Arg::All => Given { skip_hidden: false, ..given },
        Arg::Threads => Given { threads: workers(unsigned(g[1])->0 as nat), ..given },
        Arg::Ext => Given { extensions: listed_extensions(g[1]), ..given },
        Arg::Sort => Given { sort: sort_key_named(g[1]), ..given },
        Arg::Json => Given { json: Some(g[1]), ..given },
        Arg::Csv => Given { csv: Some(g[1]), ..given },
        Arg::Html => Given { html: Some(g[1]), ..given },
        Arg::Md => Given { md: Some(g[1]), ..given },
        Arg::Plain => Given { path: Some(g[0]), ..given },
    }
}

proof fn lemma_given_group_by_group(groups: Seq<Seq<Seq<char>>>, kind: Arg, threads: nat)
    requires
        groups.len() > 0,
        arg_kind(groups.last()[0]) == kind,
    ensures
        given_by(groups, threads) == with_group(
            given_by(groups.drop_last(), threads),
            kind,
            groups.last(),
        ),
{
}

/// A group is taken as a whole.
#[verifier::spinoff_prover]
#[verifier::rlimit(40)]
proof fn lemma_group_is_taken(
    groups: Seq<Seq<Seq<char>>>,
    behind: Seq<Seq<char>>,
    threads: nat,
)
    requires
        are_groups(groups),
        groups.len() > 0,
    ensures
        ({
            let args = arguments(groups) + behind;
            let before = arguments(groups.drop_last()).len() as int;
            taken(args, before, given_by(groups.drop_last(), threads)) == Taken::Used(
                given_by(groups, threads),
                groups.last().len() as int,
            )
        }),
        groups.last().len() >= 1,
{
    let init = groups.drop_last();
    let g = groups.last();
    let args = arguments(groups) + behind;
    let i = arguments(init).len() as int;
    assert(groups[groups.len() - 1] == g);
    assert(is_group(g));
    assert(args[i] == g[0]);
    if g.len() == 2 {
        assert(args[i + 1] == g[1]);
    }
    let kind = arg_kind(g[0]);
    if kind == Arg::Plain {
        assert forall|k: int| 0 <= k < init.len() implies arg_kind((#[trigger] init[k])[0])
            != kind by {
            assert(init[k] == groups[k]);
            assert(arg_kind(groups[k][0]) != arg_kind(groups[groups.len() - 1][0]));
        }
        lemma_no_group(init, Arg::Plain);
    }
    lemma_given_group_by_group(groups, kind, threads);
}

proof fn lemma_groups_are_scanned(
    groups: Seq<Seq<Seq<char>>>,
    behind: Seq<Seq<char>>,
    threads: nat,
)
    requires
        are_groups(groups),
    ensures
        scanned(arguments(groups) + behind, 0, nothing_given(threads)) == scanned(
            arguments(groups) + behind,
            arguments(groups).len() as int,
            given_by(groups, threads),
        ),
    decreases groups.len(),
{
    if groups.len() == 0 {
        assert(given_by(groups, threads) == nothing_given(threads));
    } else {
        let init = groups.drop_last();
        let g = groups.last();
        let args = arguments(groups) + behind;
        lemma_groups_in_front(groups);
        lemma_groups_are_scanned(init, g + behind, threads);
        assert(arguments(init) + (g + behind) == args);
        lemma_group_is_taken(groups, behind, threads);
        let i = arguments(init).len() as int;
        assert(i < args.len());
        assert(i + g.len() == arguments(groups).len());
    }
}

proof fn lemma_same_group(
    a: Seq<Seq<Seq<char>>>,
    b: Seq<Seq<Seq<char>>>,
    kind: Arg,
)
    requires
        are_groups(a),
        are_groups(b),
        a.to_multiset() == b.to_multiset(),
    ensures
        group_of(a, kind) == group_of(b, kind),
{
    a.to_multiset_ensures();
    b.to_multiset_ensures();
    if exists|i: int| 0 <= i < a.len() && arg_kind((#[trigger] a[i])[0]) == kind {
        let i = choose|i: int| 0 <= i < a.len() && arg_kind((#[trigger] a[i])[0]) == kind;
        assert(a.contains(a[i]));
        assert(b.to_multiset().count(a[i]) > 0);
        let j = choose|j: int| 0 <= j < b.len() && b[j] == a[i];
        lemma_one_group(a, i);
        lemma_one_group(b, j);
    } else {
        assert forall|j: int| 0 <= j < b.len() implies arg_kind((#[trigger] b[j])[0]) != kind by {
            assert(b.contains(b[j]));
            assert(a.to_multiset().count(b[j]) > 0);
            let i = choose|i: int| 0 <= i < a.len() && a[i] == b[j];
            assert(arg_kind(a[i][0]) != kind);
        }
        lemma_no_group(a, kind);
        lemma_no_group(b, kind);
    }
}

/// The order of the options and the path does not matter: the same groups of
/// arguments ask for the same in whatever order they come.
pub proof fn law_the_order_of_arguments_does_not_matter(
    a: Seq<Seq<Seq<char>>>,
    b: Seq<Seq<Seq<char>>>,
    threads: nat,
)
    requires
        are_groups(a),
        are_groups(b),
        a.to_multiset() == b.to_multiset(),
    ensures
        parsed(arguments(a), threads) == parsed(arguments(b), threads),
{
    let nothing = Seq::<Seq<char>>::empty();
    lemma_groups_are_scanned(a, nothing, threads);
    lemma_groups_are_scanned(b, nothing, threads);
    assert(arguments(a) + nothing == arguments(a));
    assert(arguments(b) + nothing == arguments(b));
    assert forall|kind: Arg| #[trigger] group_of(a, kind) == group_of(b, kind) by {
        lemma_same_group(a, b, kind);
    }
    assert(given_by(a, threads) == given_by(b, threads));
}

} // verus!
