use sawskas_profiler::cli::{help, parse, parse_extensions, run, Config, Mode};
use sawskas_profiler::headless::{Headless, Line, Task};
use sawskas_profiler::interrupt::bulk::BulkMeasurement;
use sawskas_profiler::interrupt::hardware_interrupt::FileMeasurement;
use sawskas_profiler::interrupt::random::RandomMeasurement;
use sawskas_profiler::interrupt::sweep::{SweepAction, SweepEvent, SweepPoint, SweepResult};
use sawskas_profiler::interrupt::write::WriteMeasurement;
use sawskas_profiler::report::{Format, SortKey};

fn args(s: &str) -> Vec<String> {
    s.split(' ').filter(|a| !a.is_empty()).map(|a| a.to_string()).collect()
}

fn config(s: &str) -> Config {
    match parse(&args(s), 8) {
        Ok(Mode::Run(cfg)) => cfg,
        _ => panic!("no run: {}", s),
    }
}

fn error(s: &str) -> String {
    match parse(&args(s), 8) {
        Err(e) => e,
        Ok(_) => panic!("no error: {}", s),
    }
}

#[test]
fn every_option_of_the_help_is_read() {
    let text = help();
    for option in [
        "--bulk", "--sweep", "--write", "--random", "--uncached", "--threads", "--ext", "--all", "--sort",
        "--json", "--csv", "--html", "--md", "-h, --help",
    ] {
        assert!(text.contains(option), "{}", option);
    }
    assert!(text.starts_with("SAWSKAS PROFILER — hardware-interrupt file measurement\n\nUSAGE:\nSawskas-profiler [OPTIONS] [PATH]\n\nWith no PATH, launches the interactive terminal UI.\n"));
    assert!(text.ends_with("\nEXAMPLES:\nSawskas-profiler src --ext rs --html report.html\nSawskas-profiler . --bulk --threads 8 --json\n"));
    assert!(text.contains("\n--bulk                Parallel bulk-throughput mode (no per-file sampling)\n"));
    assert!(text.lines().all(|line| !line.starts_with(' ')));
}

#[test]
fn a_path_makes_a_run_with_defaults() {
    let c = config("src");
    assert_eq!(c.path, "src");
    assert!(!c.bulk && !c.sweep && !c.write && !c.random && !c.uncached);
    assert_eq!(c.threads, 8);
    assert!(c.filter.skip_hidden);
    assert!(c.filter.extensions.is_empty());
    assert_eq!(c.sort, SortKey::Throughput);
    assert!(c.json.is_none() && c.csv.is_none() && c.html.is_none() && c.md.is_none());
}

#[test]
fn options_are_read() {
    let c = config("src --ext rs,.TOML --all --sort name --html report.html --json --csv --bulk");
    assert_eq!(c.filter.extensions, vec!["rs", "toml"]);
    assert!(!c.filter.skip_hidden);
    assert_eq!(c.sort, SortKey::Name);
    assert_eq!(c.html, Some("report.html".to_string()));
    assert_eq!(c.json, Some("profiler-report.json".to_string()));
    assert_eq!(c.csv, Some("profiler-report.csv".to_string()));
    assert!(c.bulk);
    assert_eq!(error("x --csv - --bulk"), "unknown option: -");
    let c = config("bigfile.bin --sweep --uncached --md --threads 0");
    assert!(c.sweep && c.uncached);
    assert_eq!(c.md, Some("profiler-report.md".to_string()));
    assert_eq!(c.threads, 1);
    assert_eq!(config("x --threads 9999").threads, 256);
    assert!(config("x --write").write);
    assert!(config("--random x").random);
    assert_eq!(config("--csv out x").csv, Some("out".to_string()));
    assert_eq!(config("x --html").html, Some("profiler-report.html".to_string()));
}

#[test]
fn the_order_of_arguments_does_not_matter() {
    let groups = ["src", "--bulk", "--threads 3", "--ext rs,toml", "--sort size", "--json a.json", "--all"];
    let want = config(&groups.join(" "));
    for k in 0..groups.len() {
        let mut turned = groups.to_vec();
        turned.rotate_left(k);
        turned.swap(0, k / 2);
        let got = config(&turned.join(" "));
        assert_eq!(got.path, want.path);
        assert_eq!(got.bulk, want.bulk);
        assert_eq!(got.threads, want.threads);
        assert_eq!(got.filter.extensions, want.filter.extensions);
        assert_eq!(got.filter.skip_hidden, want.filter.skip_hidden);
        assert!(got.sort == want.sort);
        assert_eq!(got.json, want.json);
        assert_eq!((got.csv, got.html, got.md), (None, None, None));
    }
}

#[test]
fn modes_without_a_run() {
    assert!(matches!(parse(&args(""), 8), Ok(Mode::Interactive)));
    assert!(matches!(parse(&args("--all --threads 3"), 8), Ok(Mode::Interactive)));
    assert!(matches!(parse(&args("-h"), 8), Ok(Mode::Help)));
    assert!(matches!(parse(&args("a --help --nonsense"), 8), Ok(Mode::Help)));
}

#[test]
fn wrong_arguments_are_named() {
    assert_eq!(error("--threads"), "--threads requires a number");
    assert_eq!(error("--threads x"), "invalid --threads value: x");
    assert_eq!(error("--threads -1"), "invalid --threads value: -1");
    assert_eq!(error("a --ext"), "--ext requires a list");
    assert_eq!(error("a --sort"), "--sort requires a key");
    assert_eq!(error("a --nonsense"), "unknown option: --nonsense");
    assert_eq!(error("a b"), "unexpected extra argument: b");
    for s in ["--json", "--csv", "--html", "--md", "--bulk", "--sweep", "--write", "--random"] {
        assert_eq!(error(s), "a PATH is required for headless mode");
    }
}

#[test]
fn extensions_are_cleaned() {
    assert_eq!(parse_extensions("rs, *.toml\t.MD ,, ..x *"), vec!["rs", "toml", "md", "x"]);
    assert!(parse_extensions(" ,*. ").is_empty());
}

fn measurement(path: &str, bytes: u64, nanos: u64) -> FileMeasurement {
    FileMeasurement {
        path: path.to_string(),
        size_bytes: bytes,
        bytes_read: bytes,
        wall_nanos: nanos,
        read_ticks: 0,
        chunk_count: 0,
        min_chunk_ticks: 0,
        max_chunk_ticks: 0,
        latency_buckets: [0; 14],
        timer_interrupts: 0,
        counter_hz: 1,
        uncached: false,
        samples: vec![],
    }
}

fn start(s: &str) -> Headless {
    run(config(s))
}

fn found(paths: &[&str]) -> Result<Vec<Option<String>>, String> {
    Ok(paths.iter().map(|p| Some(p.to_string())).collect())
}

fn printed(lines: &Vec<Line>) -> Vec<String> {
    lines.iter().map(|l| format!("{}{}", if l.err { "E " } else { "O " }, l.text)).collect()
}

#[test]
fn a_profile_run_measures_every_file() {
    let mut h = start("src --sort size --json out.json --md");
    assert_eq!(h.task(), Task::Collect);
    assert_eq!(h.target(), "src");
    let files = vec![Some("src/a".to_string()), None, Some("src/b".to_string()), Some("src/c".to_string())];
    assert!(h.on_collected(Ok(files)).is_empty());
    assert_eq!(h.task(), Task::Profile);
    assert_eq!(h.target(), "src/a");
    let a = measurement("src/a", 1 << 20, 1_000_000_000);
    assert!(h.has_room_for(&a));
    assert!(h.on_profiled(Ok(a)).is_empty());
    assert_eq!(h.target(), "src/b");
    assert_eq!(
        printed(&h.on_profiled(Err("no such file".to_string()))),
        vec!["E skip src/b: no such file"]
    );
    assert_eq!(h.target(), "src/c");
    assert_eq!(
        printed(&h.on_profiled(Ok(measurement("src/c", 3 << 20, 1_000_000_000)))),
        vec![
            "O profiled 2 files · 4.0 MiB",
            "O      3.0 MiB        3.0 MiB/s  src/c",
            "O      1.0 MiB        1.0 MiB/s  src/a",
        ]
    );
    assert_eq!(h.task(), Task::Save(Format::Json));
    assert_eq!(h.target(), "out.json");
    assert!(h.document(0).unwrap().starts_with("{\"kind\":\"profile\",\"root\":\"src\",\"file_count\":2"));
    assert_eq!(printed(&h.on_saved(Ok(()))), vec!["E wrote out.json"]);
    assert_eq!(h.task(), Task::Save(Format::Markdown));
    assert_eq!(h.target(), "profiler-report.md");
    assert_eq!(
        printed(&h.on_saved(Err("disk full".to_string()))),
        vec!["E error: failed to write profiler-report.md: disk full"]
    );
    assert_eq!(h.task(), Task::Exit);
    assert_eq!(h.exit_code(), 1);
    assert!(h.document(0).is_none());
}

#[test]
fn a_run_ends_where_nothing_is_found() {
    let mut h = start("x");
    assert_eq!(printed(&h.on_collected(Ok(vec![]))), vec!["E error: no files matched under x"]);
    assert_eq!((h.task(), h.exit_code()), (Task::Exit, 1));
    let mut h = start("x");
    assert_eq!(printed(&h.on_collected(Err("gone".to_string()))), vec!["E error: gone"]);
    assert_eq!((h.task(), h.exit_code()), (Task::Exit, 1));
    let mut h = start("x");
    let lines = h.on_collected(Ok(vec![None]));
    assert_eq!(printed(&lines), vec!["O profiled 0 files · 0 B"]);
    assert_eq!((h.task(), h.exit_code()), (Task::Exit, 0));
}

#[test]
fn a_sweep_run_needs_one_file() {
    let mut h = start("x --sweep");
    assert_eq!(
        printed(&h.on_collected(found(&["x/a", "x/b"]))),
        vec!["E error: --sweep requires a single file (got 2)"]
    );
    assert_eq!((h.task(), h.exit_code()), (Task::Exit, 1));
    let mut h = start("x --sweep --csv");
    assert!(h.on_collected(Ok(vec![None])).is_empty());
    assert_eq!(h.task(), Task::Sweep);
    assert_eq!(h.target(), "x");
    let point = |chunk_size: usize, wall_nanos: u64| SweepPoint {
        chunk_size,
        bytes: 1 << 20,
        chunks: 1,
        wall_nanos,
        avg_chunk_nanos: 77,
    };
    let s = SweepResult {
        path: "x".to_string(),
        size_bytes: 1 << 20,
        counter_hz: 1,
        uncached: false,
        points: vec![
            point(4_096, 2_000_000),
            point(16_384, 4_000_000),
            point(65_536, 1_000_000),
            point(262_144, 2_000_000),
            point(1_048_576, 2_000_000),
            point(4_194_304, 4_000_000),
            point(16_777_216, 8_000_000),
        ],
    };
    assert!(s.is_default());
    let mut begun = h.begin_sweep().ok().unwrap();
    let mut sizes = vec![];
    while begun.action() != SweepAction::Finish {
        let reply = match begun.action() {
            SweepAction::Read => {
                sizes.push(begun.chunk_size());
                SweepEvent::EndOfFile
            }
            _ => SweepEvent::Done(1),
        };
        begun.step(reply);
    }
    assert_eq!(sizes[0], 262_144, "the warm-up pass");
    assert_eq!(sizes[1..], s.points.iter().map(|p| p.chunk_size).collect::<Vec<_>>());
    assert!(begun.finish().ok().unwrap().is_default());
    assert_eq!(
        printed(&h.on_swept(Ok(s))),
        vec![
            "O block-size sweep · x · 1.0 MiB",
            "O     4.0 KiB      500.0 MiB/s  avg 77 ns",
            "O    16.0 KiB      250.0 MiB/s  avg 77 ns",
            "O    64.0 KiB     1000.0 MiB/s  avg 77 ns",
            "O   256.0 KiB      500.0 MiB/s  avg 77 ns",
            "O     1.0 MiB      500.0 MiB/s  avg 77 ns",
            "O     4.0 MiB      250.0 MiB/s  avg 77 ns",
            "O    16.0 MiB      125.0 MiB/s  avg 77 ns",
            "O   best: 64.0 KiB block",
        ]
    );
    assert_eq!(h.task(), Task::Save(Format::Csv));
    let mut h = start("x --sweep");
    h.on_collected(found(&["x"]));
    assert_eq!(printed(&h.on_swept(Err("bad".to_string()))), vec!["E error: bad"]);
    assert_eq!(h.exit_code(), 1);
}

#[test]
fn a_bulk_run_reads_all_files() {
    let mut h = start("x --bulk --threads 3");
    assert_eq!(
        printed(&h.on_collected(found(&["x/a", "x/b"]))),
        vec!["E bulk reading 2 files across 3 threads…"]
    );
    assert_eq!(h.task(), Task::Bulk);
    assert_eq!(h.config().threads, 3);
    let b = BulkMeasurement {
        file_count: 2,
        bytes_read: 5 << 20,
        wall_nanos: 2_000_000_000,
        threads: 3,
        errors: 1,
        counter_hz: 1,
        counter_ticks: 1,
        uncached: false,
        per_thread: vec![],
    };
    assert_eq!(
        printed(&h.on_bulk(b)),
        vec!["O bulk: 2 files · 5.0 MiB · 2.50 MiB/s · 3 threads · 1 failed"]
    );
    assert_eq!((h.task(), h.exit_code()), (Task::Exit, 0));
}

#[test]
fn write_and_random_runs_are_reported() {
    let mut h = start("/tmp --write --json write.json");
    assert_eq!(h.task(), Task::Write);
    assert_eq!(h.target(), "/tmp");
    let w = WriteMeasurement {
        path: "/tmp/s".to_string(),
        bytes: 64 << 20,
        chunk_size: 1 << 20,
        wall_nanos: 500_000_000,
        fsync_nanos: 1_500_000,
        counter_hz: 1,
    };
    assert_eq!(
        printed(&h.on_written(Ok(w))),
        vec!["O write: 64.0 MiB · 128.00 MiB/s · fsync 1.50 ms"]
    );
    assert_eq!(h.target(), "write.json");
    let mut h = start("/tmp --write");
    assert_eq!(printed(&h.on_written(Err("read-only".to_string()))), vec!["E error: read-only"]);
    assert_eq!(h.exit_code(), 1);
    let mut h = start("x --random");
    assert_eq!(
        printed(&h.on_collected(found(&["a", "b", "c"]))),
        vec!["E error: --random requires a single file (got 3)"]
    );
    let mut h = start("x --random");
    h.on_collected(found(&["x"]));
    assert_eq!(h.task(), Task::Random);
    let r = RandomMeasurement {
        path: "x".to_string(),
        block_size: 4_096,
        ops: 1_000,
        bytes: 4_096_000,
        wall_nanos: 1_000_000_000,
        avg_nanos: 10,
        p99_nanos: 20,
        uncached: false,
        counter_hz: 1,
    };
    assert_eq!(
        printed(&h.on_random(Ok(r))),
        vec!["O random: 1000 reads of 4.0 KiB · 1000 IOPS · avg 10 ns · p99 20 ns"]
    );
    assert_eq!((h.task(), h.exit_code()), (Task::Exit, 0));
    let mut h = start("x --random");
    h.on_collected(found(&["x"]));
    assert_eq!(printed(&h.on_random(Err("bad".to_string()))), vec!["E error: bad"]);
}
