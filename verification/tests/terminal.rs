use sawskas_profiler::frontend::batch::{print_aggregate, Aggregate, Batch};
use sawskas_profiler::frontend::boot::{print_custom_banner, print_title, title_row};
use sawskas_profiler::frontend::menu::{
    draw_menu_items, press, redraw_menu_items, Key, MenuReply, UiState, MENU_LINES_BEFORE_PROMPT,
};
use sawskas_profiler::frontend::paint::{
    default_palette, Span, Style, NEON_CYAN, NEON_GREEN, NEON_MAGENTA, NEON_YELLOW,
};
use sawskas_profiler::frontend::prompt::{
    prompt_filter, prompt_path, prompt_threads, prompt_uncached,
};
use sawskas_profiler::frontend::screen::{
    divider_of, loading_done_of, loading_frame_of, pad_to, print_batch_error, print_batch_row,
    print_bulk_report, print_report, print_sweep_report, render_batch_bar, render_scan_bar,
    report_row, scan_error_of, truncate,
};
use sawskas_profiler::frontend::script::{loading_bar, type_sentence, Print};
use sawskas_profiler::frontend::ui::{Need, Ui};
use sawskas_profiler::interrupt::bulk::BulkMeasurement;
use sawskas_profiler::interrupt::discovery::Name;
use sawskas_profiler::interrupt::hardware_interrupt::{FileMeasurement, Progress};
use sawskas_profiler::interrupt::sweep::{SweepAction, SweepPoint, SweepResult};
use sawskas_profiler::report::SortKey;

fn text(line: &Vec<Span>) -> String {
    line.iter().map(|s| s.text.as_str()).collect()
}

fn texts(lines: &Vec<Vec<Span>>) -> Vec<String> {
    lines.iter().map(text).collect()
}

/// What is printed, with a mark for each line break and nothing for pauses.
fn shown(script: &Vec<Print>) -> String {
    let mut s = String::new();
    for p in script {
        match p {
            Print::Text(t) => s.push_str(&text(t)),
            Print::Line(t) => {
                s.push_str(&text(t));
                s.push('\n');
            }
            Print::Pause(_) => {}
        }
    }
    s
}

fn paused(script: &Vec<Print>) -> u64 {
    script.iter().map(|p| if let Print::Pause(ms) = p { *ms } else { 0 }).sum()
}

fn measurement(path: &str, bytes: u64, nanos: u64) -> FileMeasurement {
    FileMeasurement {
        path: path.to_string(),
        size_bytes: bytes,
        bytes_read: bytes,
        wall_nanos: nanos,
        read_ticks: 10_000,
        chunk_count: 4,
        min_chunk_ticks: 1_000,
        max_chunk_ticks: 20_000_000,
        latency_buckets: [1, 0, 2, 0, 0, 0, 0, 0, 0, 0, 0, 0, 0, 1],
        timer_interrupts: 2,
        counter_hz: 1_000_000_000,
        uncached: false,
        samples: vec![],
    }
}

#[test]
fn texts_fit_their_cells() {
    assert_eq!(pad_to("ab", 4), "ab  ");
    assert_eq!(pad_to("abcdef", 4), "abcdef");
    assert_eq!(truncate("short", 10), "short");
    assert_eq!(truncate("a/long/path/name.rs", 8), "…name.rs");
    assert_eq!(truncate("abc", 1), "…");
    assert_eq!(truncate("abc", 0), "");
    assert_eq!(truncate("", 0), "");
    assert_eq!(text(&divider_of(NEON_CYAN)), format!("  ╾{}╼", "─".repeat(52)));
    assert_eq!(text(&scan_error_of("bad")), "  ✗ SCAN FAILED :: bad");
    assert_eq!(text(&report_row("SIZE", "5")), "  SIZE          5");
}

#[test]
fn bars_show_how_far_it_is() {
    let bar = render_scan_bar(512, 1_024, 1_000_000_000);
    assert_eq!(
        text(&bar),
        format!("\r  SCAN {}{}  50%       0.0 MiB/s", "█".repeat(15), "░".repeat(15))
    );
    assert_eq!(bar[3].look, Some((NEON_GREEN, Style::Regular)));
    let bar = render_batch_bar(3, 120, "dir/file.rs", 2 << 20, 1 << 20, 1_000_000_000);
    assert_eq!(
        text(&bar),
        format!(
            "\r\u{1b}[K  [03/120] {:<28} {} 100%       2.0 MiB/s",
            "dir/file.rs",
            "█".repeat(14)
        )
    );
    assert_eq!(
        text(&loading_frame_of("CORE     ", NEON_GREEN, 10)),
        format!("\r  CORE       {}{} ▏  33%", "█".repeat(10), "░".repeat(20))
    );
    assert_eq!(
        text(&loading_done_of("CORE     ", NEON_GREEN)),
        format!("\r  CORE       {} ▏ ✓ ONLINE   ", "█".repeat(30))
    );
    let mut v = vec![];
    loading_bar(&mut v, "X", NEON_GREEN);
    assert_eq!(v.len(), 63);
    assert_eq!(paused(&v), 31 * 22);
}

#[test]
fn rows_show_a_file() {
    let m = measurement("x", 3 << 20, 2_000_000_000);
    assert_eq!(
        text(&print_batch_row(1, 9, "x", &m)),
        format!("\r\u{1b}[K  [01/09] {:<28}    3.0 MiB         1.5 MiB/s  2 IRQ", "x")
    );
    assert_eq!(
        text(&print_batch_error(2, 9, "y", "gone")),
        format!("\r\u{1b}[K  [02/09] {:<28} ✗ gone", "y")
    );
}

#[test]
fn a_report_has_every_value() {
    let m = measurement("some/file", 3 << 20, 2_000_000_000);
    let lines = texts(&print_report(&m));
    let rule = format!("  ╾{}╼", "─".repeat(52));
    let bar = |n: usize| format!("{}{}", "█".repeat(n), "░".repeat(28 - n));
    assert_eq!(
        lines,
        vec![
            rule.clone(),
            "  TARGET        some/file".to_string(),
            "  SIZE          3145728 bytes".to_string(),
            "  READ MODE     cached".to_string(),
            "  WALL TIME     2000.000 ms".to_string(),
            "  THROUGHPUT    1.50 MiB/s".to_string(),
            "  CHUNKS        4".to_string(),
            "  READ LATENCY  avg 2500 ns · min 1000 ns · max 20000000 ns".to_string(),
            "  PERCENTILES   p50 5000 ns · p95 20000000 ns · p99 20000000 ns".to_string(),
            "  READ-BUSY     0.0% of wall time".to_string(),
            "  TIMER IRQS    2 (hw counter @ 1000000000 Hz)".to_string(),
            "  SAMPLES       0 captured".to_string(),
            "  READ-LATENCY DISTRIBUTION".to_string(),
            format!("    ≤ 1 µs {}     1", bar(14)),
            format!("    ≤ 5 µs {}     2", bar(28)),
            format!("   > 10 ms {}     1", bar(14)),
            rule,
        ]
    );
    let mut empty = measurement("e", 0, 0);
    empty.latency_buckets = [0; 14];
    empty.uncached = true;
    let lines = texts(&print_report(&empty));
    assert_eq!(lines.len(), 13);
    assert_eq!(lines[3], "  READ MODE     uncached (page cache bypassed)");
}

#[test]
fn a_bulk_report_has_every_value() {
    let b = BulkMeasurement {
        file_count: 7,
        bytes_read: 5 << 20,
        wall_nanos: 2_000_000_000,
        threads: 3,
        errors: 1,
        counter_hz: 24,
        counter_ticks: 99,
        uncached: true,
        per_thread: vec![],
    };
    let lines = texts(&print_bulk_report(&b));
    assert_eq!(
        lines[1..8].to_vec(),
        vec![
            "  FILES         7 · 1 failed",
            "  THREADS       3",
            "  READ MODE     uncached",
            "  TOTAL READ    5.0 MiB",
            "  WALL TIME     2000.000 ms",
            "  THROUGHPUT    2.50 MiB/s",
            "  HW COUNTER    99 ticks @ 24 Hz",
        ]
    );
}

fn sweep() -> SweepResult {
    let point = |chunk_size: usize, wall_nanos: u64| SweepPoint {
        chunk_size,
        bytes: 1 << 20,
        chunks: 1,
        wall_nanos,
        avg_chunk_nanos: 7,
    };
    SweepResult {
        path: "f".to_string(),
        size_bytes: 1 << 20,
        counter_hz: 1,
        uncached: false,
        points: vec![point(4_096, 4_000_000), point(16_384, 1_000_000), point(65_536, 200_000_000)],
    }
}

#[test]
fn a_sweep_report_marks_the_best() {
    let lines = print_sweep_report(&sweep());
    let bar = |n: usize| format!("{}{}", "█".repeat(n), "░".repeat(26 - n));
    assert_eq!(
        texts(&lines)[4..8].to_vec(),
        vec![
            "  THROUGHPUT BY BLOCK SIZE".to_string(),
            format!("    4.0 KiB {}      250 MiB/s ", bar(7)),
            format!("   16.0 KiB {}     1000 MiB/s ◀ best", bar(26)),
            format!("   64.0 KiB {}        5 MiB/s ", bar(1)),
        ]
    );
    assert_eq!(lines[6][3].look, Some((NEON_GREEN, Style::Regular)));
    assert_eq!(lines[5][3].look, Some((NEON_CYAN, Style::Regular)));
    assert_eq!(lines[5][8].look, None);
}

#[test]
fn the_menu_is_drawn_and_rewound() {
    let lines = draw_menu_items(1);
    assert_eq!(lines.len(), MENU_LINES_BEFORE_PROMPT);
    let t = texts(&lines);
    assert_eq!(t[0], format!("  ╔═ SELECT AN OPERATION {}╗", "═".repeat(30)));
    assert_eq!(t[1], format!("  ║{:<52}║", "    [1] RUN DAEMON"));
    assert_eq!(t[2], format!("  ║{:<52}║", "  ▸ [2] BULK THROUGHPUT"));
    assert_eq!(t[5], format!("  ║{:<52}║", "    [5] TERMINATE SESSION"));
    assert_eq!(t[6], format!("  ╚{}╝", "═".repeat(52)));
    assert_eq!(t[8], "   ↑/↓ navigate  ↵ execute  q abort");
    assert_eq!(lines[2][2].look, Some((NEON_YELLOW, Style::Bold)));
    assert_eq!(lines[1][2].look, Some((NEON_CYAN, Style::Regular)));
    assert_eq!(redraw_menu_items(), "\u{1b}[10A\r\u{1b}[J");
}

#[test]
fn keys_move_through_the_menu() {
    assert_eq!(press(0, Key::Up, false), (0, MenuReply::Stay));
    assert_eq!(press(0, Key::Down, false), (1, MenuReply::Redraw));
    assert_eq!(press(4, Key::Down, false), (4, MenuReply::Stay));
    assert_eq!(press(4, Key::Up, false), (3, MenuReply::Redraw));
    assert_eq!(press(0, Key::Down, true), (0, MenuReply::Stay));
    assert_eq!(press(0, Key::Enter, false), (0, MenuReply::Chosen(UiState::Run)));
    assert_eq!(press(1, Key::Enter, false), (1, MenuReply::Chosen(UiState::Bulk)));
    assert_eq!(press(2, Key::Enter, false), (2, MenuReply::Chosen(UiState::Sweep)));
    assert_eq!(press(3, Key::Enter, false), (3, MenuReply::Chosen(UiState::Export)));
    assert_eq!(press(4, Key::Enter, false), (4, MenuReply::Chosen(UiState::Exit)));
    assert_eq!(press(2, Key::Esc, false), (2, MenuReply::Chosen(UiState::Exit)));
    assert_eq!(press(2, Key::Char('q'), false), (2, MenuReply::Chosen(UiState::Exit)));
    assert_eq!(press(2, Key::Char('x'), false), (2, MenuReply::Stay));
    assert_eq!(press(2, Key::Other, false), (2, MenuReply::Stay));
}

#[test]
fn answers_are_read() {
    assert_eq!(prompt_path("  src \n", "."), "src");
    assert_eq!(prompt_path(" \n", "."), ".");
    for s in ["uncached", " U\n", "Cold", "nocache"] {
        assert!(prompt_uncached(s));
    }
    for s in ["", "cached", "uncache"] {
        assert!(!prompt_uncached(s));
    }
    assert_eq!(prompt_threads("\n", 999), 999);
    assert_eq!(prompt_threads("12\n", 4), 12);
    assert_eq!(prompt_threads("0", 4), 1);
    assert_eq!(prompt_threads("many", 4), 4);
    assert_eq!(prompt_threads("many", 999), 256);
    let f = prompt_filter("rs, .toml\n");
    assert!(f.skip_hidden);
    assert_eq!(f.extensions, vec!["rs", "toml"]);
}

#[test]
fn sentences_are_typed_through_the_palette() {
    let mut v = vec![];
    type_sentence(&mut v, "ab  c\nd", 5, &vec![1, 2]);
    assert_eq!(shown(&v), "ab  c \nd \n");
    assert_eq!(paused(&v), 4 * 5);
    let colours: Vec<u32> = v
        .iter()
        .filter_map(|p| match p {
            Print::Text(t) => t[0].look.map(|l| l.0),
            _ => None,
        })
        .collect();
    assert_eq!(colours, vec![1, 1, 2, 1]);
}

#[test]
fn the_word_mark_has_a_colour_per_letter() {
    let lines = print_title(&default_palette());
    assert_eq!(lines.len(), 7);
    for l in &lines {
        assert_eq!(l.len(), 7);
        assert!(l.iter().all(|s| s.text.chars().count() == 6));
        assert_eq!(l[0].look, Some((NEON_CYAN, Style::Bold)));
        assert_eq!(l[5].look, Some((NEON_CYAN, Style::Bold)));
        assert_eq!(l[6].look, Some((NEON_MAGENTA, Style::Bold)));
    }
    let short = title_row("abcdefgh", &vec![1]);
    assert_eq!(texts(&vec![short]), vec!["abcdefgh"]);
}

#[test]
fn a_banner_is_coloured_line_by_line() {
    assert!(print_custom_banner(" \n\n", &vec![1]).is_empty());
    let lines = print_custom_banner("one\r\ntwo\n\nfour\r", &vec![1, 2]);
    assert_eq!(texts(&lines), "one\r\ntwo\n\nfour\r".lines().collect::<Vec<_>>());
    assert_eq!(lines[2][0].look, Some((1, Style::Regular)));
    assert_eq!(lines[3][0].look, Some((2, Style::Regular)));
    assert_eq!(texts(&print_custom_banner("x\n", &vec![1])), vec!["x"]);
}

fn name(s: &str) -> Vec<Name> {
    s.split('/').map(|n| Name::Text(n.to_string())).collect()
}

fn raw() -> Vec<Name> {
    vec![Name::Raw { bytes: vec![255], shown: "\u{fffd}".to_string() }]
}

#[test]
fn a_batch_sorts_and_adds_up() {
    let files = vec![name("b"), raw(), name("d/a"), name("c")];
    let (mut b, v) = Batch::start("root", files, SortKey::Name);
    assert!(shown(&v).starts_with("  BATCH SCAN 4 files · root · by name\n"));
    assert!(shown(&v).contains("[01/04] b "));
    assert_eq!(b.due(), Some("root/b".to_string()));
    let m = measurement("root/b", 1 << 20, 1_000_000_000);
    assert!(b.has_room_for(&m));
    let v = b.on_measured(Ok(m));
    assert!(shown(&v).contains(&format!("[02/04] {:<28} ✗ non-UTF-8 path\n", "\u{fffd}")));
    assert_eq!(b.due(), Some("root/d/a".to_string()));
    assert!(text(&b.bar(1, 2, 0)).contains("[03/04] d/a "));
    let v = b.on_measured(Err("denied".to_string()));
    assert!(shown(&v).contains(&format!("[03/04] {:<28} ✗ denied\n", "d/a")));
    b.on_measured(Ok(measurement("root/c", 2 << 20, 1_000_000_000)));
    assert_eq!(b.due(), None);
    let (v, files) = b.finish();
    let t = shown(&v);
    assert!(t.starts_with(&format!(
        "\r\u{1b}[K\r\u{1b}[K  [01/04] {:<28}    1.0 MiB         1.0 MiB/s  2 IRQ\n\r\u{1b}[K  [04/04] ",
        "b"
    )));
    assert!(t.contains("  FILES         2 scanned · 2 failed\n  TOTAL SIZE    3.0 MiB\n  READ TIME     2000.000 ms\n  THROUGHPUT    1.50 MiB/s\n  CHUNKS        8\n  TIMER IRQS    4 (hw counter @ 1000000000 Hz)\n  SAMPLES       0 captured\n"));
    assert_eq!(files.iter().map(|m| m.path.as_str()).collect::<Vec<_>>(), vec!["root/b", "root/c"]);
}

#[test]
fn a_long_table_is_cut() {
    let files: Vec<Vec<Name>> = (0..25).map(|i| name(&format!("f{}", i))).collect();
    let (mut b, _) = Batch::start("r", files, SortKey::Size);
    for i in 0..25 {
        b.on_measured(Ok(measurement(&format!("r/f{}", i), i + 1, 1)));
    }
    let (v, files) = b.finish();
    assert!(shown(&v).contains("  … +5 more\n"));
    assert_eq!(files[0].path, "r/f24");
    assert_eq!(files.len(), 25);
}

#[test]
fn totals_are_kept() {
    let mut a = Aggregate::default();
    a.add(&measurement("x", 1 << 20, 500_000_000));
    a.add(&measurement("y", 1 << 20, 500_000_000));
    assert_eq!((a.files, a.bytes, a.chunks, a.irqs), (2, 2 << 20, 8, 4));
    assert_eq!(a.throughput_mib_s().fixed_of(2), "2.00");
    assert!(!a.has_room_for(&measurement("z", u64::MAX, 0)));
    assert_eq!(print_aggregate(&a).len(), 10);
}

fn at_menu() -> Ui {
    let mut ui = Ui::new(default_palette(), Some("exe".to_string()), 8);
    assert_eq!(ui.need(), Need::Tick);
    let boot = shown(&ui.update(""));
    assert!(boot.starts_with("\u{1b}[2J\u{1b}[1;1H ████"));
    assert!(boot.contains("  // P R O F I L E R :: SYSTEM DAEMON INTERFACE //\n\n"));
    assert!(boot.contains("INITIATING DAEMON... \nRUNNING STARTUP SCRIPTS... \n\n\r  BOOTSTRAP"));
    assert!(boot.contains("WELCOME TO THE SAWSKAS PROFILER MAINFRAME \n"));
    menu(&mut ui);
    ui
}

fn menu(ui: &mut Ui) {
    assert_eq!(ui.need(), Need::Tick);
    let t = shown(&ui.update(""));
    assert!(t.starts_with("\nAWAITING OPERATOR INPUT... \n\n  ╔"));
    assert!(t.ends_with("root@sawskas:~$ ▮ "));
    assert_eq!(ui.need(), Need::Key);
}

fn pick(ui: &mut Ui, row: usize) -> String {
    for _ in 0..row {
        let t = shown(&ui.on_key(Key::Down, false));
        assert!(t.starts_with("\u{1b}[10A\r\u{1b}[J  ╔"));
    }
    assert_eq!(shown(&ui.on_key(Key::Enter, false)), "\n");
    assert_eq!(ui.need(), Need::Tick);
    shown(&ui.update(""))
}

#[test]
fn one_file_is_profiled() {
    let mut ui = at_menu();
    let t = pick(&mut ui, 0);
    assert!(t.contains("DAEMON ONLINE. \nMONITORING SYSTEM PROCESSES... \n"));
    assert!(t.ends_with("\n  TARGET PATH [file or dir · default: exe]\n  › "));
    assert_eq!(ui.need(), Need::Answer);
    assert!(ui.on_answer("\n").is_empty());
    assert_eq!((ui.need(), ui.target()), (Need::Kind, "exe".to_string()));
    let t = shown(&ui.on_kind(false, true));
    assert_eq!(t, "  READ MODE [cached / uncached · blank = cached]\n  › ");
    assert_eq!(shown(&ui.on_answer("u\n")), "\n");
    assert!(ui.uncached());
    assert_eq!(ui.need(), Need::Collect);
    assert!(!ui.filter().skip_hidden);
    let t = shown(&ui.on_collected(Ok(vec![vec![]])));
    assert!(t.starts_with("\r  SCAN ░"));
    assert_eq!((ui.need(), ui.target()), (Need::Measure, "exe".to_string()));
    let p = Progress { bytes_read: 1, size_bytes: 2, elapsed_nanos: 3, interrupt_index: 1 };
    assert!(text(&ui.progress(p)).contains(" 50%"));
    let m = measurement("exe", 100, 1_000);
    assert!(ui.has_room_for(&m));
    let t = shown(&ui.on_measured(Ok(m)));
    assert!(t.contains("100%"));
    assert!(t.contains("  ✓ SCAN COMPLETE\n\n  ╾"));
    menu(&mut ui);
    let t = pick(&mut ui, 3);
    assert!(t.ends_with("  BASE NAME [blank = profiler-report]\n  › "));
    assert_eq!(shown(&ui.on_answer("out\n")), "\n");
    for (ending, start) in [("json", "{"), ("csv", "path,"), ("html", "<!DOCTYPE"), ("md", "# ")] {
        assert_eq!((ui.need(), ui.target()), (Need::Save, format!("out.{}", ending)));
        assert!(ui.document(9).unwrap().starts_with(start));
        if ending == "csv" {
            assert_eq!(
                shown(&ui.on_saved(Err("full".to_string()))),
                "  ✗ FAILED out.csv: full\n"
            );
        } else {
            assert_eq!(shown(&ui.on_saved(Ok(()))), format!("  ✓ WROTE out.{}\n", ending));
        }
    }
    assert!(ui.document(9).is_none());
    menu(&mut ui);
}

#[test]
fn a_directory_is_profiled() {
    let mut ui = at_menu();
    pick(&mut ui, 0);
    ui.on_answer("dir\n");
    let t = shown(&ui.on_kind(true, false));
    assert_eq!(t, "  FILTER [extensions e.g. rs,toml · blank = all]\n  › ");
    let t = shown(&ui.on_answer("rs\n"));
    assert_eq!(t, "  SORT [throughput · size · name · blank = throughput]\n  › ");
    assert_eq!(ui.filter().extensions, vec!["rs"]);
    ui.on_answer("size\n");
    ui.on_answer("\n");
    let t = shown(&ui.on_collected(Ok(vec![name("a"), name("b")])));
    assert!(t.starts_with("  BATCH SCAN 2 files · dir · largest first\n"));
    assert_eq!((ui.need(), ui.target()), (Need::Measure, "dir/a".to_string()));
    ui.on_measured(Ok(measurement("dir/a", 5, 5)));
    assert_eq!(ui.target(), "dir/b");
    let t = shown(&ui.on_measured(Err("denied".to_string())));
    assert!(t.contains("1 scanned · 1 failed"));
    menu(&mut ui);
    let t = pick(&mut ui, 3);
    assert!(t.contains("BASE NAME"));
}

#[test]
fn failures_go_back_to_the_menu() {
    let mut ui = at_menu();
    let t = pick(&mut ui, 3);
    assert!(t.ends_with("  ✗ SCAN FAILED :: no report yet — run a scan first\n"));
    menu(&mut ui);
    pick(&mut ui, 0);
    ui.on_answer("x");
    ui.on_kind(false, false);
    ui.on_answer("");
    assert_eq!(shown(&ui.on_collected(Err("gone".to_string()))), "  ✗ SCAN FAILED :: gone\n");
    menu(&mut ui);
    pick(&mut ui, 0);
    ui.on_answer("x");
    ui.on_kind(false, false);
    ui.on_answer("");
    assert_eq!(
        shown(&ui.on_collected(Ok(vec![]))),
        "  ✗ SCAN FAILED :: no files matched under that path\n"
    );
    menu(&mut ui);
    pick(&mut ui, 0);
    ui.on_answer("x");
    ui.on_kind(false, true);
    ui.on_answer("");
    ui.on_collected(Ok(vec![raw()]));
    assert_eq!(ui.target(), "x");
    assert_eq!(
        shown(&ui.on_measured(Err("bad".to_string()))),
        "\r\u{1b}[K  ✗ SCAN FAILED :: bad\n"
    );
    menu(&mut ui);
    pick(&mut ui, 2);
    ui.on_answer("dir");
    assert_eq!(
        shown(&ui.on_kind(true, false)),
        "\n  ✗ SCAN FAILED :: block-size sweep needs a single file\n"
    );
    menu(&mut ui);
    pick(&mut ui, 2);
    ui.on_answer("f");
    ui.on_kind(false, true);
    assert_eq!(
        shown(&ui.on_answer("cold")),
        "\n  SWEEPING reading at 4 KiB → 16 MiB block sizes (uncached)…\n"
    );
    assert_eq!(ui.need(), Need::Sweep);
    assert_eq!(shown(&ui.on_swept(Err("bad".to_string()))), "  ✗ SCAN FAILED :: bad\n");
    menu(&mut ui);
}

#[test]
fn bulk_and_sweep_are_reported() {
    let mut ui = at_menu();
    let t = pick(&mut ui, 1);
    assert!(t.contains("PARALLEL BULK-READ MODE... \n"));
    assert!(t.ends_with("  TARGET PATH [file or dir · default: .]\n  › "));
    ui.on_answer("\n");
    assert_eq!(ui.target(), ".");
    ui.on_kind(true, false);
    let t = shown(&ui.on_answer("\n"));
    assert_eq!(t, "  THREADS [1-256 · blank = 8]\n  › ");
    ui.on_answer("3\n");
    assert_eq!(ui.threads(), 3);
    ui.on_answer("\n");
    let t = shown(&ui.on_collected(Ok(vec![name("a")])));
    assert_eq!(t, "  BULK READ 1 files · 3 threads · working…\n");
    assert_eq!(ui.need(), Need::Bulk);
    let b = BulkMeasurement {
        file_count: 1,
        bytes_read: 1,
        wall_nanos: 1,
        threads: 3,
        errors: 0,
        counter_hz: 1,
        counter_ticks: 1,
        uncached: false,
        per_thread: vec![],
    };
    assert!(shown(&ui.on_bulk(b)).starts_with("  ✓ BULK COMPLETE\n\n"));
    menu(&mut ui);
    let t = pick(&mut ui, 2);
    assert!(t.contains("BLOCK-SIZE SWEEP... \n"));
    ui.on_answer("f\n");
    ui.on_kind(false, true);
    ui.on_answer("\n");
    assert_eq!((ui.need(), ui.target()), (Need::Sweep, "f".to_string()));
    assert_eq!(ui.begin_sweep().ok().unwrap().action(), SweepAction::Open);
    let mut s = sweep();
    assert!(!s.is_default());
    for chunk_size in [262_144, 1_048_576, 4_194_304, 16_777_216] {
        s.points.push(SweepPoint { chunk_size, ..s.points[0] });
    }
    assert!(s.is_default());
    let t = shown(&ui.on_swept(Ok(s)));
    assert!(t.starts_with("  ✓ SWEEP COMPLETE\n\n"));
    menu(&mut ui);
    pick(&mut ui, 3);
    ui.on_answer("\n");
    assert_eq!(ui.target(), "profiler-report.json");
    assert!(ui.document(0).unwrap().starts_with("{\"kind\":\"sweep\""));
}

#[test]
fn the_session_ends() {
    let mut ui = at_menu();
    let t = pick(&mut ui, 4);
    assert!(t.contains("INITIATING SHUTDOWN... \nKILLING THE CONNECTION... \n"));
    assert_eq!(ui.need(), Need::Exit(0));
    let mut ui = at_menu();
    assert_eq!(shown(&ui.on_key(Key::Char('q'), true)), "");
    ui.on_key(Key::Char('q'), false);
    ui.update("");
    assert_eq!(ui.need(), Need::Exit(0));
    let ui = Ui::new(vec![1], None, 2);
    assert_eq!(ui.need(), Need::Tick);
}
