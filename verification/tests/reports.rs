use sawskas_profiler::binary64::Binary64;
use sawskas_profiler::interrupt::bulk::{BulkMeasurement, ThreadStat};
use sawskas_profiler::interrupt::hardware_interrupt::FileMeasurement;
use sawskas_profiler::interrupt::random::RandomMeasurement;
use sawskas_profiler::interrupt::sweep::{SweepPoint, SweepResult};
use sawskas_profiler::interrupt::write::WriteMeasurement;
use sawskas_profiler::report::csv::field;
use sawskas_profiler::report::html::{bar_chart, cards, Bar};
use sawskas_profiler::report::{basename, ext_breakdown, files_fit, Format, Report, SortKey};
use sawskas_profiler::report::{csv, html, json, markdown};

const HZ: u64 = 1_000_000_000;

fn measurement(path: &str, bytes: u64, nanos: u64) -> FileMeasurement {
    FileMeasurement {
        path: path.to_string(),
        size_bytes: bytes,
        bytes_read: bytes,
        wall_nanos: nanos,
        read_ticks: 6_000,
        chunk_count: 3,
        min_chunk_ticks: 1_000,
        max_chunk_ticks: 3_000,
        latency_buckets: [1, 1, 1, 0, 0, 0, 0, 0, 0, 0, 0, 0, 0, 0],
        timer_interrupts: 2,
        counter_hz: HZ,
        uncached: false,
        samples: vec![],
    }
}

fn profile() -> Report {
    Report::Profile {
        root: "a \"root\"".to_string(),
        files: vec![
            measurement("a/b,c.rs", 1 << 20, 1_000_000_000),
            measurement("a/<x>.TXT", 3 << 19, 500_000_000),
        ],
    }
}

fn bulk() -> BulkMeasurement {
    BulkMeasurement {
        file_count: 3,
        bytes_read: 3 << 20,
        wall_nanos: 2_000_000_000,
        threads: 2,
        errors: 1,
        counter_hz: HZ,
        counter_ticks: 77,
        uncached: true,
        per_thread: vec![
            ThreadStat { index: 0, files: 2, bytes: 2 << 20, wall_nanos: 1_000_000_000 },
            ThreadStat { index: 1, files: 1, bytes: 1 << 20, wall_nanos: 0 },
        ],
    }
}

fn sweep() -> SweepResult {
    SweepResult {
        path: "big.bin".to_string(),
        size_bytes: 1 << 20,
        counter_hz: HZ,
        uncached: false,
        points: vec![
            SweepPoint {
                chunk_size: 4_096,
                bytes: 1 << 20,
                chunks: 256,
                wall_nanos: 10_000_000,
                avg_chunk_nanos: 39_062,
            },
            SweepPoint {
                chunk_size: 65_536,
                bytes: 1 << 20,
                chunks: 16,
                wall_nanos: 4_000_000,
                avg_chunk_nanos: 250_000,
            },
        ],
    }
}

fn write() -> WriteMeasurement {
    WriteMeasurement {
        path: "/tmp/x".to_string(),
        bytes: 64 << 20,
        chunk_size: 1 << 20,
        wall_nanos: 250_000_000,
        fsync_nanos: 12_345_678,
        counter_hz: HZ,
    }
}

fn random() -> RandomMeasurement {
    RandomMeasurement {
        path: "r".to_string(),
        block_size: 4_096,
        ops: 4_096,
        bytes: 16 << 20,
        wall_nanos: 81_920_000,
        avg_nanos: 20_000,
        p99_nanos: 55_555,
        uncached: true,
        counter_hz: HZ,
    }
}

#[test]
fn a_profile_is_written_as_json() {
    let file = |path: &str, bytes: u64, nanos: u64, rate: &str, busy: &str| {
        format!(
            "{{\"path\":\"{}\",\"size_bytes\":{},\"bytes_read\":{},\"wall_nanos\":{},\"throughput_mib_s\":{},\"uncached\":false,\"chunk_count\":3,\"avg_chunk_ns\":2000,\"min_chunk_ns\":1000,\"max_chunk_ns\":3000,\"p50_ns\":2000,\"p95_ns\":3000,\"p99_ns\":3000,\"read_busy_fraction\":{},\"timer_interrupts\":2,\"counter_hz\":1000000000,\"samples\":0,\"latency_histogram\":[{{\"max_ns\":1000,\"count\":1}},{{\"max_ns\":2000,\"count\":1}},{{\"max_ns\":5000,\"count\":1}},{{\"max_ns\":10000,\"count\":0}},{{\"max_ns\":20000,\"count\":0}},{{\"max_ns\":50000,\"count\":0}},{{\"max_ns\":100000,\"count\":0}},{{\"max_ns\":200000,\"count\":0}},{{\"max_ns\":500000,\"count\":0}},{{\"max_ns\":1000000,\"count\":0}},{{\"max_ns\":2000000,\"count\":0}},{{\"max_ns\":5000000,\"count\":0}},{{\"max_ns\":10000000,\"count\":0}},{{\"max_ns\":null,\"count\":0}}]}}",
            path, bytes, bytes, nanos, rate, busy
        )
    };
    assert_eq!(
        profile().to_json(),
        format!(
            "{{\"kind\":\"profile\",\"root\":\"a \\\"root\\\"\",\"file_count\":2,\"total_bytes\":2621440,\"files\":[{},{}]}}\n",
            file("a/b,c.rs", 1_048_576, 1_000_000_000, "1.0000", "0.0000"),
            file("a/<x>.TXT", 1_572_864, 500_000_000, "3.0000", "0.0000"),
        )
    );
}

#[test]
fn other_reports_are_written_as_json() {
    let b = Report::Bulk { root: "r".to_string(), bulk: bulk() };
    assert_eq!(
        json::render(&b),
        "{\"kind\":\"bulk\",\"root\":\"r\",\"threads\":2,\"uncached\":true,\"file_count\":3,\"bytes_read\":3145728,\"wall_nanos\":2000000000,\"throughput_mib_s\":1.5000,\"errors\":1,\"counter_hz\":1000000000,\"counter_ticks\":77,\"per_thread\":[{\"index\":0,\"files\":2,\"bytes\":2097152,\"wall_nanos\":1000000000,\"throughput_mib_s\":2.0000},{\"index\":1,\"files\":1,\"bytes\":1048576,\"wall_nanos\":0,\"throughput_mib_s\":0.0000}]}\n"
    );
    let s = Report::Sweep { sweep: sweep() };
    assert_eq!(
        s.to_json(),
        "{\"kind\":\"sweep\",\"path\":\"big.bin\",\"size_bytes\":1048576,\"counter_hz\":1000000000,\"uncached\":false,\"best_chunk_size\":65536,\"points\":[{\"chunk_size\":4096,\"bytes\":1048576,\"chunks\":256,\"wall_nanos\":10000000,\"avg_chunk_ns\":39062,\"throughput_mib_s\":100.0000},{\"chunk_size\":65536,\"bytes\":1048576,\"chunks\":16,\"wall_nanos\":4000000,\"avg_chunk_ns\":250000,\"throughput_mib_s\":250.0000}]}\n"
    );
    let mut none = sweep();
    none.points.clear();
    assert!(Report::Sweep { sweep: none }.to_json().contains("\"best_chunk_size\":null,\"points\":[]"));
    assert_eq!(
        Report::Write { write: write() }.to_json(),
        "{\"kind\":\"write\",\"path\":\"/tmp/x\",\"bytes\":67108864,\"chunk_size\":1048576,\"wall_nanos\":250000000,\"fsync_nanos\":12345678,\"throughput_mib_s\":256.0000,\"counter_hz\":1000000000}\n"
    );
    assert_eq!(
        Report::Random { random: random() }.to_json(),
        "{\"kind\":\"random\",\"path\":\"r\",\"block_size\":4096,\"ops\":4096,\"bytes\":16777216,\"wall_nanos\":81920000,\"iops\":50000.0,\"avg_ns\":20000,\"p99_ns\":55555,\"uncached\":true,\"counter_hz\":1000000000}\n"
    );
}

/// Reads a JSON value from `i` on: the texts in it, and where it ends.
fn read_json(c: &[char], i: usize, texts: &mut Vec<String>) -> usize {
    match c[i] {
        '"' => {
            let mut text = String::new();
            let mut k = i + 1;
            while c[k] != '"' {
                if c[k] == '\\' {
                    k += 1;
                    match c[k] {
                        'n' => text.push('\n'),
                        'r' => text.push('\r'),
                        't' => text.push('\t'),
                        'u' => {
                            let code: String = c[k + 1..k + 5].iter().collect();
                            text.push(
                                char::from_u32(u32::from_str_radix(&code, 16).unwrap()).unwrap(),
                            );
                            k += 4;
                        }
                        other => text.push(other),
                    }
                } else {
                    text.push(c[k]);
                }
                k += 1;
            }
            texts.push(text);
            k + 1
        }
        open @ ('[' | '{') => {
            let close = if open == '[' { ']' } else { '}' };
            let mut k = i + 1;
            while c[k] != close {
                k = read_json(c, k, texts);
                if open == '{' {
                    assert_eq!(c[k], ':');
                    k = read_json(c, k + 1, texts);
                }
                assert!(c[k] == ',' || c[k] == close);
                if c[k] == ',' {
                    k += 1;
                    assert!(c[k] != close);
                }
            }
            k + 1
        }
        _ => {
            let k = (i..c.len()).find(|k| ",]}\n".contains(c[*k])).unwrap();
            let word: String = c[i..k].iter().collect();
            assert!(
                matches!(word.as_str(), "null" | "true" | "false") || word.parse::<f64>().is_ok()
            );
            k
        }
    }
}

#[test]
fn json_reads_back() {
    let odd = "a\"b\\c\nd\u{1}/ü.rs";
    let reports = vec![
        Report::Profile { root: odd.to_string(), files: vec![measurement(odd, 1 << 20, 7)] },
        Report::Profile { root: odd.to_string(), files: vec![] },
        Report::Bulk { root: odd.to_string(), bulk: bulk() },
        Report::Sweep { sweep: SweepResult { path: odd.to_string(), ..sweep() } },
        Report::Write { write: WriteMeasurement { path: odd.to_string(), ..write() } },
        Report::Random { random: RandomMeasurement { path: odd.to_string(), ..random() } },
    ];
    for r in &reports {
        let document: Vec<char> = r.to_json().chars().collect();
        let mut texts = vec![];
        let end = read_json(&document, 0, &mut texts);
        assert_eq!(document[end..], ['\n']);
        assert_eq!(texts[0], "kind");
        assert_eq!(texts[3], odd);
    }
}

#[test]
fn json_strings_are_escaped() {
    assert_eq!(
        json::esc("a\"b\\c\nd\re\tf\u{1}\u{1f}ä/"),
        "a\\\"b\\\\c\\nd\\re\\tf\\u0001\\u001fä/"
    );
}

#[test]
fn reports_are_written_as_csv() {
    assert_eq!(
        profile().to_csv(),
        "path,size_bytes,bytes_read,wall_nanos,throughput_mib_s,chunk_count,avg_chunk_ns,min_chunk_ns,max_chunk_ns,read_busy_fraction,timer_interrupts,counter_hz\n\"a/b,c.rs\",1048576,1048576,1000000000,1.0000,3,2000,1000,3000,0.0000,2,1000000000\na/<x>.TXT,1572864,1572864,500000000,3.0000,3,2000,1000,3000,0.0000,2,1000000000\n"
    );
    assert_eq!(
        csv::render(&Report::Bulk { root: "r".to_string(), bulk: bulk() }),
        "thread_index,files,bytes,wall_nanos,throughput_mib_s\n0,2,2097152,1000000000,2.0000\n1,1,1048576,0,0.0000\n"
    );
    assert_eq!(
        Report::Sweep { sweep: sweep() }.to_csv(),
        "chunk_size,bytes,chunks,wall_nanos,avg_chunk_ns,throughput_mib_s\n4096,1048576,256,10000000,39062,100.0000\n65536,1048576,16,4000000,250000,250.0000\n"
    );
    assert_eq!(
        Report::Write { write: write() }.to_csv(),
        "path,bytes,chunk_size,wall_nanos,fsync_nanos,throughput_mib_s,counter_hz\n/tmp/x,67108864,1048576,250000000,12345678,256.0000,1000000000\n"
    );
    assert_eq!(
        Report::Random { random: random() }.to_csv(),
        "path,block_size,ops,bytes,wall_nanos,iops,avg_ns,p99_ns,uncached,counter_hz\nr,4096,4096,16777216,81920000,50000.0,20000,55555,true,1000000000\n"
    );
}

#[test]
fn csv_cells_are_quoted_where_needed() {
    assert_eq!(field("plain"), "plain");
    assert_eq!(field(""), "");
    assert_eq!(field("a,b"), "\"a,b\"");
    assert_eq!(field("say \"hi\""), "\"say \"\"hi\"\"\"");
    assert_eq!(field("a\nb"), "\"a\nb\"");
    assert_eq!(field("a\rb"), "\"a\rb\"");
}

/// Reads a table back: rows of cells.
fn read_table(text: &str) -> Vec<Vec<String>> {
    let mut rows = vec![];
    let mut row = vec![];
    let mut cell = String::new();
    let mut quoted = false;
    let mut chars = text.chars().peekable();
    while let Some(c) = chars.next() {
        if quoted {
            if c != '"' {
                cell.push(c);
            } else if chars.peek() == Some(&'"') {
                chars.next();
                cell.push('"');
            } else {
                quoted = false;
            }
        } else if c == '"' {
            quoted = true;
        } else if c == ',' || c == '\n' {
            row.push(cell);
            cell = String::new();
            if c == '\n' {
                rows.push(row);
                row = vec![];
            }
        } else {
            cell.push(c);
        }
    }
    rows
}

#[test]
fn csv_reads_back() {
    let paths = ["a,b", "\"", "x\ny", "", "plain", "\"\",\r\n\""];
    let r = Report::Profile {
        root: String::new(),
        files: paths.iter().map(|p| measurement(p, 5, 7)).collect(),
    };
    let rows = read_table(&r.to_csv());
    assert_eq!(rows.len(), paths.len() + 1);
    for (row, path) in rows[1..].iter().zip(paths) {
        assert_eq!(row.len(), 12);
        assert_eq!(row[0], path);
    }
}

#[test]
fn a_profile_is_written_as_markdown() {
    assert_eq!(
        profile().to_markdown(),
        "# Sawskas Profiler — profile report\n\n**Target:** `a \"root\"` · **Files:** 2 · **Total:** 2.5 MiB · **Throughput:** 1.7 MiB/s · **Mode:** cached\n\n| path | size | throughput | avg | p99 |\n|---|--:|--:|--:|--:|\n| `a/b,c.rs` | 1.0 MiB | 1.0 MiB/s | 2000 ns | 3000 ns |\n| `a/<x>.TXT` | 1.5 MiB | 3.0 MiB/s | 2000 ns | 3000 ns |\n\n## By type\n\n| ext | files | size | throughput |\n|---|--:|--:|--:|\n| rs | 1 | 1.0 MiB | 1.0 MiB/s |\n| txt | 1 | 1.5 MiB | 3.0 MiB/s |\n"
    );
    let one = Report::Profile { root: "r".to_string(), files: vec![measurement("a.rs", 1, 1)] };
    assert!(!one.to_markdown().contains("By type"));
}

#[test]
fn other_reports_are_written_as_markdown() {
    assert_eq!(
        markdown::render(&Report::Bulk { root: "r".to_string(), bulk: bulk() }),
        "# Sawskas Profiler — bulk throughput report\n\n**Target:** `r` · **Threads:** 2 · **Files:** 3 · **Total:** 3.0 MiB · **Throughput:** 1.5 MiB/s\n\n| thread | files | bytes | throughput |\n|--:|--:|--:|--:|\n| 0 | 2 | 2.0 MiB | 2.0 MiB/s |\n| 1 | 1 | 1.0 MiB | 0.0 MiB/s |\n"
    );
    assert_eq!(
        Report::Sweep { sweep: sweep() }.to_markdown(),
        "# Sawskas Profiler — block-size sweep\n\n**File:** `big.bin` · **Size:** 1.0 MiB · **Mode:** cached\n\n| block size | throughput | avg latency |\n|---|--:|--:|\n| 4.0 KiB | 100.0 MiB/s | 39062 ns |\n| 64.0 KiB | 250.0 MiB/s | 250000 ns |\n\n**Best block size:** 64.0 KiB\n"
    );
    assert_eq!(
        Report::Write { write: write() }.to_markdown(),
        "# Sawskas Profiler — write benchmark\n\n- **Bytes written:** 64.0 MiB\n- **Throughput:** 256.0 MiB/s\n- **Block size:** 1.0 MiB\n- **Wall time:** 250.00 ms\n- **fsync:** 12.35 ms\n"
    );
    assert_eq!(
        Report::Random { random: random() }.to_markdown(),
        "# Sawskas Profiler — random access\n\n- **IOPS:** 50000\n- **Ops:** 4096\n- **Block size:** 4.0 KiB\n- **Avg latency:** 20000 ns\n- **p99 latency:** 55555 ns\n- **Mode:** uncached\n"
    );
}

#[test]
fn html_text_is_escaped() {
    assert_eq!(html::esc("<a href=\"x\">&amp;</a>'"), "&lt;a href=&quot;x&quot;&gt;&amp;amp;&lt;/a&gt;'");
}

#[test]
fn charts_are_drawn_to_scale() {
    let bar = |label: &str, n: u64| Bar {
        label: label.to_string(),
        value: Binary64::from_u64(n),
        shown: n.to_string(),
    };
    let rows = vec![bar("a<", 10), bar("b", 3), bar("c", 0)];
    let row = |i: usize, label: &str, shown: &str, val: f64| {
        let w = ((val / 10.0) * 440.0).max(2.0);
        format!(
            "<rect x=\"250\" y=\"{}\" width=\"{:.1}\" height=\"18\" rx=\"3\" fill=\"#abc\" opacity=\"0.85\"><title>{}</title></rect><text x=\"240\" y=\"{}\" text-anchor=\"end\" class=\"blab\">{}</text><text x=\"{:.1}\" y=\"{}\" class=\"bval\">{}</text>",
            i * 30 + 12, w, shown, i * 30 + 26, label, 250.0 + w + 8.0, i * 30 + 26, shown
        )
    };
    assert_eq!(
        bar_chart("A & B", &rows, "#abc"),
        format!(
            "<section class=\"chart\"><h2>A &amp; B</h2><svg viewBox=\"0 0 800 106\" role=\"img\" preserveAspectRatio=\"xMinYMin meet\">{}{}{}</svg></section>",
            row(0, "a&lt;", "10", 10.0),
            row(1, "b", "3", 3.0),
            row(2, "c", "0", 0.0)
        )
    );
    assert_eq!(bar_chart("none", &vec![], "#abc"), "");
    assert_eq!(cards(&vec!["x".to_string()]), "<div class=\"cards\">x</div>");
}

#[test]
fn charts_take_every_finite_value() {
    // (mantissa, exponent): zero, the least double, the largest, a third of it
    let held = [(0u64, 0i32), (1, -1074), (0x1f_ffff_ffff_ffff, 971), (0x15_5555_5555_5555, 970)];
    let rows: Vec<Bar> = held
        .iter()
        .map(|(mantissa, exponent)| Bar {
            label: "l".to_string(),
            value: Binary64 { mantissa: *mantissa, exponent: *exponent },
            shown: "s".to_string(),
        })
        .collect();
    let values: Vec<f64> = rows.iter().map(|r| f64::from_bits(r.value.bits())).collect();
    assert_eq!(values, vec![0.0, 5e-324, f64::MAX, f64::MAX / 3.0]);
    let chart = bar_chart("t", &rows, "#abc");
    for (i, v) in values.iter().enumerate() {
        let w = ((v / f64::MAX) * 440.0).max(2.0);
        assert!(chart.contains(&format!("y=\"{}\" width=\"{:.1}\"", i * 30 + 12, w)));
        assert!(chart.contains(&format!("<text x=\"{:.1}\" y=\"{}\" class", 258.0 + w, i * 30 + 26)));
    }
    let tiny = vec![Bar {
        label: "l".to_string(),
        value: Binary64 { mantissa: 1, exponent: -1074 },
        shown: "s".to_string(),
    }];
    assert!(bar_chart("t", &tiny, "#abc").contains("width=\"2.0\""));
}

#[test]
fn pages_are_complete() {
    let page = profile().to_html(1_700_000_000);
    assert!(page.starts_with("<!DOCTYPE html>\n<html lang=\"en\"><head><meta charset=\"utf-8\">\n"));
    assert!(page.contains("<title>SAWSKAS PROFILER · Profile</title>"));
    assert!(page.contains("Profile report · target <b>a &quot;root&quot;</b>"));
    assert!(page.contains("new Date(1700000000000).toLocaleString();"));
    assert!(page.contains("<div class=\"clab\">AGG THROUGHPUT</div><div class=\"cval\">1.7 MiB/s</div>"));
    assert!(page.contains("<div class=\"clab\">READ TIME</div><div class=\"cval\">1500.00 ms</div>"));
    assert!(page.contains("<td>a/&lt;x&gt;.TXT</td>"));
    assert!(page.contains("class=\"blab\">≤ 1 µs</text>"));
    assert!(page.contains("svg { width:100%; height:auto; }"));
    assert!(page.ends_with("</script>\n</body></html>\n"));
    let slow = page.find("b,c.rs</text>").unwrap();
    let fast = page.find("&lt;x&gt;.TXT</text>").unwrap();
    assert!(slow < fast);
    let b = html::render(&Report::Bulk { root: "r".to_string(), bulk: bulk() }, 0);
    assert!(b.contains("<div class=\"cval\">3 · 1 failed</div>"));
    assert!(b.contains("thread 0 (2 files)"));
    assert!(b.contains("new Date(0000)"));
    let s = Report::Sweep { sweep: sweep() }.to_html(1);
    assert!(s.contains("<div class=\"cval\">64.0 KiB → 250 MiB/s</div>"));
    assert!(s.contains("39 µs"));
    let w = Report::Write { write: write() }.to_html(1);
    assert!(w.contains("<div class=\"clab\">FSYNC</div><div class=\"cval\">12.35 ms</div>"));
    let r = Report::Random { random: random() }.to_html(1);
    assert!(r.contains("<div class=\"clab\">IOPS</div><div class=\"cval\">50000</div>"));
}

#[test]
fn only_the_slowest_thirty_files_are_drawn() {
    let files: Vec<FileMeasurement> =
        (0..40).map(|i| measurement(&format!("d/f{}", i), 1_000_000 - i * 1_000, 1_000_000)).collect();
    let page = Report::Profile { root: "r".to_string(), files }.to_html(0);
    assert!(page.contains("class=\"blab\">f39</text>"));
    assert!(page.contains("class=\"blab\">f10</text>"));
    assert!(!page.contains("class=\"blab\">f9</text>"));
}

#[test]
fn files_are_sorted_by_the_key() {
    let files = || {
        vec![
            measurement("b", 100, 10),
            measurement("a", 300, 30),
            measurement("c", 200, 200),
            measurement("B", 100, 10),
        ]
    };
    let names = |v: &Vec<FileMeasurement>| v.iter().map(|m| m.path.clone()).collect::<Vec<_>>();
    let mut v = files();
    SortKey::Throughput.sort(&mut v);
    assert_eq!(names(&v), vec!["c", "b", "a", "B"]);
    let mut v = files();
    SortKey::Size.sort(&mut v);
    assert_eq!(names(&v), vec!["a", "c", "b", "B"]);
    let mut v = files();
    SortKey::Name.sort(&mut v);
    assert_eq!(names(&v), vec!["B", "a", "b", "c"]);
    let mut none = vec![];
    SortKey::Name.sort(&mut none);
    assert!(none.is_empty());
}

#[test]
fn sort_keys_are_read_and_named() {
    for (word, key) in [
        (" Size \n", SortKey::Size),
        ("s", SortKey::Size),
        ("NAME", SortKey::Name),
        ("n", SortKey::Name),
        ("", SortKey::Throughput),
        ("anything", SortKey::Throughput),
    ] {
        assert_eq!(SortKey::parse(word), key);
    }
    assert_eq!(SortKey::Throughput.label(), "slowest throughput first");
    assert_eq!(SortKey::Size.label(), "largest first");
    assert_eq!(SortKey::Name.label(), "by name");
}

#[test]
fn types_are_broken_down() {
    let files = vec![
        measurement("x/a.RS", 10, 1),
        measurement("b", 20, 2),
        measurement("c.rs", 30, 3),
        measurement(".hidden", 40, 4),
        measurement("y.d/z.tar.gz", 50, 5),
    ];
    let groups = ext_breakdown(&files);
    let shown: Vec<(String, usize, u64, u64)> =
        groups.iter().map(|g| (g.ext.clone(), g.files, g.bytes, g.wall_nanos)).collect();
    assert_eq!(
        shown,
        vec![
            ("rs".to_string(), 2, 40, 4),
            ("(none)".to_string(), 2, 60, 6),
            ("gz".to_string(), 1, 50, 5),
        ]
    );
    assert_eq!(basename("a/b\\c"), "c");
    assert_eq!(basename("plain"), "plain");
    assert_eq!(basename("dir/"), "");
}

#[test]
fn sums_are_checked() {
    let mut files = vec![measurement("a", u64::MAX, 1), measurement("b", 0, 1)];
    assert!(files_fit(&files));
    files.push(measurement("c", 1, 1));
    assert!(!files_fit(&files));
    assert!(!Report::Profile { root: String::new(), files }.fits());
    let mut full = vec![measurement("a", 1, 1), measurement("b", 1, 1)];
    full[0].latency_buckets[13] = u64::MAX;
    assert!(files_fit(&full));
    full[1].latency_buckets[13] = 1;
    assert!(!files_fit(&full));
    assert!(Report::Write { write: write() }.fits());
}

#[test]
fn formats_have_their_endings() {
    let r = Report::Random { random: random() };
    assert_eq!(Format::Json.extension(), "json");
    assert_eq!(Format::Markdown.extension(), "md");
    assert_eq!(Format::Json.render(&r, 5), r.to_json());
    assert_eq!(Format::Csv.render(&r, 5), r.to_csv());
    assert_eq!(Format::Html.render(&r, 5), r.to_html(5));
    assert_eq!(Format::Markdown.render(&r, 5), r.to_markdown());
}
