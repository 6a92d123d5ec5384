use sawskas_profiler::interrupt::bulk::{
    bulk_plan, clamp_threads, measure_bulk, totals_fit, worker_report, BulkTimes, WorkerTally,
};
use sawskas_profiler::interrupt::hardware_interrupt::{
    arm_timer, clock_nanos, counter_frequency, disarm_timer, latency_bucket, passed_between,
    ticks_to_nanos, timeval_from_duration, FileMeasurement, Progress, SampleInterval, Timeval,
    LATENCY_BOUNDS_NS, LATENCY_BUCKETS, READ_CHUNK,
};
use sawskas_profiler::interrupt::lease::Lease;
use sawskas_profiler::interrupt::pass::{Pass, PassCounts, ReadReply};
use sawskas_profiler::interrupt::random::{
    next_random_of, offset_of, random_bench, RandomAction, RandomEvent, RandomMeasurement,
};
use sawskas_profiler::interrupt::session::{
    contains_nul, measure_file, measure_file_with, Action, Event, Interrupt, MeasureError, Session,
};
use sawskas_profiler::interrupt::sweep::{
    sweep_file, Sweep, SweepAction, SweepEvent, SweepPoint, SweepResult, DEFAULT_SWEEP_SIZES,
};
use sawskas_profiler::interrupt::write::{
    scratch_path, write_bench, WriteAction, WriteEvent, WriteMeasurement, ENOSPC,
};

const ENOENT: i32 = 2;
const EINTR: i32 = 4;
const EIO: i32 = 5;
const HZ: u64 = 24_000_000;

/// A machine in memory: files with their sizes, a clock and a counter that runs
/// with it.
struct Machine {
    files: Vec<(&'static str, u64)>,
    now: u64,
    position: u64,
    size: u64,
    fired: u64,
    interrupted: bool,
    calls: Vec<Action>,
}

impl Machine {
    fn new(files: Vec<(&'static str, u64)>) -> Machine {
        Machine {
            files,
            now: 1_000_000,
            position: 0,
            size: 0,
            fired: 0,
            interrupted: false,
            calls: vec![],
        }
    }

    fn ticks(&self) -> u64 {
        self.now * 24 / 1_000
    }

    fn find(&self, path: &str) -> Option<u64> {
        self.files.iter().find(|f| f.0 == path).map(|f| f.1)
    }

    fn read(&mut self, chunk: u64) -> Option<(u64, u64, u64)> {
        let left = self.size - self.position;
        if left == 0 {
            return None;
        }
        let bytes = left.min(chunk);
        let start = self.ticks();
        self.now += 40_000 + bytes / 10;
        self.position += bytes;
        Some((bytes, start, self.ticks()))
    }
}

fn drive(
    machine: &mut Machine,
    path: &str,
    session: Result<Session, MeasureError>,
) -> Result<(FileMeasurement, Vec<Progress>), MeasureError> {
    let mut s = session?;
    let mut shown = vec![];
    loop {
        machine.calls.push(s.action());
        let event = match s.action() {
            Action::Open => match machine.find(path) {
                Some(size) => {
                    machine.size = size;
                    Event::Done(3)
                }
                None => Event::Failed(ENOENT),
            },
            Action::BypassCache => Event::Failed(EIO),
            Action::SeekEnd => Event::Done(machine.size),
            Action::Rewind => {
                machine.position = 0;
                Event::Done(0)
            }
            Action::Calibrate => Event::Done(HZ),
            Action::InstallHandler | Action::ArmTimer => Event::Done(0),
            Action::StartClock => Event::Done(machine.now),
            Action::Read => {
                if !machine.interrupted {
                    machine.interrupted = true;
                    Event::Failed(EINTR)
                } else {
                    match machine.read(READ_CHUNK as u64) {
                        Some((bytes, start_ticks, end_ticks)) => {
                            let interrupt = if (machine.position / READ_CHUNK as u64) % 2 == 0 {
                                machine.fired += 1;
                                Some(Interrupt { now: machine.now, index: machine.fired })
                            } else {
                                None
                            };
                            Event::Chunk { bytes, start_ticks, end_ticks, interrupt }
                        }
                        None => Event::EndOfFile { now: machine.now },
                    }
                }
            }
            Action::Disarm => Event::Done(machine.fired),
            Action::Finish => return s.finish().map(|m| (m, shown)),
        };
        assert!(s.has_room_for(event));
        if let Some(p) = s.step(event) {
            shown.push(p);
        }
    }
}

fn micros(n: u64) -> SampleInterval {
    SampleInterval { secs: n / 1_000_000, nanos: (n % 1_000_000) as u32 * 1_000 }
}

#[test]
fn measures_a_real_file() {
    let mut machine = Machine::new(vec![("Cargo.toml", 291)]);
    let (m, _) = drive(&mut machine, "Cargo.toml", measure_file("Cargo.toml", micros(500), false))
        .expect("measurement failed");
    assert!(m.size_bytes > 0);
    assert_eq!(m.bytes_read, m.size_bytes);
    assert!(m.chunk_count >= 1);
    assert!(m.counter_hz > 0);
}

#[test]
fn missing_file_is_an_error() {
    let mut machine = Machine::new(vec![("Cargo.toml", 291)]);
    let r = drive(
        &mut machine,
        "definitely/not/here.xyz",
        measure_file("definitely/not/here.xyz", micros(1_000), false),
    );
    assert!(r.is_err());
    assert_eq!(r.err(), Some(MeasureError::Os(ENOENT)));
    assert_eq!(machine.calls, vec![Action::Open, Action::Finish]);
}

#[test]
fn latency_histogram_accounts_for_every_chunk() {
    let mut machine = Machine::new(vec![("Cargo.toml", 1_500_000)]);
    let (m, _) = drive(&mut machine, "Cargo.lock", measure_file("Cargo.lock", micros(1_000), false))
        .or_else(|_| {
            drive(&mut machine, "Cargo.toml", measure_file("Cargo.toml", micros(1_000), false))
        })
        .unwrap();
    let bucketed: u64 = m.latency_buckets.iter().sum();
    assert_eq!(
        bucketed, m.chunk_count,
        "every measured chunk must land in exactly one bucket"
    );
    assert_eq!(m.chunk_count, 6);
}

#[test]
fn a_session_makes_its_calls_in_order() {
    let mut machine = Machine::new(vec![("a", 600_000)]);
    let (m, shown) = drive(&mut machine, "a", measure_file_with("a", micros(500), true, false))
        .unwrap();
    assert_eq!(
        machine.calls,
        vec![
            Action::Open,
            Action::BypassCache,
            Action::SeekEnd,
            Action::Rewind,
            Action::Calibrate,
            Action::InstallHandler,
            Action::ArmTimer,
            Action::StartClock,
            Action::Read,
            Action::Read,
            Action::Read,
            Action::Read,
            Action::Read,
            Action::Disarm,
            Action::Finish,
        ]
    );
    assert!(m.uncached);
    assert_eq!(m.path, "a");
    assert_eq!(m.chunk_count, 3);
    assert_eq!(m.timer_interrupts, 2);
    assert_eq!(m.samples.len(), 2);
    assert_eq!(shown.len(), 2);
    assert_eq!(shown[0].bytes_read, 524_288);
    assert_eq!(shown[0].size_bytes, 600_000);
    assert_eq!(shown[0].elapsed_nanos, 2 * 40_000 + 52_428);
    assert_eq!(m.samples[1].bytes, 600_000);
    assert_eq!(m.wall_nanos, 3 * 40_000 + 26_214 + 26_214 + 7_571);
}

#[test]
fn a_session_needs_the_timer_and_a_proper_path() {
    assert_eq!(
        measure_file("a", micros(500), true).err(),
        Some(MeasureError::Busy)
    );
    assert_eq!(
        measure_file("a\0b", micros(500), false).err(),
        Some(MeasureError::NulInPath)
    );
    assert_eq!(
        MeasureError::Busy.message(),
        Some("another measurement is already in progress")
    );
    assert_eq!(MeasureError::NulInPath.message(), Some("path contains a NUL byte"));
    assert_eq!(MeasureError::Os(EIO).message(), None);
    assert!(contains_nul("\0"));
    assert!(!contains_nul("plain"));
}

#[test]
fn one_measurement_runs_at_a_time() {
    let mut lease = Lease::new();
    let first = lease.begin("a", micros(500), false);
    assert!(first.is_ok());
    assert_eq!(lease.begin("b", micros(500), false).err(), Some(MeasureError::Busy));
    assert_eq!(lease.begin("\0", micros(500), false).err(), Some(MeasureError::Busy));
    assert_eq!(first.ok().unwrap().action(), Action::Open);
    lease.end();
    assert_eq!(lease.begin("\0", micros(500), false).err(), Some(MeasureError::NulInPath));
    let second = lease.begin("b", micros(500), true).ok().unwrap();
    assert_eq!(second.action(), Action::Open);
    lease.end();
    assert!(lease.begin("a", micros(500), false).is_ok());
}

#[test]
fn the_timer_is_disarmed_after_a_failed_read() {
    let mut s = measure_file("a", micros(500), false).ok().unwrap();
    for event in [
        Event::Done(3),
        Event::Done(100),
        Event::Done(0),
        Event::Done(HZ),
        Event::Done(0),
        Event::Done(0),
        Event::Done(5),
    ] {
        s.step(event);
    }
    assert_eq!(s.action(), Action::Read);
    s.step(Event::Failed(EINTR));
    assert_eq!(s.action(), Action::Read);
    s.step(Event::Failed(EIO));
    assert_eq!(s.action(), Action::Disarm);
    s.step(Event::Done(1));
    assert_eq!(s.action(), Action::Finish);
    assert_eq!(s.finish().err(), Some(MeasureError::Os(EIO)));
}

#[test]
fn means_and_samples_are_in_order() {
    let mut machine = Machine::new(vec![("f", 5 * READ_CHUNK as u64 + 17)]);
    let session = measure_file("f", micros(500), false);
    let (m, _) = drive(&mut machine, "f", session).ok().unwrap();
    assert!(m.min_chunk_nanos() < m.avg_chunk_nanos());
    assert!(m.avg_chunk_nanos() < m.max_chunk_nanos());
    let bytes: Vec<u64> = m.samples.iter().map(|s| s.bytes).collect();
    assert_eq!(bytes, vec![2 * READ_CHUNK as u64, 4 * READ_CHUNK as u64]);
}

#[test]
fn bypassing_the_cache_is_best_effort() {
    for reply in [Event::Done(0), Event::Failed(EIO)] {
        let mut s = measure_file_with("a", micros(500), true, false).ok().unwrap();
        s.step(Event::Done(3));
        assert_eq!(s.action(), Action::BypassCache);
        s.step(reply);
        assert_eq!(s.action(), Action::SeekEnd);
    }
}

#[test]
fn a_session_says_where_there_is_no_room() {
    let mut s = measure_file("a", micros(500), false).ok().unwrap();
    for event in [
        Event::Done(3),
        Event::Done(100),
        Event::Done(0),
        Event::Done(HZ),
        Event::Done(0),
        Event::Done(0),
        Event::Done(5),
    ] {
        s.step(event);
    }
    let big = Event::Chunk { bytes: u64::MAX, start_ticks: 0, end_ticks: 1, interrupt: None };
    assert!(s.has_room_for(big));
    s.step(big);
    assert!(!s.has_room_for(big));
}

fn measurement(path: &str, bytes: u64, nanos: u64) -> FileMeasurement {
    FileMeasurement {
        path: path.to_string(),
        size_bytes: bytes,
        bytes_read: bytes,
        wall_nanos: nanos,
        read_ticks: 240,
        chunk_count: 4,
        min_chunk_ticks: 24,
        max_chunk_ticks: 120,
        latency_buckets: [1, 1, 2, 0, 0, 0, 0, 0, 0, 0, 0, 0, 0, 0],
        timer_interrupts: 3,
        counter_hz: HZ,
        uncached: false,
        samples: vec![],
    }
}

#[test]
fn latencies_come_from_the_counter() {
    let m = measurement("a", 1 << 20, 1_000_000_000);
    assert_eq!(m.avg_chunk_nanos(), 2_500);
    assert_eq!(m.min_chunk_nanos(), 1_000);
    assert_eq!(m.max_chunk_nanos(), 5_000);
    assert_eq!(m.throughput_mib_s().fixed_of(4), "1.0000");
    assert_eq!(m.read_busy_fraction().bits(), (10_000f64 / 1e9).to_bits());
    let mut none = measurement("a", 0, 0);
    none.chunk_count = 0;
    assert_eq!(none.avg_chunk_nanos(), 0);
    assert_eq!(none.throughput_mib_s().bits(), 0f64.to_bits());
    assert_eq!(none.read_busy_fraction().bits(), 0f64.to_bits());
    let mut busy = measurement("a", 1, 1_000_000_000);
    busy.counter_hz = 1;
    busy.read_ticks = 1;
    assert_eq!(busy.read_busy_fraction().bits(), 1f64.to_bits());
    busy.read_ticks = 2;
    assert_eq!(busy.read_busy_fraction().bits(), 1f64.to_bits());
    busy.counter_hz = 4;
    assert_eq!(busy.read_busy_fraction().bits(), 0.5f64.to_bits());
}

#[test]
fn the_mean_lies_between_the_extremes() {
    let mut m = measurement("a", 1 << 20, 1_000_000_000);
    assert!(m.min_chunk_nanos() <= m.avg_chunk_nanos());
    assert!(m.avg_chunk_nanos() <= m.max_chunk_nanos());
    m.counter_hz = 0;
    assert_eq!((m.min_chunk_nanos(), m.avg_chunk_nanos(), m.max_chunk_nanos()), (0, 0, 0));
}

#[test]
fn percentiles_come_from_the_histogram() {
    let m = measurement("a", 100, 100);
    assert_eq!(m.percentiles_ns(&[0, 25, 26, 50, 51, 95, 99, 100]), vec![
        1_000, 1_000, 2_000, 2_000, 5_000, 5_000, 5_000, 5_000
    ]);
    let mut top = measurement("a", 100, 100);
    top.max_chunk_ticks = 96;
    assert_eq!(top.percentiles_ns(&[100]), vec![4_000]);
    let mut none = measurement("a", 100, 100);
    none.latency_buckets = [0; LATENCY_BUCKETS];
    assert_eq!(none.percentiles_ns(&[50, 99]), vec![0, 0]);
}

#[test]
fn a_measurement_has_a_summary() {
    let m = measurement("some/file", 3 << 20, 2_000_000_000);
    assert_eq!(
        m.summary(),
        "── FILE MEASUREMENT ─────────────────────────\n  path            some/file\n  size            3145728 bytes\n  read            3145728 bytes\n  wall time       2000.000 ms\n  throughput      1.50 MiB/s\n  chunks          4\n  read latency    avg 2500 ns · min 1000 ns · max 5000 ns\n  read-busy       0.0% of wall time\n  timer IRQs      3 (hw counter @ 24000000 Hz)\n  samples         0 captured"
    );
}

#[test]
fn buckets_have_inclusive_upper_bounds() {
    assert_eq!(latency_bucket(0), 0);
    for i in 0..LATENCY_BOUNDS_NS.len() {
        assert_eq!(latency_bucket(LATENCY_BOUNDS_NS[i]), i);
        assert_eq!(latency_bucket(LATENCY_BOUNDS_NS[i] + 1), i + 1);
    }
    assert_eq!(latency_bucket(u64::MAX), LATENCY_BUCKETS - 1);
}

#[test]
fn clocks_and_counters_are_converted() {
    assert_eq!(ticks_to_nanos(24, HZ), 1_000);
    assert_eq!(ticks_to_nanos(24, 0), 0);
    assert_eq!(ticks_to_nanos(u64::MAX, 1_000_000_000), u64::MAX);
    assert_eq!(ticks_to_nanos(u64::MAX, 1), (u64::MAX as u128 * 1_000_000_000) as u64);
    assert_eq!(counter_frequency(480_000, 20_000_000), HZ);
    assert_eq!(counter_frequency(480_000, 0), 0);
    assert_eq!(clock_nanos(3, 7), 3_000_000_007);
    assert_eq!(clock_nanos(-1, 0), (-1i64 as u64).wrapping_mul(1_000_000_000));
    assert_eq!(passed_between(5, 12), 7);
    assert_eq!(passed_between(12, 5), 5u64.wrapping_sub(12));
}

#[test]
fn timer_settings_are_whole_microseconds() {
    assert_eq!(
        timeval_from_duration(SampleInterval { secs: 2, nanos: 1_999 }),
        Timeval { tv_sec: 2, tv_usec: 1 }
    );
    assert_eq!(arm_timer(micros(500)), Timeval { tv_sec: 0, tv_usec: 500 });
    assert_eq!(
        arm_timer(SampleInterval { secs: 0, nanos: 0 }),
        Timeval { tv_sec: 0, tv_usec: 1 }
    );
    for nanos in [1, 500, 999, 1_000, 1_999] {
        assert_eq!(
            arm_timer(SampleInterval { secs: 0, nanos }),
            Timeval { tv_sec: 0, tv_usec: 1 }
        );
    }
    assert_eq!(
        arm_timer(SampleInterval { secs: 1, nanos: 500 }),
        Timeval { tv_sec: 1, tv_usec: 0 }
    );
    assert_eq!(disarm_timer(), Timeval { tv_sec: 0, tv_usec: 0 });
}

#[test]
fn a_pass_reads_to_the_end() {
    let p = Pass::start()
        .step(ReadReply::Chunk { bytes: 10, start_ticks: 1, end_ticks: 4 })
        .step(ReadReply::Failed(EINTR))
        .step(ReadReply::Chunk { bytes: 5, start_ticks: 4, end_ticks: 9 });
    assert_eq!(p, Pass::Reading(PassCounts { bytes: 15, chunks: 2, ticks: 8 }));
    assert!(p.has_room_for(ReadReply::EndOfFile));
    assert_eq!(
        p.step(ReadReply::EndOfFile),
        Pass::Complete(PassCounts { bytes: 15, chunks: 2, ticks: 8 })
    );
    assert_eq!(p.step(ReadReply::Failed(EIO)), Pass::Broken(EIO));
    assert!(!p.has_room_for(ReadReply::Chunk { bytes: u64::MAX, start_ticks: 0, end_ticks: 0 }));
}

fn run_sweep(machine: &mut Machine, path: &str, sizes: &[usize]) -> Result<SweepResult, MeasureError> {
    let mut s: Sweep = sweep_file(path, sizes, false)?;
    loop {
        let event = match s.action() {
            SweepAction::Open => match machine.find(path) {
                Some(size) => {
                    machine.size = size;
                    SweepEvent::Done(3)
                }
                None => SweepEvent::Failed(ENOENT),
            },
            SweepAction::SeekEnd => SweepEvent::Done(machine.size),
            SweepAction::Calibrate => SweepEvent::Done(HZ),
            SweepAction::BypassCache => SweepEvent::Done(0),
            SweepAction::StartPass | SweepAction::EndPass => SweepEvent::Done(machine.ticks()),
            SweepAction::Rewind => {
                machine.position = 0;
                SweepEvent::Done(0)
            }
            SweepAction::Read => match machine.read(s.chunk_size() as u64) {
                Some((bytes, start_ticks, end_ticks)) => {
                    SweepEvent::Chunk { bytes, start_ticks, end_ticks }
                }
                None => SweepEvent::EndOfFile,
            },
            SweepAction::Finish => return s.finish(),
        };
        assert!(s.has_room_for(event));
        s.step(event);
    }
}

#[test]
fn sweep_reads_full_file_at_every_size() {
    let mut machine = Machine::new(vec![("Cargo.toml", 3_000_000)]);
    let sizes = [4 * 1024, 64 * 1024, 1024 * 1024];
    let s = run_sweep(&mut machine, "Cargo.lock", &sizes)
        .or_else(|_| run_sweep(&mut machine, "Cargo.toml", &sizes))
        .unwrap();
    assert_eq!(s.points.len(), sizes.len());
    for p in &s.points {
        assert_eq!(p.bytes, s.size_bytes, "each pass must read the whole file");
    }
    assert!(s.best().is_some());
    assert!(s.counter_hz > 0);
    assert_eq!(s.points[0].chunks, 733);
    assert_eq!(s.points[2].chunks, 3);
    assert_eq!(s.best().unwrap().chunk_size, 1024 * 1024);
}

#[test]
fn a_sweep_reports_what_fails() {
    let mut machine = Machine::new(vec![]);
    assert_eq!(
        run_sweep(&mut machine, "a", &DEFAULT_SWEEP_SIZES).err(),
        Some(MeasureError::Os(ENOENT))
    );
    assert_eq!(
        sweep_file("a\0", &DEFAULT_SWEEP_SIZES, false).err(),
        Some(MeasureError::NulInPath)
    );
    let mut s = sweep_file("a", &[0], false).ok().unwrap();
    s.step(SweepEvent::Done(3));
    s.step(SweepEvent::Failed(EIO));
    assert_eq!(s.finish().err(), Some(MeasureError::Os(EIO)));
}

#[test]
fn the_last_of_equal_points_is_best() {
    let point = |chunk_size: usize, wall_nanos: u64| SweepPoint {
        chunk_size,
        bytes: 1_000,
        chunks: 1,
        wall_nanos,
        avg_chunk_nanos: 1,
    };
    let mut s = SweepResult {
        path: "a".to_string(),
        size_bytes: 1_000,
        counter_hz: HZ,
        uncached: false,
        points: vec![point(1, 9), point(2, 5), point(3, 5), point(4, 8)],
    };
    assert_eq!(s.best().unwrap().chunk_size, 3);
    s.points.clear();
    assert!(s.best().is_none());
}

#[test]
fn bulk_reads_every_byte() {
    let sizes: Vec<u64> = vec![10, 0, 7, 123_456, 99, 1, 2, 3, 4];
    let expected: u64 = sizes.iter().sum();
    let plan = bulk_plan(sizes.len(), 4);
    let mut reports = vec![];
    let mut seen = 0;
    for (index, (from, to)) in plan.iter().enumerate() {
        assert_eq!(*from, seen);
        seen = *to;
        let mut tally = WorkerTally::new();
        for size in &sizes[*from..*to] {
            assert!(tally.has_room_for(Some(*size)));
            tally = tally.step(Some(*size));
        }
        reports.push(worker_report(index, (*from, *to), tally, 1_000));
    }
    assert_eq!(seen, sizes.len());
    assert!(totals_fit(&reports));
    let times = BulkTimes { wall_nanos: 5_000, counter_hz: HZ, counter_ticks: 120 };
    let m = measure_bulk(sizes.len(), 4, false, &reports, times);
    assert_eq!(m.file_count, sizes.len() as u64);
    assert_eq!(m.errors, 0);
    assert_eq!(m.bytes_read, expected, "bulk byte total must match metadata");
    assert!(m.counter_hz > 0);
    assert_eq!(m.threads, 4);
    assert_eq!(m.per_thread.len(), 3);
    assert_eq!(m.per_thread.iter().map(|t| t.index).collect::<Vec<_>>(), vec![0, 1, 2]);
    assert_eq!(m.per_thread.iter().map(|t| t.files).sum::<u64>(), sizes.len() as u64);
    assert!(m.per_thread.iter().all(|t| t.wall_nanos == 1_000));
    assert_eq!(m.throughput_mib_s().bits(), ((expected as f64 / 1_048_576.0) / (5_000f64 / 1e9)).to_bits());
}

#[test]
fn workers_count_what_they_cannot_read() {
    let t = WorkerTally::new().step(Some(5)).step(None).step(Some(7)).step(None);
    assert_eq!(t, WorkerTally { bytes: 12, errors: 2 });
    assert!(!t.has_room_for(Some(u64::MAX)));
    assert_eq!(clamp_threads(0), 1);
    assert_eq!(clamp_threads(8), 8);
    assert_eq!(clamp_threads(9_999), 256);
    assert_eq!(bulk_plan(0, 4), vec![]);
    assert_eq!(bulk_plan(2, 8), vec![(0, 1), (1, 2)]);
}

#[test]
fn a_write_run_writes_the_total() {
    let mut run = write_bench("dir/scratch", 2_500, 1_000).ok().unwrap();
    let mut now = 100;
    let mut asked = vec![];
    while run.action != WriteAction::Finish {
        let event = match run.action {
            WriteAction::Create => WriteEvent::Done(3),
            WriteAction::Calibrate => WriteEvent::Done(HZ),
            WriteAction::StartClock | WriteAction::StartSync | WriteAction::EndClock => {
                now += 50;
                WriteEvent::Done(now)
            }
            WriteAction::Write(n) => {
                asked.push(n);
                if asked.len() == 2 {
                    WriteEvent::Failed(EINTR)
                } else if asked.len() == 3 {
                    WriteEvent::Done(n / 2)
                } else {
                    WriteEvent::Done(n)
                }
            }
            WriteAction::Sync => WriteEvent::Done(0),
            WriteAction::Finish => WriteEvent::Done(0),
        };
        run = run.step(event);
    }
    assert_eq!(asked, vec![1_000, 1_000, 1_000, 1_000]);
    let m: WriteMeasurement = run.finish("dir/scratch").unwrap();
    assert_eq!(m.bytes, 2_500);
    assert_eq!(m.wall_nanos, 100);
    assert_eq!(m.fsync_nanos, 50);
    assert_eq!(m.path, "dir/scratch");
    assert_eq!(write_bench("\0", 1, 1).err(), Some(MeasureError::NulInPath));
}

#[test]
fn the_scratch_file_lies_in_the_directory() {
    assert_eq!(scratch_path("/tmp"), "/tmp/.sawskas-write-bench");
    assert_eq!(scratch_path("/"), "/.sawskas-write-bench");
    assert_eq!(scratch_path(""), ".sawskas-write-bench");
}

#[test]
fn a_full_device_ends_a_write_run() {
    let run = write_bench("a", 10, 4)
        .ok()
        .unwrap()
        .step(WriteEvent::Done(3))
        .step(WriteEvent::Done(HZ))
        .step(WriteEvent::Done(1))
        .step(WriteEvent::Done(0));
    assert_eq!(run.finish("a").err(), Some(MeasureError::Os(ENOSPC)));
}

#[test]
fn random_reads_stay_in_the_file() {
    let mut run = random_bench("a", 4_096, 100, 42, false).ok().unwrap();
    let size: u64 = 1_000_000;
    let mut now = 0;
    let mut offsets = vec![];
    let m: RandomMeasurement = loop {
        let event = match run.action() {
            RandomAction::Open | RandomAction::BypassCache => RandomEvent::Done(3),
            RandomAction::SeekEnd => RandomEvent::Done(size),
            RandomAction::Calibrate => RandomEvent::Done(1_000_000_000),
            RandomAction::StartClock | RandomAction::EndClock => {
                now += 1_000_000;
                RandomEvent::Done(now)
            }
            RandomAction::ReadAt(o) => {
                assert!(o + 4_096 <= size);
                offsets.push(o);
                RandomEvent::Block {
                    bytes: 4_096,
                    start_ticks: 0,
                    end_ticks: offsets.len() as u64,
                }
            }
            RandomAction::Finish => break run.finish("a").unwrap(),
        };
        assert!(run.has_room_for(event));
        run.step(event);
    };
    assert_eq!(offsets.len(), 100);
    assert!(offsets.iter().any(|o| *o != offsets[0]));
    assert_eq!(m.ops, 100);
    assert_eq!(m.bytes, 409_600);
    assert_eq!(m.avg_nanos, 50);
    assert_eq!(m.p99_nanos, 99);
    assert_eq!(m.iops().fixed_of(0), "100000");
    assert_eq!(random_bench("\0", 1, 1, 1, false).err(), Some(MeasureError::NulInPath));
}

#[test]
fn the_seed_zero_counts_as_one() {
    let offsets = |seed: u64| {
        let mut run = random_bench("a", 1, 20, seed, false).ok().unwrap();
        let mut offsets = vec![];
        while run.action() != RandomAction::Finish {
            let event = match run.action() {
                RandomAction::ReadAt(o) => {
                    offsets.push(o);
                    RandomEvent::Block { bytes: 1, start_ticks: 0, end_ticks: 1 }
                }
                _ => RandomEvent::Done(1_000_000),
            };
            run.step(event);
        }
        offsets
    };
    assert_eq!(offsets(0), offsets(1));
    assert!(offsets(0).iter().any(|o| *o != 0));
    assert_ne!(offsets(1), offsets(2));
    assert_eq!(next_random_of(0), 0);
    assert_ne!(next_random_of(1), 0);
}

#[test]
fn the_generator_is_a_shift_register() {
    let mut x: u64 = 88_172_645_463_325_252;
    let mut y = x;
    for _ in 0..100 {
        y ^= y << 13;
        y ^= y >> 7;
        y ^= y << 17;
        x = next_random_of(x);
        assert_eq!(x, y);
    }
    assert_eq!(offset_of(7, 100, 30), 30);
    assert_eq!(offset_of(7, 10, 30), 0);
    assert_eq!(offset_of(7, 10, 0), 0);
}
