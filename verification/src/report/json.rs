//! JSON, written by hand.

use vstd::arithmetic::power2::pow2;
use vstd::prelude::*;

use super::value::{
    escaped, escaped_char, hex_digit, is_number, is_plain, law_a_json_value_reads_back,
    leading_digits, lemma_leading_digits, lemma_member_texts, lemma_value_texts, member,
    member_texts, quoted, read_value, sound, truth, value_texts, written, Json,
};
use super::{total_read, total_read_of, Report, ReportModel};
use crate::binary64::{half_even, pow10, with_point, Binary64};
use crate::interrupt::bulk::{BulkMeasurement, ThreadStat};
use crate::interrupt::hardware_interrupt::{
    FileMeasurement, LATENCY_BOUNDS_NS, LATENCY_BUCKETS,
};
use crate::interrupt::random::RandomMeasurement;
use crate::interrupt::sweep::{best_point, SweepPoint, SweepResult};
use crate::interrupt::write::WriteMeasurement;
use crate::text::{decimal, decimal_of, expanded, is_digit, join_of, texts, zero_padded};

verus! {

// ── strings ─────────────────────────────────────────────────────────────────

fn hex_digit_of(d: u8) -> (c: char)
    requires
        d < 16,
    ensures
        c == hex_digit(d as int),
{
    if d < 10 {
        (d + 48) as char
    } else {
        (d + 87) as char
    }
}

fn push_escaped(r: &mut String, c: char)
    ensures
        final(r)@ == old(r)@ + escaped_char(c),
{
    if c == '"' {
        r.append("\\\"");
        proof {
            reveal_strlit("\\\"");
        }
        assert("\\\""@ == escaped_char(c));
    } else if c == '\\' {
        r.append("\\\\");
        proof {
            reveal_strlit("\\\\");
        }
        assert("\\\\"@ == escaped_char(c));
    } else if c == '\n' {
        r.append("\\n");
        proof {
            reveal_strlit("\\n");
        }
        assert("\\n"@ == escaped_char(c));
    } else if c == '\r' {
        r.append("\\r");
        proof {
            reveal_strlit("\\r");
        }
        assert("\\r"@ == escaped_char(c));
    } else if c == '\t' {
        r.append("\\t");
        proof {
            reveal_strlit("\\t");
        }
        assert("\\t"@ == escaped_char(c));
    } else if (c as u32) < 0x20 {
        let code: u8 = (c as u32) as u8;
        r.append("\\u00");
        r.push(hex_digit_of(code / 16));
        r.push(hex_digit_of(code % 16));
        proof {
            reveal_strlit("\\u00");
            assert(code == c as int);
        }
        assert(r@ == old(r)@ + escaped_char(c));
    } else {
        r.push(c);
        assert(r@ == old(r)@ + escaped_char(c));
    }
}

/// Escapes a text for the inside of a JSON string.
pub fn esc(s: &str) -> (r: String)
    ensures
        r@ == escaped(s@),
{
    let mut r = String::new();
    let ghost f = |c: char| escaped_char(c);
    for c in it: s.chars()
        invariant
            it.seq() == s@,
            f == (|c: char| escaped_char(c)),
            r@ == expanded(it.seq().take(it.index()), f),
    {
        let ghost i = it.index();
        proof {
            assert(it.seq().take(i + 1).drop_last() == it.seq().take(i));
            assert(it.seq().take(i + 1).last() == c);
        }
        push_escaped(&mut r, c);
    }
    assert(s@.take(s@.len() as int) == s@);
    r
}

// ── members, objects and lists ──────────────────────────────────────────────

fn member_of(name: &str, value: &str) -> (s: String)
    ensures
        s@ == member(name@, value@),
{
    let mut s = "\"".to_owned();
    s.append(name);
    s.append("\":");
    s.append(value);
    s
}

fn text(name: &str, value: &str) -> (s: String)
    ensures
        s@ == member(name@, quoted(value@)),
{
    let mut q = "\"".to_owned();
    let e = esc(value);
    q.append(e.as_str());
    q.append("\"");
    member_of(name, q.as_str())
}

fn number(name: &str, value: u64) -> (s: String)
    ensures
        s@ == member(name@, decimal(value as nat)),
{
    let n = decimal_of(value as u128);
    member_of(name, n.as_str())
}

fn fraction(name: &str, value: Binary64, p: u32) -> (s: String)
    requires
        value.wf(),
        value.exponent <= 44,
        p <= 4,
    ensures
        s@ == member(name@, value.fixed(p as nat)),
{
    let n = value.fixed_of(p);
    member_of(name, n.as_str())
}

fn flag(name: &str, value: bool) -> (s: String)
    ensures
        s@ == member(name@, truth(value)),
{
    member_of(
        name,
        if value {
            "true"
        } else {
            "false"
        },
    )
}

/// Makes an object of members that are written already. The members are those of
/// a value.
fn object_of(members: &Vec<String>, Ghost(ms): Ghost<Seq<(Seq<char>, Json)>>) -> (s: String)
    requires
        texts(members@) == member_texts(ms),
    ensures
        s@ == written(Json::Object(ms)),
{
    let mut s = "{".to_owned();
    let inner = join_of(members, ",");
    s.append(inner.as_str());
    s.append("}");
    s
}

/// Makes a list of values that are written already.
fn list_of(values: &Vec<String>, Ghost(vs): Ghost<Seq<Json>>) -> (s: String)
    requires
        texts(values@) == value_texts(vs),
    ensures
        s@ == written(Json::List(vs)),
{
    let mut s = "[".to_owned();
    let inner = join_of(values, ",");
    s.append(inner.as_str());
    s.append("]");
    s
}

// ── one file ────────────────────────────────────────────────────────────────

/// The upper bound of a bucket; the overflow bucket has none.
pub open spec fn bound(i: int) -> Json {
    if i < 13 {
        Json::Number(decimal(LATENCY_BOUNDS_NS@[i] as nat))
    } else {
        Json::Null
    }
}

/// The members of one bucket of a latency histogram.
pub open spec fn bucket_members(i: int, count: u64) -> Seq<(Seq<char>, Json)> {
    seq![("max_ns"@, bound(i)), ("count"@, Json::Number(decimal(count as nat)))]
}

/// A latency histogram.
pub open spec fn histogram(buckets: Seq<u64>) -> Seq<Json> {
    Seq::new(buckets.len(), |i: int| Json::Object(bucket_members(i, buckets[i])))
}

/// The members of the object for one file.
pub open spec fn file_members(m: FileMeasurement) -> Seq<(Seq<char>, Json)> {
    seq![
        ("path"@, Json::Text(m.path@)),
        ("size_bytes"@, Json::Number(decimal(m.size_bytes as nat))),
        ("bytes_read"@, Json::Number(decimal(m.bytes_read as nat))),
        ("wall_nanos"@, Json::Number(decimal(m.wall_nanos as nat))),
        ("throughput_mib_s"@, Json::Number(m.rate().fixed(4))),
        ("uncached"@, Json::Truth(m.uncached)),
        ("chunk_count"@, Json::Number(decimal(m.chunk_count as nat))),
        ("avg_chunk_ns"@, Json::Number(decimal(m.avg_nanos()))),
        ("min_chunk_ns"@, Json::Number(decimal(m.min_nanos()))),
        ("max_chunk_ns"@, Json::Number(decimal(m.max_nanos()))),
        ("p50_ns"@, Json::Number(decimal(m.percentile(50)))),
        ("p95_ns"@, Json::Number(decimal(m.percentile(95)))),
        ("p99_ns"@, Json::Number(decimal(m.percentile(99)))),
        ("read_busy_fraction"@, Json::Number(m.busy().fixed(4))),
        ("timer_interrupts"@, Json::Number(decimal(m.timer_interrupts as nat))),
        ("counter_hz"@, Json::Number(decimal(m.counter_hz as nat))),
        ("samples"@, Json::Number(decimal(m.samples@.len()))),
        ("latency_histogram"@, Json::List(histogram(m.latency_buckets@))),
    ]
}

fn bucket_of(i: usize, count: u64) -> (s: String)
    requires
        i < LATENCY_BUCKETS,
    ensures
        s@ == written(Json::Object(bucket_members(i as int, count))),
{
    let bound = if i < LATENCY_BOUNDS_NS.len() {
        decimal_of(LATENCY_BOUNDS_NS[i] as u128)
    } else {
        "null".to_owned()
    };
    let mut v: Vec<String> = Vec::new();
    v.push(member_of("max_ns", bound.as_str()));
    v.push(number("count", count));
    let ghost ms = bucket_members(i as int, count);
    proof {
        lemma_member_texts(ms);
        assert(texts(v@) == member_texts(ms));
    }
    object_of(&v, Ghost(ms))
}

fn histogram_of(buckets: &[u64; LATENCY_BUCKETS]) -> (s: String)
    ensures
        s@ == written(Json::List(histogram(buckets@))),
{
    let ghost want = histogram(buckets@);
    let mut v: Vec<String> = Vec::new();
    proof {
        lemma_value_texts(want);
    }
    for i in 0..LATENCY_BUCKETS
        invariant
            want == histogram(buckets@),
            value_texts(want) == Seq::new(want.len(), |i: int| written(want[i])),
            texts(v@) == value_texts(want).take(i as int),
    {
        let ghost before = texts(v@);
        let b = bucket_of(i, buckets[i]);
        let ghost t = b@;
        v.push(b);
        proof {
            let all = value_texts(want);
            assert(texts(v@) == before.push(t));
            assert(all.take(i + 1) == all.take(i as int).push(all[i as int]));
        }
    }
    assert(value_texts(want).take(want.len() as int) == value_texts(want));
    list_of(&v, Ghost(want))
}

/// The object for one file.
pub fn file_object(m: &FileMeasurement) -> (s: String)
    ensures
        s@ == written(Json::Object(file_members(*m))),
{
    let pct = m.percentiles_ns(&[50, 95, 99]);
    let mut v: Vec<String> = Vec::new();
    v.push(text("path", m.path.as_str()));
    v.push(number("size_bytes", m.size_bytes));
    v.push(number("bytes_read", m.bytes_read));
    v.push(number("wall_nanos", m.wall_nanos));
    v.push(fraction("throughput_mib_s", m.throughput_mib_s(), 4));
    v.push(flag("uncached", m.uncached));
    v.push(number("chunk_count", m.chunk_count));
    v.push(number("avg_chunk_ns", m.avg_chunk_nanos()));
    v.push(number("min_chunk_ns", m.min_chunk_nanos()));
    v.push(number("max_chunk_ns", m.max_chunk_nanos()));
    v.push(number("p50_ns", pct[0]));
    v.push(number("p95_ns", pct[1]));
    v.push(number("p99_ns", pct[2]));
    v.push(fraction("read_busy_fraction", m.read_busy_fraction(), 4));
    v.push(number("timer_interrupts", m.timer_interrupts));
    v.push(number("counter_hz", m.counter_hz));
    v.push(number("samples", m.samples.len() as u64));
    let h = histogram_of(&m.latency_buckets);
    v.push(member_of("latency_histogram", h.as_str()));
    let ghost ms = file_members(*m);
    proof {
        lemma_member_texts(ms);
        assert(texts(v@) == member_texts(ms));
    }
    object_of(&v, Ghost(ms))
}

// ── documents ───────────────────────────────────────────────────────────────

/// The members of a profile report.
pub open spec fn profile_members(root: Seq<char>, files: Seq<FileMeasurement>) -> Seq<(Seq<char>, Json)> {
    seq![
        ("kind"@, Json::Text("profile"@)),
        ("root"@, Json::Text(root)),
        ("file_count"@, Json::Number(decimal(files.len()))),
        ("total_bytes"@, Json::Number(decimal(total_read(files)))),
        (
            "files"@,
            Json::List(files.map_values(|m: FileMeasurement| Json::Object(file_members(m)))),
        ),
    ]
}

/// The members of one worker thread.
pub open spec fn thread_members(t: ThreadStat) -> Seq<(Seq<char>, Json)> {
    seq![
        ("index"@, Json::Number(decimal(t.index as nat))),
        ("files"@, Json::Number(decimal(t.files as nat))),
        ("bytes"@, Json::Number(decimal(t.bytes as nat))),
        ("wall_nanos"@, Json::Number(decimal(t.wall_nanos as nat))),
        ("throughput_mib_s"@, Json::Number(t.rate().fixed(4))),
    ]
}

/// The members of a bulk report.
pub open spec fn bulk_members(root: Seq<char>, b: BulkMeasurement) -> Seq<(Seq<char>, Json)> {
    seq![
        ("kind"@, Json::Text("bulk"@)),
        ("root"@, Json::Text(root)),
        ("threads"@, Json::Number(decimal(b.threads as nat))),
        ("uncached"@, Json::Truth(b.uncached)),
        ("file_count"@, Json::Number(decimal(b.file_count as nat))),
        ("bytes_read"@, Json::Number(decimal(b.bytes_read as nat))),
        ("wall_nanos"@, Json::Number(decimal(b.wall_nanos as nat))),
        ("throughput_mib_s"@, Json::Number(b.rate().fixed(4))),
        ("errors"@, Json::Number(decimal(b.errors as nat))),
        ("counter_hz"@, Json::Number(decimal(b.counter_hz as nat))),
        ("counter_ticks"@, Json::Number(decimal(b.counter_ticks as nat))),
        (
            "per_thread"@,
            Json::List(b.per_thread@.map_values(|t: ThreadStat| Json::Object(thread_members(t)))),
        ),
    ]
}

/// The members of one point of a sweep.
pub open spec fn point_members(p: SweepPoint) -> Seq<(Seq<char>, Json)> {
    seq![
        ("chunk_size"@, Json::Number(decimal(p.chunk_size as nat))),
        ("bytes"@, Json::Number(decimal(p.bytes as nat))),
        ("chunks"@, Json::Number(decimal(p.chunks as nat))),
        ("wall_nanos"@, Json::Number(decimal(p.wall_nanos as nat))),
        ("avg_chunk_ns"@, Json::Number(decimal(p.avg_chunk_nanos as nat))),
        ("throughput_mib_s"@, Json::Number(p.rate().fixed(4))),
    ]
}

/// The best block size of a sweep.
pub open spec fn best_size(points: Seq<SweepPoint>) -> Json {
    match best_point(points) {
        Some(p) => Json::Number(decimal(p.chunk_size as nat)),
        None => Json::Null,
    }
}

/// The members of a sweep report.
pub open spec fn sweep_members(s: SweepResult) -> Seq<(Seq<char>, Json)> {
    seq![
        ("kind"@, Json::Text("sweep"@)),
        ("path"@, Json::Text(s.path@)),
        ("size_bytes"@, Json::Number(decimal(s.size_bytes as nat))),
        ("counter_hz"@, Json::Number(decimal(s.counter_hz as nat))),
        ("uncached"@, Json::Truth(s.uncached)),
        ("best_chunk_size"@, best_size(s.points@)),
        (
            "points"@,
            Json::List(s.points@.map_values(|p: SweepPoint| Json::Object(point_members(p)))),
        ),
    ]
}

/// The members of a write report.
pub open spec fn write_members(w: WriteMeasurement) -> Seq<(Seq<char>, Json)> {
    seq![
        ("kind"@, Json::Text("write"@)),
        ("path"@, Json::Text(w.path@)),
        ("bytes"@, Json::Number(decimal(w.bytes as nat))),
        ("chunk_size"@, Json::Number(decimal(w.chunk_size as nat))),
        ("wall_nanos"@, Json::Number(decimal(w.wall_nanos as nat))),
        ("fsync_nanos"@, Json::Number(decimal(w.fsync_nanos as nat))),
        ("throughput_mib_s"@, Json::Number(w.rate().fixed(4))),
        ("counter_hz"@, Json::Number(decimal(w.counter_hz as nat))),
    ]
}

/// The members of a random-access report.
pub open spec fn random_members(r: RandomMeasurement) -> Seq<(Seq<char>, Json)> {
    seq![
        ("kind"@, Json::Text("random"@)),
        ("path"@, Json::Text(r.path@)),
        ("block_size"@, Json::Number(decimal(r.block_size as nat))),
        ("ops"@, Json::Number(decimal(r.ops as nat))),
        ("bytes"@, Json::Number(decimal(r.bytes as nat))),
        ("wall_nanos"@, Json::Number(decimal(r.wall_nanos as nat))),
        ("iops"@, Json::Number(r.rate().fixed(1))),
        ("avg_ns"@, Json::Number(decimal(r.avg_nanos as nat))),
        ("p99_ns"@, Json::Number(decimal(r.p99_nanos as nat))),
        ("uncached"@, Json::Truth(r.uncached)),
        ("counter_hz"@, Json::Number(decimal(r.counter_hz as nat))),
    ]
}

/// The value that a report stands for.
pub open spec fn json_value(r: ReportModel) -> Json {
    Json::Object(
        match r {
            ReportModel::Profile { root, files } => profile_members(root, files),
            ReportModel::Bulk { root, bulk } => bulk_members(root, bulk),
            ReportModel::Sweep { sweep } => sweep_members(sweep),
            ReportModel::Write { write } => write_members(write),
            ReportModel::Random { random } => random_members(random),
        },
    )
}

/// A report as a JSON document: one object on a line of its own.
pub open spec fn json_text(r: ReportModel) -> Seq<char> {
    written(json_value(r)) + "\n"@
}

fn render_profile(root: &str, files: &Vec<FileMeasurement>) -> (s: String)
    requires
        total_read(files@) <= u64::MAX,
    ensures
        s@ == written(Json::Object(profile_members(root@, files@))),
{
    let ghost want = files@.map_values(|m: FileMeasurement| Json::Object(file_members(m)));
    let mut objects: Vec<String> = Vec::new();
    proof {
        lemma_value_texts(want);
    }
    for i in 0..files.len()
        invariant
            want == files@.map_values(|m: FileMeasurement| Json::Object(file_members(m))),
            value_texts(want) == Seq::new(want.len(), |i: int| written(want[i])),
            texts(objects@) == value_texts(want).take(i as int),
    {
        let ghost before = texts(objects@);
        let o = file_object(&files[i]);
        let ghost t = o@;
        objects.push(o);
        proof {
            let all = value_texts(want);
            assert(texts(objects@) == before.push(t));
            assert(all.take(i + 1) == all.take(i as int).push(all[i as int]));
        }
    }
    assert(value_texts(want).take(want.len() as int) == value_texts(want));
    let all = list_of(&objects, Ghost(want));
    let mut v: Vec<String> = Vec::new();
    v.push(text("kind", "profile"));
    v.push(text("root", root));
    v.push(number("file_count", files.len() as u64));
    v.push(number("total_bytes", total_read_of(files)));
    v.push(member_of("files", all.as_str()));
    let ghost ms = profile_members(root@, files@);
    proof {
        lemma_member_texts(ms);
        assert(texts(v@) == member_texts(ms));
    }
    object_of(&v, Ghost(ms))
}

fn thread_of(t: &ThreadStat) -> (s: String)
    ensures
        s@ == written(Json::Object(thread_members(*t))),
{
    let mut v: Vec<String> = Vec::new();
    v.push(number("index", t.index as u64));
    v.push(number("files", t.files));
    v.push(number("bytes", t.bytes));
    v.push(number("wall_nanos", t.wall_nanos));
    v.push(fraction("throughput_mib_s", t.throughput_mib_s(), 4));
    let ghost ms = thread_members(*t);
    proof {
        lemma_member_texts(ms);
        assert(texts(v@) == member_texts(ms));
    }
    object_of(&v, Ghost(ms))
}

fn render_bulk(root: &str, b: &BulkMeasurement) -> (s: String)
    ensures
        s@ == written(Json::Object(bulk_members(root@, *b))),
{
    let ghost want = b.per_thread@.map_values(|t: ThreadStat| Json::Object(thread_members(t)));
    let mut threads: Vec<String> = Vec::new();
    proof {
        lemma_value_texts(want);
    }
    for i in 0..b.per_thread.len()
        invariant
            want == b.per_thread@.map_values(|t: ThreadStat| Json::Object(thread_members(t))),
            value_texts(want) == Seq::new(want.len(), |i: int| written(want[i])),
            texts(threads@) == value_texts(want).take(i as int),
    {
        let ghost before = texts(threads@);
        let o = thread_of(&b.per_thread[i]);
        let ghost t = o@;
        threads.push(o);
        proof {
            let all = value_texts(want);
            assert(texts(threads@) == before.push(t));
            assert(all.take(i + 1) == all.take(i as int).push(all[i as int]));
        }
    }
    assert(value_texts(want).take(want.len() as int) == value_texts(want));
    let all = list_of(&threads, Ghost(want));
    let mut v: Vec<String> = Vec::new();
    v.push(text("kind", "bulk"));
    v.push(text("root", root));
    v.push(number("threads", b.threads as u64));
    v.push(flag("uncached", b.uncached));
    v.push(number("file_count", b.file_count));
    v.push(number("bytes_read", b.bytes_read));
    v.push(number("wall_nanos", b.wall_nanos));
    v.push(fraction("throughput_mib_s", b.throughput_mib_s(), 4));
    v.push(number("errors", b.errors));
    v.push(number("counter_hz", b.counter_hz));
    v.push(number("counter_ticks", b.counter_ticks));
    v.push(member_of("per_thread", all.as_str()));
    let ghost ms = bulk_members(root@, *b);
    proof {
        lemma_member_texts(ms);
        assert(texts(v@) == member_texts(ms));
    }
    object_of(&v, Ghost(ms))
}

fn point_of(p: &SweepPoint) -> (s: String)
    ensures
        s@ == written(Json::Object(point_members(*p))),
{
    let mut v: Vec<String> = Vec::new();
    v.push(number("chunk_size", p.chunk_size as u64));
    v.push(number("bytes", p.bytes));
    v.push(number("chunks", p.chunks));
    v.push(number("wall_nanos", p.wall_nanos));
    v.push(number("avg_chunk_ns", p.avg_chunk_nanos));
    v.push(fraction("throughput_mib_s", p.throughput_mib_s(), 4));
    let ghost ms = point_members(*p);
    proof {
        lemma_member_texts(ms);
        assert(texts(v@) == member_texts(ms));
    }
    object_of(&v, Ghost(ms))
}

fn render_sweep(s: &SweepResult) -> (r: String)
    ensures
        r@ == written(Json::Object(sweep_members(*s))),
{
    let ghost want = s.points@.map_values(|p: SweepPoint| Json::Object(point_members(p)));
    let mut points: Vec<String> = Vec::new();
    proof {
        lemma_value_texts(want);
    }
    for i in 0..s.points.len()
        invariant
            want == s.points@.map_values(|p: SweepPoint| Json::Object(point_members(p))),
            value_texts(want) == Seq::new(want.len(), |i: int| written(want[i])),
            texts(points@) == value_texts(want).take(i as int),
    {
        let ghost before = texts(points@);
        let o = point_of(&s.points[i]);
        let ghost t = o@;
        points.push(o);
        proof {
            let all = value_texts(want);
            assert(texts(points@) == before.push(t));
            assert(all.take(i + 1) == all.take(i as int).push(all[i as int]));
        }
    }
    assert(value_texts(want).take(want.len() as int) == value_texts(want));
    let all = list_of(&points, Ghost(want));
    let best = match s.best() {
        Some(p) => decimal_of(p.chunk_size as u128),
        None => "null".to_owned(),
    };
    let mut v: Vec<String> = Vec::new();
    v.push(text("kind", "sweep"));
    v.push(text("path", s.path.as_str()));
    v.push(number("size_bytes", s.size_bytes));
    v.push(number("counter_hz", s.counter_hz));
    v.push(flag("uncached", s.uncached));
    v.push(member_of("best_chunk_size", best.as_str()));
    v.push(member_of("points", all.as_str()));
    let ghost ms = sweep_members(*s);
    proof {
        lemma_member_texts(ms);
        assert(texts(v@) == member_texts(ms));
    }
    object_of(&v, Ghost(ms))
}

fn render_write(w: &WriteMeasurement) -> (s: String)
    ensures
        s@ == written(Json::Object(write_members(*w))),
{
    let mut v: Vec<String> = Vec::new();
    v.push(text("kind", "write"));
    v.push(text("path", w.path.as_str()));
    v.push(number("bytes", w.bytes));
    v.push(number("chunk_size", w.chunk_size as u64));
    v.push(number("wall_nanos", w.wall_nanos));
    v.push(number("fsync_nanos", w.fsync_nanos));
    v.push(fraction("throughput_mib_s", w.throughput_mib_s(), 4));
    v.push(number("counter_hz", w.counter_hz));
    let ghost ms = write_members(*w);
    proof {
        lemma_member_texts(ms);
        assert(texts(v@) == member_texts(ms));
    }
    object_of(&v, Ghost(ms))
}

fn render_random(r: &RandomMeasurement) -> (s: String)
    ensures
        s@ == written(Json::Object(random_members(*r))),
{
    let mut v: Vec<String> = Vec::new();
    v.push(text("kind", "random"));
    v.push(text("path", r.path.as_str()));
    v.push(number("block_size", r.block_size as u64));
    v.push(number("ops", r.ops));
    v.push(number("bytes", r.bytes));
    v.push(number("wall_nanos", r.wall_nanos));
    v.push(fraction("iops", r.iops(), 1));
    v.push(number("avg_ns", r.avg_nanos));
    v.push(number("p99_ns", r.p99_nanos));
    v.push(flag("uncached", r.uncached));
    v.push(number("counter_hz", r.counter_hz));
    let ghost ms = random_members(*r);
    proof {
        lemma_member_texts(ms);
        assert(texts(v@) == member_texts(ms));
    }
    object_of(&v, Ghost(ms))
}

/// Renders a report as a JSON document.
pub fn render(r: &Report) -> (s: String)
    requires
        r@.bytes_fit(),
    ensures
        s@ == json_text(r@),
{
    let mut s = match r {
        Report::Profile { root, files } => render_profile(root.as_str(), files),
        Report::Bulk { root, bulk } => render_bulk(root.as_str(), bulk),
        Report::Sweep { sweep } => render_sweep(sweep),
        Report::Write { write } => render_write(write),
        Report::Random { random } => render_random(random),
    };
    s.append("\n");
    s
}

// ── documents read back ─────────────────────────────────────────────────────

proof fn lemma_all_digits(t: Seq<char>)
    requires
        forall|i: int| 0 <= i < t.len() ==> is_digit(#[trigger] t[i]),
    ensures
        leading_digits(t) == t.len(),
    decreases t.len(),
{
    if t.len() > 0 {
        assert forall|i: int| 0 <= i < t.skip(1).len() implies is_digit(#[trigger] t.skip(1)[i]) by {
            assert(t.skip(1)[i] == t[i + 1]);
        }
        lemma_all_digits(t.skip(1));
    }
}

proof fn lemma_decimal_digits(n: nat)
    ensures
        forall|i: int| 0 <= i < decimal(n).len() ==> is_digit(#[trigger] decimal(n)[i]),
        decimal(n).len() > 0,
        decimal(n)[0] == '0' ==> n == 0 && decimal(n).len() == 1,
    decreases n,
{
    if n >= 10 {
        lemma_decimal_digits(n / 10);
        let d = decimal(n / 10);
        assert forall|i: int| 0 <= i < decimal(n).len() implies is_digit(
            #[trigger] decimal(n)[i],
        ) by {
            if i < d.len() {
                assert(decimal(n)[i] == d[i]);
            }
        }
        assert(decimal(n)[0] == d[0]);
    }
}

proof fn lemma_decimal_is_number(n: nat)
    ensures
        is_number(decimal(n)),
{
    let t = decimal(n);
    lemma_decimal_digits(n);
    lemma_all_digits(t);
    assert(t.take(t.len() as int) == t);
    assert(t.skip(t.len() as int) == Seq::<char>::empty());
}

proof fn lemma_with_point_is_number(n: nat, p: nat)
    ensures
        is_number(with_point(n, p)),
{
    if p == 0 {
        lemma_decimal_is_number(n);
    } else {
        let whole = decimal(n / pow10(p));
        let behind = zero_padded(n % pow10(p), p);
        let t = with_point(n, p);
        let k = whole.len() as int;
        lemma_decimal_digits(n / pow10(p));
        lemma_decimal_digits(n % pow10(p));
        lemma_all_digits(whole);
        assert forall|i: int| 0 <= i < behind.len() implies is_digit(#[trigger] behind[i]) by {
            let d = decimal(n % pow10(p));
            let zeros = p - d.len();
            if zeros > 0 && i >= zeros {
                assert(behind[i] == d[i - zeros]);
            } else if zeros <= 0 {
                assert(behind[i] == d[i]);
            }
        }
        lemma_all_digits(behind);
        assert(t == whole + (seq!['.'] + behind));
        lemma_leading_digits(whole, seq!['.'] + behind);
        assert(t[0] == whole[0]);
        assert(t[k] == '.');
        assert(t.skip(k + 1) == behind);
        assert(t.take(k + 1 + behind.len()) == t);
        assert(t.skip(k + 1 + behind.len()) == Seq::<char>::empty());
    }
}

proof fn lemma_numbers()
    ensures
        forall|n: nat| is_number(#[trigger] decimal(n)),
        forall|x: Binary64, p: nat| is_number(#[trigger] x.fixed(p)),
{
    assert forall|n: nat| is_number(#[trigger] decimal(n)) by {
        lemma_decimal_is_number(n);
    }
    assert forall|x: Binary64, p: nat| is_number(#[trigger] x.fixed(p)) by {
        lemma_with_point_is_number(half_even(x.units() * pow10(p), pow2(1074)), p);
    }
}

proof fn lemma_names()
    ensures
        is_plain("avg_chunk_ns"@),
        is_plain("avg_ns"@),
        is_plain("best_chunk_size"@),
        is_plain("block_size"@),
        is_plain("bytes"@),
        is_plain("bytes_read"@),
        is_plain("chunk_count"@),
        is_plain("chunk_size"@),
        is_plain("chunks"@),
        is_plain("count"@),
        is_plain("counter_hz"@),
        is_plain("counter_ticks"@),
        is_plain("errors"@),
        is_plain("file_count"@),
        is_plain("files"@),
        is_plain("fsync_nanos"@),
        is_plain("index"@),
        is_plain("iops"@),
        is_plain("kind"@),
        is_plain("latency_histogram"@),
        is_plain("max_chunk_ns"@),
        is_plain("max_ns"@),
        is_plain("min_chunk_ns"@),
        is_plain("ops"@),
        is_plain("p50_ns"@),
        is_plain("p95_ns"@),
        is_plain("p99_ns"@),
        is_plain("path"@),
        is_plain("per_thread"@),
        is_plain("points"@),
        is_plain("read_busy_fraction"@),
        is_plain("root"@),
        is_plain("samples"@),
        is_plain("size_bytes"@),
        is_plain("threads"@),
        is_plain("throughput_mib_s"@),
        is_plain("timer_interrupts"@),
        is_plain("total_bytes"@),
        is_plain("uncached"@),
        is_plain("wall_nanos"@),
{
    reveal_strlit("avg_chunk_ns");
    reveal_strlit("avg_ns");
    reveal_strlit("best_chunk_size");
    reveal_strlit("block_size");
    reveal_strlit("bytes");
    reveal_strlit("bytes_read");
    reveal_strlit("chunk_count");
    reveal_strlit("chunk_size");
    reveal_strlit("chunks");
    reveal_strlit("count");
    reveal_strlit("counter_hz");
    reveal_strlit("counter_ticks");
    reveal_strlit("errors");
    reveal_strlit("file_count");
    reveal_strlit("files");
    reveal_strlit("fsync_nanos");
    reveal_strlit("index");
    reveal_strlit("iops");
    reveal_strlit("kind");
    reveal_strlit("latency_histogram");
    reveal_strlit("max_chunk_ns");
    reveal_strlit("max_ns");
    reveal_strlit("min_chunk_ns");
    reveal_strlit("ops");
    reveal_strlit("p50_ns");
    reveal_strlit("p95_ns");
    reveal_strlit("p99_ns");
    reveal_strlit("path");
    reveal_strlit("per_thread");
    reveal_strlit("points");
    reveal_strlit("read_busy_fraction");
    reveal_strlit("root");
    reveal_strlit("samples");
    reveal_strlit("size_bytes");
    reveal_strlit("threads");
    reveal_strlit("throughput_mib_s");
    reveal_strlit("timer_interrupts");
    reveal_strlit("total_bytes");
    reveal_strlit("uncached");
    reveal_strlit("wall_nanos");
}

proof fn lemma_file_is_sound(m: FileMeasurement)
    ensures
        sound(Json::Object(file_members(m))),
{
    lemma_numbers();
    lemma_names();
    let ms = file_members(m);
    let buckets = histogram(m.latency_buckets@);
    assert forall|i: int| 0 <= i < buckets.len() implies sound(#[trigger] buckets[i]) by {
        let inner = bucket_members(i, m.latency_buckets@[i]);
        assert(is_plain(inner[0].0) && sound(inner[0].1));
        assert(is_plain(inner[1].0) && sound(inner[1].1));
    }
    assert(sound(Json::List(buckets)));
    assert forall|i: int| 0 <= i < ms.len() implies is_plain((#[trigger] ms[i]).0) && sound(
        ms[i].1,
    ) by {
    }
}

proof fn lemma_thread_is_sound(t: ThreadStat)
    ensures
        sound(Json::Object(thread_members(t))),
{
    lemma_numbers();
    lemma_names();
    let ms = thread_members(t);
    assert forall|i: int| 0 <= i < ms.len() implies is_plain((#[trigger] ms[i]).0) && sound(
        ms[i].1,
    ) by {
    }
}

proof fn lemma_point_is_sound(p: SweepPoint)
    ensures
        sound(Json::Object(point_members(p))),
{
    lemma_numbers();
    lemma_names();
    let ms = point_members(p);
    assert forall|i: int| 0 <= i < ms.len() implies is_plain((#[trigger] ms[i]).0) && sound(
        ms[i].1,
    ) by {
    }
}

proof fn lemma_profile_is_sound(root: Seq<char>, files: Seq<FileMeasurement>)
    ensures
        sound(Json::Object(profile_members(root, files))),
{
    lemma_numbers();
    lemma_names();
    let ms = profile_members(root, files);
    let vs = files.map_values(|m: FileMeasurement| Json::Object(file_members(m)));
    assert forall|i: int| 0 <= i < vs.len() implies sound(#[trigger] vs[i]) by {
        lemma_file_is_sound(files[i]);
    }
    assert(sound(Json::List(vs)));
    assert forall|i: int| 0 <= i < ms.len() implies is_plain((#[trigger] ms[i]).0) && sound(
        ms[i].1,
    ) by {
    }
}

proof fn lemma_bulk_is_sound(root: Seq<char>, b: BulkMeasurement)
    ensures
        sound(Json::Object(bulk_members(root, b))),
{
    lemma_numbers();
    lemma_names();
    let ms = bulk_members(root, b);
    let vs = b.per_thread@.map_values(|t: ThreadStat| Json::Object(thread_members(t)));
    assert forall|i: int| 0 <= i < vs.len() implies sound(#[trigger] vs[i]) by {
        lemma_thread_is_sound(b.per_thread@[i]);
    }
    assert(sound(Json::List(vs)));
    assert forall|i: int| 0 <= i < ms.len() implies is_plain((#[trigger] ms[i]).0) && sound(
        ms[i].1,
    ) by {
    }
}

proof fn lemma_sweep_is_sound(s: SweepResult)
    ensures
        sound(Json::Object(sweep_members(s))),
{
    lemma_numbers();
    lemma_names();
    let ms = sweep_members(s);
    let vs = s.points@.map_values(|p: SweepPoint| Json::Object(point_members(p)));
    assert forall|i: int| 0 <= i < vs.len() implies sound(#[trigger] vs[i]) by {
        lemma_point_is_sound(s.points@[i]);
    }
    assert(sound(Json::List(vs)));
    assert forall|i: int| 0 <= i < ms.len() implies is_plain((#[trigger] ms[i]).0) && sound(
        ms[i].1,
    ) by {
    }
}

proof fn lemma_write_is_sound(w: WriteMeasurement)
    ensures
        sound(Json::Object(write_members(w))),
{
    lemma_numbers();
    lemma_names();
    let ms = write_members(w);
    assert forall|i: int| 0 <= i < ms.len() implies is_plain((#[trigger] ms[i]).0) && sound(
        ms[i].1,
    ) by {
    }
}

proof fn lemma_random_is_sound(r: RandomMeasurement)
    ensures
        sound(Json::Object(random_members(r))),
{
    lemma_numbers();
    lemma_names();
    let ms = random_members(r);
    assert forall|i: int| 0 <= i < ms.len() implies is_plain((#[trigger] ms[i]).0) && sound(
        ms[i].1,
    ) by {
    }
}

/// Every report is written as a JSON document that reads back as the value that
/// the report stands for, with nothing but the end of the line behind it.
pub proof fn law_a_json_document_reads_back(r: ReportModel)
    ensures
        read_value(json_text(r)) == Some((json_value(r), "\n"@)),
{
    reveal_strlit("\n");
    match r {
        ReportModel::Profile { root, files } => lemma_profile_is_sound(root, files),
        ReportModel::Bulk { root, bulk } => lemma_bulk_is_sound(root, bulk),
        ReportModel::Sweep { sweep } => lemma_sweep_is_sound(sweep),
        ReportModel::Write { write } => lemma_write_is_sound(write),
        ReportModel::Random { random } => lemma_random_is_sound(random),
    }
    law_a_json_value_reads_back(json_value(r), "\n"@);
}

} // verus!
