//! JSON reports: what a reader of the document finds under each name.

use vstd::prelude::*;

use super::time::{class_bound, law_latency_bounds_go_by_one_two_five};
use crate::binary64::Binary64;
use crate::interrupt::bulk::{BulkMeasurement, ThreadStat};
use crate::interrupt::hardware_interrupt::FileMeasurement;
use crate::interrupt::random::RandomMeasurement;
use crate::interrupt::sweep::{best_point, SweepPoint, SweepResult};
use crate::interrupt::write::WriteMeasurement;
use crate::report::json::{
    bucket_members, bulk_members, file_members, histogram, json_text,
    law_a_json_document_reads_back, point_members, profile_members, random_members, sweep_members,
    thread_members, write_members,
};
use crate::report::value::{read_value, Json};
use crate::report::ReportModel;
use crate::text::decimal;

verus! {

/// Whether an object has one member of a name, with this value.
pub open spec fn has(v: Json, name: Seq<char>, value: Json) -> bool {
    match v {
        Json::Object(ms) => exists|i: int| #[trigger] is_only(ms, i, name, value),
        _ => false,
    }
}

/// Whether a member is the only one of its name, and has this value.
pub open spec fn is_only(
    ms: Seq<(Seq<char>, Json)>,
    i: int,
    name: Seq<char>,
    value: Json,
) -> bool {
    &&& 0 <= i < ms.len()
    &&& ms[i].0 == name
    &&& ms[i].1 == value
    &&& forall|j: int| 0 <= j < ms.len() && j != i ==> (#[trigger] ms[j]).0 != name
}

/// Whether an object has a whole number under a name.
pub open spec fn has_number(v: Json, name: Seq<char>, n: nat) -> bool {
    has(v, name, Json::Number(decimal(n)))
}

/// Whether an object has a double under a name, with `p` digits behind the point.
pub open spec fn has_double(v: Json, name: Seq<char>, x: Binary64, p: nat) -> bool {
    has(v, name, Json::Number(x.fixed(p)))
}

/// Whether the list of latency classes in a report has the bound and the count of
/// each; the last class has no bound.
pub open spec fn tells_histogram(v: Json, buckets: Seq<u64>) -> bool {
    v matches Json::List(vs) && vs.len() == buckets.len() && forall|b: int|
        0 <= b < vs.len() ==> has_number(#[trigger] vs[b], "count"@, buckets[b] as nat) && (if b
            < 13 {
            has_number(vs[b], "max_ns"@, class_bound(b))
        } else {
            has(vs[b], "max_ns"@, Json::Null)
        })
}

/// Whether an object tells of a file.
pub open spec fn tells_file(v: Json, m: FileMeasurement) -> bool {
    &&& has(v, "path"@, Json::Text(m.path@))
    &&& has_number(v, "size_bytes"@, m.size_bytes as nat)
    &&& has_number(v, "bytes_read"@, m.bytes_read as nat)
    &&& has_number(v, "wall_nanos"@, m.wall_nanos as nat)
    &&& has_double(v, "throughput_mib_s"@, m.rate(), 4)
    &&& has(v, "uncached"@, Json::Truth(m.uncached))
    &&& has_number(v, "chunk_count"@, m.chunk_count as nat)
    &&& has_number(v, "avg_chunk_ns"@, m.avg_nanos())
    &&& has_number(v, "min_chunk_ns"@, m.min_nanos())
    &&& has_number(v, "max_chunk_ns"@, m.max_nanos())
    &&& has_number(v, "p50_ns"@, m.percentile(50))
    &&& has_number(v, "p95_ns"@, m.percentile(95))
    &&& has_number(v, "p99_ns"@, m.percentile(99))
    &&& has_double(v, "read_busy_fraction"@, m.busy(), 4)
    &&& has_number(v, "timer_interrupts"@, m.timer_interrupts as nat)
    &&& has_number(v, "counter_hz"@, m.counter_hz as nat)
    &&& has_number(v, "samples"@, m.samples@.len())
    &&& exists|h: Json|
        #[trigger] has(v, "latency_histogram"@, h) && tells_histogram(h, m.latency_buckets@)
}

/// Whether an object tells of a worker thread.
pub open spec fn tells_thread(v: Json, t: ThreadStat) -> bool {
    &&& has_number(v, "index"@, t.index as nat)
    &&& has_number(v, "files"@, t.files as nat)
    &&& has_number(v, "bytes"@, t.bytes as nat)
    &&& has_number(v, "wall_nanos"@, t.wall_nanos as nat)
    &&& has_double(v, "throughput_mib_s"@, t.rate(), 4)
}

/// Whether an object tells of a point of a sweep.
pub open spec fn tells_point(v: Json, p: SweepPoint) -> bool {
    &&& has_number(v, "chunk_size"@, p.chunk_size as nat)
    &&& has_number(v, "bytes"@, p.bytes as nat)
    &&& has_number(v, "chunks"@, p.chunks as nat)
    &&& has_number(v, "wall_nanos"@, p.wall_nanos as nat)
    &&& has_number(v, "avg_chunk_ns"@, p.avg_chunk_nanos as nat)
    &&& has_double(v, "throughput_mib_s"@, p.rate(), 4)
}

/// The bytes read from some files.
pub open spec fn bytes_of(files: Seq<FileMeasurement>) -> nat
    decreases files.len(),
{
    if files.len() == 0 {
        0
    } else {
        bytes_of(files.drop_last()) + files.last().bytes_read as nat
    }
}

/// Whether a document tells of a report.
pub open spec fn tells(v: Json, r: ReportModel) -> bool {
    match r {
        ReportModel::Profile { root, files } => {
            &&& has(v, "kind"@, Json::Text("profile"@))
            &&& has(v, "root"@, Json::Text(root))
            &&& has_number(v, "file_count"@, files.len())
            &&& has_number(v, "total_bytes"@, bytes_of(files))
            &&& exists|vs: Seq<Json>|
                #[trigger] has(v, "files"@, Json::List(vs)) && vs.len() == files.len() && forall|
                    i: int,
                |
                    0 <= i < vs.len() ==> tells_file(#[trigger] vs[i], files[i])
        },
        ReportModel::Bulk { root, bulk } => {
            &&& has(v, "kind"@, Json::Text("bulk"@))
            &&& has(v, "root"@, Json::Text(root))
            &&& has_number(v, "threads"@, bulk.threads as nat)
            &&& has(v, "uncached"@, Json::Truth(bulk.uncached))
            &&& has_number(v, "file_count"@, bulk.file_count as nat)
            &&& has_number(v, "bytes_read"@, bulk.bytes_read as nat)
            &&& has_number(v, "wall_nanos"@, bulk.wall_nanos as nat)
            &&& has_double(v, "throughput_mib_s"@, bulk.rate(), 4)
            &&& has_number(v, "errors"@, bulk.errors as nat)
            &&& has_number(v, "counter_hz"@, bulk.counter_hz as nat)
            &&& has_number(v, "counter_ticks"@, bulk.counter_ticks as nat)
            &&& exists|vs: Seq<Json>|
                #[trigger] has(v, "per_thread"@, Json::List(vs)) && vs.len()
                    == bulk.per_thread@.len() && forall|i: int|
                    0 <= i < vs.len() ==> tells_thread(#[trigger] vs[i], bulk.per_thread@[i])
        },
        ReportModel::Sweep { sweep } => {
            &&& has(v, "kind"@, Json::Text("sweep"@))
            &&& has(v, "path"@, Json::Text(sweep.path@))
            &&& has_number(v, "size_bytes"@, sweep.size_bytes as nat)
            &&& has_number(v, "counter_hz"@, sweep.counter_hz as nat)
            &&& has(v, "uncached"@, Json::Truth(sweep.uncached))
            &&& match best_point(sweep.points@) {
                Some(p) => has_number(v, "best_chunk_size"@, p.chunk_size as nat),
                None => has(v, "best_chunk_size"@, Json::Null),
            }
            &&& exists|vs: Seq<Json>|
                #[trigger] has(v, "points"@, Json::List(vs)) && vs.len() == sweep.points@.len()
                    && forall|i: int|
                    0 <= i < vs.len() ==> tells_point(#[trigger] vs[i], sweep.points@[i])
        },
        ReportModel::Write { write } => {
            &&& has(v, "kind"@, Json::Text("write"@))
            &&& has(v, "path"@, Json::Text(write.path@))
            &&& has_number(v, "bytes"@, write.bytes as nat)
            &&& has_number(v, "chunk_size"@, write.chunk_size as nat)
            &&& has_number(v, "wall_nanos"@, write.wall_nanos as nat)
            &&& has_number(v, "fsync_nanos"@, write.fsync_nanos as nat)
            &&& has_double(v, "throughput_mib_s"@, write.rate(), 4)
            &&& has_number(v, "counter_hz"@, write.counter_hz as nat)
        },
        ReportModel::Random { random } => {
            &&& has(v, "kind"@, Json::Text("random"@))
            &&& has(v, "path"@, Json::Text(random.path@))
            &&& has_number(v, "block_size"@, random.block_size as nat)
            &&& has_number(v, "ops"@, random.ops as nat)
            &&& has_number(v, "bytes"@, random.bytes as nat)
            &&& has_number(v, "wall_nanos"@, random.wall_nanos as nat)
            &&& has_double(v, "iops"@, random.rate(), 1)
            &&& has_number(v, "avg_ns"@, random.avg_nanos as nat)
            &&& has_number(v, "p99_ns"@, random.p99_nanos as nat)
            &&& has(v, "uncached"@, Json::Truth(random.uncached))
            &&& has_number(v, "counter_hz"@, random.counter_hz as nat)
        },
    }
}

// ── the proof ───────────────────────────────────────────────────────────────

/// Whether no two members have the same name.
spec fn distinct(ms: Seq<(Seq<char>, Json)>) -> bool {
    forall|i: int, j: int| 0 <= i < j < ms.len() ==> (#[trigger] ms[i]).0 != (#[trigger] ms[j]).0
}

/// A number by which names are told apart: their length and first characters.
spec fn mark(s: Seq<char>) -> int {
    s.len() * 100_000_000 + s[0] as int * 1_000_000 + s[1] as int * 1_000 + s[2] as int
}

/// Every small number, one by one.
proof fn lemma_one_of(i: int)
    requires
        0 <= i < 18,
    ensures
        i == 0 || i == 1 || i == 2 || i == 3 || i == 4 || i == 5 || i == 6 || i == 7 || i == 8
            || i == 9 || i == 10 || i == 11 || i == 12 || i == 13 || i == 14 || i == 15 || i
            == 16 || i == 17,
{
}

proof fn lemma_has(ms: Seq<(Seq<char>, Json)>)
    requires
        distinct(ms),
    ensures
        forall|i: int|
            0 <= i < ms.len() ==> has(Json::Object(ms), (#[trigger] ms[i]).0, ms[i].1),
{
    assert forall|i: int| 0 <= i < ms.len() implies has(
        Json::Object(ms),
        (#[trigger] ms[i]).0,
        ms[i].1,
    ) by {
        let name = ms[i].0;
        let value = ms[i].1;
        assert forall|j: int| 0 <= j < ms.len() && j != i implies (#[trigger] ms[j]).0 != name by {
            if i < j {
                assert(ms[i].0 != ms[j].0);
            } else {
                assert(ms[j].0 != ms[i].0);
            }
        }
        assert(is_only(ms, i, name, value));
        let v = Json::Object(ms);
        assert(v->Object_0 == ms);
        assert(has(v, name, value));
    }
}

#[verifier::spinoff_prover]
#[verifier::rlimit(50)]
proof fn lemma_file_members(m: FileMeasurement)
    ensures
        distinct(file_members(m)),
{
    reveal_strlit("path");
    reveal_strlit("size_bytes");
    reveal_strlit("bytes_read");
    reveal_strlit("wall_nanos");
    reveal_strlit("throughput_mib_s");
    reveal_strlit("uncached");
    reveal_strlit("chunk_count");
    reveal_strlit("avg_chunk_ns");
    reveal_strlit("min_chunk_ns");
    reveal_strlit("max_chunk_ns");
    reveal_strlit("p50_ns");
    reveal_strlit("p95_ns");
    reveal_strlit("p99_ns");
    reveal_strlit("read_busy_fraction");
    reveal_strlit("timer_interrupts");
    reveal_strlit("counter_hz");
    reveal_strlit("samples");
    reveal_strlit("latency_histogram");
    let ms = file_members(m);
    assert(ms.len() == 18);
    assert forall|i: int, j: int| 0 <= i < j < ms.len() implies (#[trigger] ms[i]).0 != (
    #[trigger] ms[j]).0 by {
        lemma_one_of(i);
        lemma_one_of(j);
        assert(mark(ms[i].0) != mark(ms[j].0));
    }
}

proof fn lemma_thread_members(t: ThreadStat)
    ensures
        distinct(thread_members(t)),
{
    reveal_strlit("index");
    reveal_strlit("files");
    reveal_strlit("bytes");
    reveal_strlit("wall_nanos");
    reveal_strlit("throughput_mib_s");
    let ms = thread_members(t);
    assert(ms.len() == 5);
    assert forall|i: int, j: int| 0 <= i < j < ms.len() implies (#[trigger] ms[i]).0 != (
    #[trigger] ms[j]).0 by {
        lemma_one_of(i);
        lemma_one_of(j);
        assert(mark(ms[i].0) != mark(ms[j].0));
    }
}

proof fn lemma_point_members(p: SweepPoint)
    ensures
        distinct(point_members(p)),
{
    reveal_strlit("chunk_size");
    reveal_strlit("bytes");
    reveal_strlit("chunks");
    reveal_strlit("wall_nanos");
    reveal_strlit("avg_chunk_ns");
    reveal_strlit("throughput_mib_s");
    let ms = point_members(p);
    assert(ms.len() == 6);
    assert forall|i: int, j: int| 0 <= i < j < ms.len() implies (#[trigger] ms[i]).0 != (
    #[trigger] ms[j]).0 by {
        lemma_one_of(i);
        lemma_one_of(j);
        assert(mark(ms[i].0) != mark(ms[j].0));
    }
}

proof fn lemma_profile_members(root: Seq<char>, files: Seq<FileMeasurement>)
    ensures
        distinct(profile_members(root, files)),
{
    reveal_strlit("kind");
    reveal_strlit("root");
    reveal_strlit("file_count");
    reveal_strlit("total_bytes");
    reveal_strlit("files");
    let ms = profile_members(root, files);
    assert(ms.len() == 5);
    assert forall|i: int, j: int| 0 <= i < j < ms.len() implies (#[trigger] ms[i]).0 != (
    #[trigger] ms[j]).0 by {
        lemma_one_of(i);
        lemma_one_of(j);
        assert(mark(ms[i].0) != mark(ms[j].0));
    }
}

#[verifier::spinoff_prover]
#[verifier::rlimit(50)]
proof fn lemma_bulk_members(root: Seq<char>, b: BulkMeasurement)
    ensures
        distinct(bulk_members(root, b)),
{
    reveal_strlit("kind");
    reveal_strlit("root");
    reveal_strlit("threads");
    reveal_strlit("uncached");
    reveal_strlit("file_count");
    reveal_strlit("bytes_read");
    reveal_strlit("wall_nanos");
    reveal_strlit("throughput_mib_s");
    reveal_strlit("errors");
    reveal_strlit("counter_hz");
    reveal_strlit("counter_ticks");
    reveal_strlit("per_thread");
    let ms = bulk_members(root, b);
    assert(ms.len() == 12);
    assert forall|i: int, j: int| 0 <= i < j < ms.len() implies (#[trigger] ms[i]).0 != (
    #[trigger] ms[j]).0 by {
        lemma_one_of(i);
        lemma_one_of(j);
        assert(mark(ms[i].0) != mark(ms[j].0));
    }
}

proof fn lemma_sweep_members(s: SweepResult)
    ensures
        distinct(sweep_members(s)),
{
    reveal_strlit("kind");
    reveal_strlit("path");
    reveal_strlit("size_bytes");
    reveal_strlit("counter_hz");
    reveal_strlit("uncached");
    reveal_strlit("best_chunk_size");
    reveal_strlit("points");
    let ms = sweep_members(s);
    assert(ms.len() == 7);
    assert forall|i: int, j: int| 0 <= i < j < ms.len() implies (#[trigger] ms[i]).0 != (
    #[trigger] ms[j]).0 by {
        lemma_one_of(i);
        lemma_one_of(j);
        assert(mark(ms[i].0) != mark(ms[j].0));
    }
}

#[verifier::spinoff_prover]
#[verifier::rlimit(50)]
proof fn lemma_write_members(w: WriteMeasurement)
    ensures
        distinct(write_members(w)),
{
    reveal_strlit("kind");
    reveal_strlit("path");
    reveal_strlit("bytes");
    reveal_strlit("chunk_size");
    reveal_strlit("wall_nanos");
    reveal_strlit("fsync_nanos");
    reveal_strlit("throughput_mib_s");
    reveal_strlit("counter_hz");
    let ms = write_members(w);
    assert(ms.len() == 8);
    assert forall|i: int, j: int| 0 <= i < j < ms.len() implies (#[trigger] ms[i]).0 != (
    #[trigger] ms[j]).0 by {
        lemma_one_of(i);
        lemma_one_of(j);
        assert(mark(ms[i].0) != mark(ms[j].0));
    }
}

#[verifier::spinoff_prover]
#[verifier::rlimit(50)]
proof fn lemma_random_members(r: RandomMeasurement)
    ensures
        distinct(random_members(r)),
{
    reveal_strlit("kind");
    reveal_strlit("path");
    reveal_strlit("block_size");
    reveal_strlit("ops");
    reveal_strlit("bytes");
    reveal_strlit("wall_nanos");
    reveal_strlit("iops");
    reveal_strlit("avg_ns");
    reveal_strlit("p99_ns");
    reveal_strlit("uncached");
    reveal_strlit("counter_hz");
    let ms = random_members(r);
    assert(ms.len() == 11);
    assert forall|i: int, j: int| 0 <= i < j < ms.len() implies (#[trigger] ms[i]).0 != (
    #[trigger] ms[j]).0 by {
        lemma_one_of(i);
        lemma_one_of(j);
        assert(mark(ms[i].0) != mark(ms[j].0));
    }
}

proof fn lemma_bucket_members(i: int, count: u64)
    ensures
        distinct(bucket_members(i, count)),
{
    reveal_strlit("max_ns");
    reveal_strlit("count");
    let ms = bucket_members(i, count);
    assert(ms.len() == 2);
    assert forall|i: int, j: int| 0 <= i < j < ms.len() implies (#[trigger] ms[i]).0 != (
    #[trigger] ms[j]).0 by {
        lemma_one_of(i);
        lemma_one_of(j);
        assert(mark(ms[i].0) != mark(ms[j].0));
    }
}

#[verifier::spinoff_prover]
#[verifier::rlimit(50)]
proof fn lemma_histogram(buckets: Seq<u64>)
    requires
        buckets.len() == 14,
    ensures
        tells_histogram(Json::List(histogram(buckets)), buckets),
{
    let vs = histogram(buckets);
    assert forall|b: int| 0 <= b < vs.len() implies has_number(
        #[trigger] vs[b],
        "count"@,
        buckets[b] as nat,
    ) && (if b < 13 {
        has_number(vs[b], "max_ns"@, class_bound(b))
    } else {
        has(vs[b], "max_ns"@, Json::Null)
    }) by {
        let ms = bucket_members(b, buckets[b]);
        lemma_bucket_members(b, buckets[b]);
        lemma_has(ms);
        if b < 13 {
            law_latency_bounds_go_by_one_two_five(b);
        }
        assert(ms[0].0 == "max_ns"@);
        assert(ms[1].0 == "count"@);
    }
}

#[verifier::spinoff_prover]
#[verifier::rlimit(50)]
proof fn lemma_tells_file(m: FileMeasurement)
    ensures
        tells_file(Json::Object(file_members(m)), m),
{
    let ms = file_members(m);
    lemma_file_members(m);
    lemma_has(ms);
    lemma_histogram(m.latency_buckets@);
    assert(ms[0].0 == "path"@);
    assert(ms[1].0 == "size_bytes"@);
    assert(ms[2].0 == "bytes_read"@);
    assert(ms[3].0 == "wall_nanos"@);
    assert(ms[4].0 == "throughput_mib_s"@);
    assert(ms[5].0 == "uncached"@);
    assert(ms[6].0 == "chunk_count"@);
    assert(ms[7].0 == "avg_chunk_ns"@);
    assert(ms[8].0 == "min_chunk_ns"@);
    assert(ms[9].0 == "max_chunk_ns"@);
    assert(ms[10].0 == "p50_ns"@);
    assert(ms[11].0 == "p95_ns"@);
    assert(ms[12].0 == "p99_ns"@);
    assert(ms[13].0 == "read_busy_fraction"@);
    assert(ms[14].0 == "timer_interrupts"@);
    assert(ms[15].0 == "counter_hz"@);
    assert(ms[16].0 == "samples"@);
    assert(ms[17].0 == "latency_histogram"@);
}

proof fn lemma_tells_thread(t: ThreadStat)
    ensures
        tells_thread(Json::Object(thread_members(t)), t),
{
    let ms = thread_members(t);
    lemma_thread_members(t);
    lemma_has(ms);
    assert(ms[0].0 == "index"@);
    assert(ms[1].0 == "files"@);
    assert(ms[2].0 == "bytes"@);
    assert(ms[3].0 == "wall_nanos"@);
    assert(ms[4].0 == "throughput_mib_s"@);
}

proof fn lemma_tells_point(p: SweepPoint)
    ensures
        tells_point(Json::Object(point_members(p)), p),
{
    let ms = point_members(p);
    lemma_point_members(p);
    lemma_has(ms);
    assert(ms[0].0 == "chunk_size"@);
    assert(ms[1].0 == "bytes"@);
    assert(ms[2].0 == "chunks"@);
    assert(ms[3].0 == "wall_nanos"@);
    assert(ms[4].0 == "avg_chunk_ns"@);
    assert(ms[5].0 == "throughput_mib_s"@);
}

/// The sum that a report shows is that of the bytes of its files.
pub proof fn lemma_bytes_of(files: Seq<FileMeasurement>)
    ensures
        bytes_of(files) == crate::report::total_read(files),
    decreases files.len(),
{
    if files.len() > 0 {
        lemma_bytes_of(files.drop_last());
    }
}

#[verifier::spinoff_prover]
#[verifier::rlimit(50)]
proof fn lemma_tells_profile(root: Seq<char>, files: Seq<FileMeasurement>)
    ensures
        tells(Json::Object(profile_members(root, files)), ReportModel::Profile { root, files }),
{
    let ms = profile_members(root, files);
    lemma_profile_members(root, files);
    lemma_has(ms);
    assert(ms[0].0 == "kind"@);
    assert(ms[1].0 == "root"@);
    assert(ms[2].0 == "file_count"@);
    assert(ms[3].0 == "total_bytes"@);
    assert(ms[4].0 == "files"@);
    lemma_bytes_of(files);
    let vs = files.map_values(|m: FileMeasurement| Json::Object(file_members(m)));
    assert forall|i: int| 0 <= i < vs.len() implies tells_file(#[trigger] vs[i], files[i]) by {
        lemma_tells_file(files[i]);
    }
    assert(has(Json::Object(ms), "files"@, Json::List(vs)));
}

#[verifier::spinoff_prover]
#[verifier::rlimit(50)]
proof fn lemma_tells_bulk(root: Seq<char>, bulk: BulkMeasurement)
    ensures
        tells(Json::Object(bulk_members(root, bulk)), ReportModel::Bulk { root, bulk }),
{
    let ms = bulk_members(root, bulk);
    lemma_bulk_members(root, bulk);
    lemma_has(ms);
    assert(ms[0].0 == "kind"@);
    assert(ms[1].0 == "root"@);
    assert(ms[2].0 == "threads"@);
    assert(ms[3].0 == "uncached"@);
    assert(ms[4].0 == "file_count"@);
    assert(ms[5].0 == "bytes_read"@);
    assert(ms[6].0 == "wall_nanos"@);
    assert(ms[7].0 == "throughput_mib_s"@);
    assert(ms[8].0 == "errors"@);
    assert(ms[9].0 == "counter_hz"@);
    assert(ms[10].0 == "counter_ticks"@);
    assert(ms[11].0 == "per_thread"@);
    let vs = bulk.per_thread@.map_values(|t: ThreadStat| Json::Object(thread_members(t)));
    assert forall|i: int| 0 <= i < vs.len() implies tells_thread(
        #[trigger] vs[i],
        bulk.per_thread@[i],
    ) by {
        lemma_tells_thread(bulk.per_thread@[i]);
    }
    assert(has(Json::Object(ms), "per_thread"@, Json::List(vs)));
}

#[verifier::spinoff_prover]
#[verifier::rlimit(50)]
proof fn lemma_tells_sweep(sweep: SweepResult)
    ensures
        tells(Json::Object(sweep_members(sweep)), ReportModel::Sweep { sweep }),
{
    let ms = sweep_members(sweep);
    lemma_sweep_members(sweep);
    lemma_has(ms);
    assert(ms[0].0 == "kind"@);
    assert(ms[1].0 == "path"@);
    assert(ms[2].0 == "size_bytes"@);
    assert(ms[3].0 == "counter_hz"@);
    assert(ms[4].0 == "uncached"@);
    assert(ms[5].0 == "best_chunk_size"@);
    assert(ms[6].0 == "points"@);
    let vs = sweep.points@.map_values(|p: SweepPoint| Json::Object(point_members(p)));
    assert forall|i: int| 0 <= i < vs.len() implies tells_point(
        #[trigger] vs[i],
        sweep.points@[i],
    ) by {
        lemma_tells_point(sweep.points@[i]);
    }
    assert(has(Json::Object(ms), "points"@, Json::List(vs)));
}

#[verifier::spinoff_prover]
#[verifier::rlimit(50)]
proof fn lemma_tells_write(write: WriteMeasurement)
    ensures
        tells(Json::Object(write_members(write)), ReportModel::Write { write }),
{
    let ms = write_members(write);
    lemma_write_members(write);
    lemma_has(ms);
    assert(ms[0].0 == "kind"@);
    assert(ms[1].0 == "path"@);
    assert(ms[2].0 == "bytes"@);
    assert(ms[3].0 == "chunk_size"@);
    assert(ms[4].0 == "wall_nanos"@);
    assert(ms[5].0 == "fsync_nanos"@);
    assert(ms[6].0 == "throughput_mib_s"@);
    assert(ms[7].0 == "counter_hz"@);
}

#[verifier::spinoff_prover]
#[verifier::rlimit(50)]
proof fn lemma_tells_random(random: RandomMeasurement)
    ensures
        tells(Json::Object(random_members(random)), ReportModel::Random { random }),
{
    let ms = random_members(random);
    lemma_random_members(random);
    lemma_has(ms);
    assert(ms[0].0 == "kind"@);
    assert(ms[1].0 == "path"@);
    assert(ms[2].0 == "block_size"@);
    assert(ms[3].0 == "ops"@);
    assert(ms[4].0 == "bytes"@);
    assert(ms[5].0 == "wall_nanos"@);
    assert(ms[6].0 == "iops"@);
    assert(ms[7].0 == "avg_ns"@);
    assert(ms[8].0 == "p99_ns"@);
    assert(ms[9].0 == "uncached"@);
    assert(ms[10].0 == "counter_hz"@);
}

// ── the law ─────────────────────────────────────────────────────────────────

/// Every JSON report reads back as an object in which each number of the report stands
/// under its name: for a profiled file its sizes, times, latencies and percentiles and
/// its histogram, and likewise for worker threads, block sizes, writes and random
/// reads.
pub proof fn law_a_json_report_tells_every_number(r: ReportModel)
    ensures
        read_value(json_text(r)) matches Some((v, rest)) && tells(v, r) && rest == "\n"@,
{
    law_a_json_document_reads_back(r);
    match r {
        ReportModel::Profile { root, files } => lemma_tells_profile(root, files),
        ReportModel::Bulk { root, bulk } => lemma_tells_bulk(root, bulk),
        ReportModel::Sweep { sweep } => lemma_tells_sweep(sweep),
        ReportModel::Write { write } => lemma_tells_write(write),
        ReportModel::Random { random } => lemma_tells_random(random),
    }
}

} // verus!
