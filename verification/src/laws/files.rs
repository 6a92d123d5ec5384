//! Files: their names and types, which of them are kept, and how they are charted.

use vstd::prelude::*;

use super::numbers::{is_about, law_a_throughput_is_bytes_over_time};
use super::time::{class_bound, law_latency_bounds_go_by_one_two_five};
use crate::binary64::Binary64;
use crate::frontend::screen;
use crate::human::human_ns_text;
use crate::interrupt::discovery::{
    extension, has_extension, is_last_dot, joined, text_name, FilterModel, NameModel,
};
use crate::interrupt::hardware_interrupt::FileMeasurement;
use crate::order::key_le;
use crate::report::html::{bucket_bars, bucket_label, file_bar, file_bars, BarModel};
use crate::report::{
    base_name, breakdown, bucket_total, char_key, ext_name, exts, law_sorting_orders_by_the_key, of_type,
    total_nanos, total_read, SortKey,
};
use crate::text::{decimal, lemma_split_nonempty, lowercase, split, Cut};

verus! {

// ── names ───────────────────────────────────────────────────────────────────

/// Whether a character separates the parts of a path.
pub open spec fn separates(c: char) -> bool {
    c == '/' || c == '\\'
}

/// The name of a file is the end of its path, from behind the last separator on.
pub proof fn law_a_base_name_is_the_end_of_its_path(path: Seq<char>, i: int)
    ensures
        ({
            let b = base_name(path);
            let n = path.len() - b.len();
            &&& 0 <= n
            &&& path.skip(n) == b
            &&& n > 0 ==> separates(path[n - 1])
            &&& 0 <= i < b.len() ==> !separates(b[i])
        }),
    decreases path.len(),
{
    lemma_split_nonempty(path, Cut::Slash);
    if path.len() == 0 {
        assert(split(path, Cut::Slash) == seq![Seq::<char>::empty()]);
        assert(path.skip(0) == Seq::<char>::empty());
    } else {
        let before = path.drop_last();
        let c = path.last();
        lemma_split_nonempty(before, Cut::Slash);
        law_a_base_name_is_the_end_of_its_path(before, i);
        let b = base_name(before);
        let k = before.len() - b.len();
        if separates(c) {
            assert(base_name(path) == Seq::<char>::empty());
            assert(path.skip(path.len() as int) == Seq::<char>::empty());
        } else {
            assert(base_name(path) == b.push(c));
            assert(path.skip(k) == before.skip(k).push(c));
        }
    }
}

/// The extension of a name is what follows its last dot.
proof fn lemma_extension(stem: Seq<char>, ext: Seq<char>)
    requires
        stem.len() > 0,
        stem + seq!['.'] + ext != seq!['.', '.'],
        forall|i: int| 0 <= i < ext.len() ==> #[trigger] ext[i] != '.',
    ensures
        extension(stem + seq!['.'] + ext, '.') == Some(ext),
{
    let s = stem + seq!['.'] + ext;
    let n = stem.len() as int;
    assert forall|j: int| n < j < s.len() implies #[trigger] s[j] != '.' by {
        assert(s[j] == ext[j - n - 1]);
    }
    assert(is_last_dot(s, '.', n));
    let i = choose|i: int| 0 < i && is_last_dot(s, '.', i);
    assert(0 < i && is_last_dot(s, '.', i));
    assert(i == n);
    assert(s.skip(n + 1) == ext);
}

/// A filter with extensions keeps a file exactly if one of them is that of the file, in
/// whatever case. A name without a dot has no extension, and is not kept.
pub proof fn law_a_filter_keeps_files_by_their_extension(
    stem: Seq<char>,
    ext: Seq<char>,
    f: FilterModel,
)
    requires
        stem.len() > 0,
        stem + seq!['.'] + ext != seq!['.', '.'],
        forall|i: int| 0 <= i < ext.len() ==> #[trigger] ext[i] != '.',
        !f.skip_hidden,
        f.extensions.len() > 0,
    ensures
        f.accepts(text_name(stem + seq!['.'] + ext)) <==> exists|i: int|
            0 <= i < f.extensions.len() && lowercase(#[trigger] f.extensions[i]) == lowercase(ext),
        !f.accepts(text_name(ext)),
{
    lemma_extension(stem, ext);
    let name = text_name(stem + seq!['.'] + ext);
    assert forall|i: int| 0 <= i < f.extensions.len() implies has_extension(
        name,
        #[trigger] f.extensions[i],
    ) == (lowercase(f.extensions[i]) == lowercase(ext)) by {
    }
    if f.accepts(name) {
        let i = choose|i: int|
            0 <= i < f.extensions.len() && has_extension(name, #[trigger] f.extensions[i]);
        assert(lowercase(f.extensions[i]) == lowercase(ext));
    }
    if exists|i: int|
        0 <= i < f.extensions.len() && lowercase(#[trigger] f.extensions[i]) == lowercase(ext) {
        let i = choose|i: int|
            0 <= i < f.extensions.len() && lowercase(#[trigger] f.extensions[i]) == lowercase(ext);
        assert(has_extension(name, f.extensions[i]));
    }
    assert(extension(ext, '.') is None) by {
        if exists|i: int| 0 < i && is_last_dot(ext, '.', i) {
            let i = choose|i: int| 0 < i && is_last_dot(ext, '.', i);
            assert(ext[i] == '.');
        }
    }
}

/// A filter that skips hidden files neither keeps nor enters what begins with a dot, the
/// names of a directory and of its parent aside; one that does not, and asks for no
/// extensions, keeps everything.
pub proof fn law_hidden_files_are_skipped_unless_asked_for(name: Seq<char>, f: FilterModel)
    ensures
        f.skip_hidden && name.len() > 0 && name[0] == '.' && name != "."@ && name != ".."@
            ==> !f.accepts(text_name(name)) && !f.enters(text_name(name)),
        name.len() > 0 && name[0] != '.' ==> f.enters(text_name(name)),
        !f.skip_hidden ==> f.enters(text_name(name)),
        !f.skip_hidden && f.extensions.len() == 0 ==> f.accepts(text_name(name)),
        name.len() > 0 && name[0] != '.' && f.extensions.len() == 0 ==> f.accepts(text_name(name)),
{
}

/// The path of a file goes on from that of its directory with a slash, unless there is
/// one, and ends in the file's name.
pub proof fn law_a_path_ends_in_its_name(root: Seq<char>, dir: Seq<NameModel>, name: NameModel)
    requires
        joined(root, dir).len() > 0,
    ensures
        ({
            let base = joined(root, dir);
            let all = joined(root, dir.push(name));
            let n = all.len() - name.shown.len();
            &&& base.len() <= n
            &&& all.take(base.len() as int) == base
            &&& all.skip(n) == name.shown
            &&& all[n - 1] == '/'
            &&& n == if base.last() == '/' {
                base.len() as int
            } else {
                base.len() as int + 1
            }
        }),
        joined(root, Seq::<NameModel>::empty()) == root,
{
    let base = joined(root, dir);
    let all = joined(root, dir.push(name));
    assert(dir.push(name).drop_last() == dir);
    let front = if base.last() == '/' {
        base
    } else {
        base.push('/')
    };
    assert(all == front + name.shown);
    assert(all.skip(front.len() as int) == name.shown);
    assert(all.take(base.len() as int) == base);
}

proof fn lemma_common(p: Seq<u64>, a: Seq<u64>, b: Seq<u64>)
    ensures
        key_le(p + a, p + b) == key_le(a, b),
    decreases p.len(),
{
    if p.len() == 0 {
        assert(p + a == a && p + b == b);
    } else {
        lemma_common(p.skip(1), a, b);
        assert((p + a).skip(1) == p.skip(1) + a);
        assert((p + b).skip(1) == p.skip(1) + b);
        assert((p + a)[0] == p[0] && (p + b)[0] == p[0]);
    }
}

/// Names are ordered like words in a dictionary: by the first character in which they
/// differ, and a beginning before what goes on from it.
pub proof fn law_names_are_ordered_like_words(
    same: Seq<char>,
    x: char,
    a: Seq<char>,
    y: char,
    b: Seq<char>,
)
    requires
        x != y,
    ensures
        key_le(char_key(same + (seq![x] + a)), char_key(same + (seq![y] + b))) == ((x as u64) < (
        y as u64)),
        key_le(char_key(same), char_key(same + (seq![x] + a))),
        !key_le(char_key(same + (seq![x] + a)), char_key(same)),
{
    let p = char_key(same);
    let u = char_key(seq![x] + a);
    let v = char_key(seq![y] + b);
    let none = Seq::<u64>::empty();
    assert(char_key(same + (seq![x] + a)) == p + u);
    assert(char_key(same + (seq![y] + b)) == p + v);
    assert(p + none == p);
    assert(u[0] == x as u64 && v[0] == y as u64);
    lemma_common(p, u, v);
    lemma_common(p, none, u);
    lemma_common(p, u, none);
}

// ── charts ──────────────────────────────────────────────────────────────────

/// The chunks of some files in one class of the latency histogram.
pub open spec fn in_class_of(files: Seq<FileMeasurement>, b: int) -> nat
    decreases files.len(),
{
    if files.len() == 0 {
        0
    } else {
        in_class_of(files.drop_last(), b) + files.last().latency_buckets@[b] as nat
    }
}

proof fn lemma_in_class_of(files: Seq<FileMeasurement>, b: int)
    ensures
        in_class_of(files, b) == bucket_total(files, b),
    decreases files.len(),
{
    if files.len() > 0 {
        lemma_in_class_of(files.drop_last(), b);
    }
}

/// The bounds that the label of a latency class names.
pub open spec fn class_label(b: int) -> Seq<char> {
    if b < 13 {
        "≤ "@ + human_ns_text(class_bound(b))
    } else {
        "> "@ + human_ns_text(class_bound(12))
    }
}

/// The latency chart of a profile has a bar for each class in which some file has
/// chunks, labelled with its bound and as long as the number of chunks of all files.
pub proof fn law_the_latency_chart_counts_all_files(files: Seq<FileMeasurement>, b: int)
    requires
        0 <= b < 14,
    ensures
        in_class_of(files, b) > 0 ==> bucket_bars(files, 14).contains(
            BarModel {
                label: class_label(b),
                value: Binary64::whole(in_class_of(files, b)),
                shown: decimal(in_class_of(files, b)),
            },
        ),
{
    lemma_in_class_of(files, b);
    law_latency_bounds_go_by_one_two_five(12);
    if b < 13 {
        law_latency_bounds_go_by_one_two_five(b);
    }
    if in_class_of(files, b) > 0 {
        lemma_bar_stays(files, b, 14);
    }
}

proof fn lemma_bar_stays(files: Seq<FileMeasurement>, b: int, n: int)
    requires
        0 <= b < n <= 14,
        bucket_total(files, b) > 0,
    ensures
        bucket_bars(files, n).contains(
            BarModel {
                label: bucket_label(b),
                value: Binary64::whole(bucket_total(files, b)),
                shown: decimal(bucket_total(files, b)),
            },
        ),
    decreases n,
{
    let bar = BarModel {
        label: bucket_label(b),
        value: Binary64::whole(bucket_total(files, b)),
        shown: decimal(bucket_total(files, b)),
    };
    let all = bucket_bars(files, n);
    if b == n - 1 {
        assert(all[all.len() - 1] == bar);
    } else {
        lemma_bar_stays(files, b, n - 1);
        let init = bucket_bars(files, n - 1);
        let i = choose|i: int| 0 <= i < init.len() && init[i] == bar;
        assert(all[i] == bar);
    }
}

/// The latency distribution on the screen of a file has a line for each class that has
/// chunks, with the class's bound and the number of its chunks.
pub proof fn law_the_screen_has_a_line_per_latency_class(
    buckets: Seq<u64>,
    max: nat,
    b: int,
    n: int,
)
    requires
        0 <= b < n <= 14,
        buckets.len() == 14,
        buckets[b] > 0,
    ensures
        screen::bucket_lines(buckets, max, n).contains(
            screen::bucket_line(b, buckets[b] as nat, max),
        ),
        screen::bucket_label(b) == class_label(b),
    decreases n,
{
    law_latency_bounds_go_by_one_two_five(12);
    if b < 13 {
        law_latency_bounds_go_by_one_two_five(b);
    }
    let line = screen::bucket_line(b, buckets[b] as nat, max);
    let all = screen::bucket_lines(buckets, max, n);
    if b == n - 1 {
        assert(all[all.len() - 1] == line);
    } else {
        law_the_screen_has_a_line_per_latency_class(buckets, max, b, n - 1);
        let init = screen::bucket_lines(buckets, max, n - 1);
        let i = choose|i: int| 0 <= i < init.len() && init[i] == line;
        assert(all[i] == line);
    }
}

/// The throughput chart of a profile has the slowest thirty files, slowest first: each
/// bar is that of a file, with its name, its throughput as length and in writing.
pub proof fn law_the_throughput_chart_has_the_slowest_first(
    files: Seq<FileMeasurement>,
    i: int,
    j: int,
)
    requires
        files.len() <= usize::MAX,
        forall|k: int| 0 <= k < files.len() ==> (#[trigger] files[k]).rate().wf(),
        0 <= i < j < file_bars(files).len(),
    ensures
        file_bars(files).len() == if files.len() < 30 {
            files.len() as int
        } else {
            30
        },
        file_bars(files)[i].value.units() <= file_bars(files)[j].value.units(),
        exists|k: int|
            0 <= k < files.len() && {
                let m = #[trigger] files[k];
                &&& file_bars(files)[i].label == base_name(m.path@)
                &&& file_bars(files)[i].value == m.rate()
                &&& file_bars(files)[i].shown == m.rate().fixed(1) + " MiB/s"@
            },
{
    let sorted = SortKey::Throughput.sorted(files);
    crate::report::lemma_sorting_keeps_the_files(SortKey::Throughput, files);
    law_sorting_orders_by_the_key(SortKey::Throughput, files, i, j);
    let order = crate::order::stable_order(SortKey::Throughput.places(files));
    assert(sorted[i] == files[order[i] as int]);
    let k = order[i] as int;
    assert(file_bars(files)[i] == file_bar(files[k]));
    assert(0 <= k < files.len());
}

// ── file types ──────────────────────────────────────────────────────────────

/// The type of a file is the extension of its name in small letters, behind whatever
/// directories its path goes through; a name without a dot has none.
pub proof fn law_a_file_type_is_its_extension(dir: Seq<char>, stem: Seq<char>, ext: Seq<char>)
    requires
        dir.len() > 0 ==> separates(dir.last()),
        stem.len() > 0,
        forall|i: int| 0 <= i < stem.len() ==> !separates(#[trigger] stem[i]),
        forall|i: int| 0 <= i < ext.len() ==> !separates(#[trigger] ext[i]) && ext[i] != '.',
        stem + seq!['.'] + ext != seq!['.', '.'],
    ensures
        ext_name(dir + (stem + seq!['.'] + ext)) == lowercase(ext),
        ext_name(dir + ext) == "(none)"@,
{
    let name = stem + seq!['.'] + ext;
    assert forall|i: int| 0 <= i < name.len() implies !separates(#[trigger] name[i]) by {
        if i < stem.len() {
            assert(name[i] == stem[i]);
        } else if i > stem.len() {
            assert(name[i] == ext[i - stem.len() - 1]);
        }
    }
    lemma_base_name_behind(dir, name);
    lemma_base_name_behind(dir, ext);
    lemma_extension(stem, ext);
    assert(extension(ext, '.') is None) by {
        if exists|i: int| 0 < i && is_last_dot(ext, '.', i) {
            let i = choose|i: int| 0 < i && is_last_dot(ext, '.', i);
            assert(ext[i] == '.');
        }
    }
}

proof fn lemma_base_name_behind(dir: Seq<char>, name: Seq<char>)
    requires
        dir.len() > 0 ==> separates(dir.last()),
        forall|i: int| 0 <= i < name.len() ==> !separates(#[trigger] name[i]),
    ensures
        base_name(dir + name) == name,
{
    let path = dir + name;
    let b = base_name(path);
    let n = path.len() - b.len();
    law_a_base_name_is_the_end_of_its_path(path, dir.len() as int - 1 - n);
    if n > dir.len() {
        assert(path[n - 1] == name[n - 1 - dir.len()]);
    }
    if n < dir.len() {
        assert(b[dir.len() - 1 - n] == path[dir.len() - 1]);
        assert(path[dir.len() - 1] == dir.last());
    }
    assert(path.skip(dir.len() as int) == name);
}

/// The number of files of a type.
pub open spec fn files_of_type(files: Seq<FileMeasurement>, ext: Seq<char>) -> nat
    decreases files.len(),
{
    if files.len() == 0 {
        0
    } else {
        files_of_type(files.drop_last(), ext) + if ext_name(files.last().path@) == ext {
            1nat
        } else {
            0
        }
    }
}

/// The bytes read from the files of a type.
pub open spec fn bytes_of_type(files: Seq<FileMeasurement>, ext: Seq<char>) -> nat
    decreases files.len(),
{
    if files.len() == 0 {
        0
    } else {
        bytes_of_type(files.drop_last(), ext) + if ext_name(files.last().path@) == ext {
            files.last().bytes_read as nat
        } else {
            0
        }
    }
}

/// The time spent on the files of a type.
pub open spec fn nanos_of_type(files: Seq<FileMeasurement>, ext: Seq<char>) -> nat
    decreases files.len(),
{
    if files.len() == 0 {
        0
    } else {
        nanos_of_type(files.drop_last(), ext) + if ext_name(files.last().path@) == ext {
            files.last().wall_nanos as nat
        } else {
            0
        }
    }
}

proof fn lemma_of_type(files: Seq<FileMeasurement>, ext: Seq<char>)
    ensures
        of_type(files, ext).len() == files_of_type(files, ext),
        total_read(of_type(files, ext)) == bytes_of_type(files, ext),
        total_nanos(of_type(files, ext)) == nanos_of_type(files, ext),
    decreases files.len(),
{
    if files.len() > 0 {
        let before = of_type(files.drop_last(), ext);
        lemma_of_type(files.drop_last(), ext);
        assert(before.push(files.last()).drop_last() == before);
    }
}

/// The breakdown of a profile has a row for the type of every file, and each row has the
/// number, the bytes and the time of the files of its type, and the throughput of these.
pub proof fn law_a_breakdown_counts_each_type(files: Seq<FileMeasurement>, i: int, k: int)
    requires
        0 <= i < breakdown(files).len(),
        0 <= k < files.len(),
    ensures
        ({
            let e = breakdown(files)[i];
            &&& e.files == files_of_type(files, e.ext)
            &&& e.bytes == bytes_of_type(files, e.ext)
            &&& e.wall_nanos == nanos_of_type(files, e.ext)
            &&& 0 < e.wall_nanos <= u64::MAX && e.bytes <= u64::MAX ==> is_about(
                e.rate(),
                e.bytes * 1_000_000_000,
                1024 * 1024 * e.wall_nanos,
            )
        }),
        exists|j: int|
            0 <= j < breakdown(files).len() && (#[trigger] breakdown(files)[j]).ext == ext_name(
                files[k].path@,
            ),
{
    let e = breakdown(files)[i];
    lemma_of_type(files, e.ext);
    if 0 < e.wall_nanos <= u64::MAX && e.bytes <= u64::MAX {
        law_a_throughput_is_bytes_over_time(e.bytes as u64, e.wall_nanos as u64);
    }
    lemma_type_is_listed(files, k);
    let name = ext_name(files[k].path@);
    let j = choose|j: int| 0 <= j < exts(files).len() && exts(files)[j] == name;
    assert(breakdown(files)[j].ext == name);
}

proof fn lemma_type_is_listed(files: Seq<FileMeasurement>, k: int)
    requires
        0 <= k < files.len(),
    ensures
        exts(files).contains(ext_name(files[k].path@)),
    decreases files.len(),
{
    let name = ext_name(files[k].path@);
    let init = exts(files.drop_last());
    let all = exts(files);
    if k == files.len() - 1 {
        if !init.contains(name) {
            assert(all[all.len() - 1] == name);
        }
    } else {
        lemma_type_is_listed(files.drop_last(), k);
        let j = choose|j: int| 0 <= j < init.len() && init[j] == name;
        assert(all[j] == name);
    }
}

} // verus!
