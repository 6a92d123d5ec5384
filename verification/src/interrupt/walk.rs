//! What a whole walk finds: every file once, and with a filter the matching part
//! of what there is without one.

use vstd::prelude::*;

use super::discovery::{
    by_name, by_path, entry_keys, law_a_finished_walk_has_found_every_file,
    law_a_listing_keeps_the_course, law_a_walk_starts_on_course,
    law_an_unreadable_directory_is_passed_over, leads, name_key, on_course, path_key, path_keys,
    DiscoveryState, EntryModel, FilterModel, Listing, NameModel,
};
use crate::order::{
    before, key_le, lemma_key_antisymmetric, lemma_stable_order_exists, stable_order,
};

verus! {

/// The filter that keeps everything.
pub open spec fn everything() -> FilterModel {
    FilterModel { skip_hidden: false, extensions: Seq::empty() }
}

/// A walk from a directory, before its first step.
pub open spec fn start(f: FilterModel) -> DiscoveryState {
    DiscoveryState { filter: f, stack: seq![Seq::empty()], files: Seq::empty() }
}

/// A walk after one more step: the next directory is listed, or passed over where
/// it cannot be.
pub open spec fn step(fs: Listing, s: DiscoveryState) -> DiscoveryState {
    if s.stack.len() == 0 {
        s
    } else {
        match fs(s.stack.last()) {
            Some(entries) => s.popped().after_listing(s.stack.last(), entries),
            None => s.popped(),
        }
    }
}

/// A walk after `n` steps.
pub open spec fn walked(fs: Listing, f: FilterModel, n: nat) -> DiscoveryState
    decreases n,
{
    if n == 0 {
        start(f)
    } else {
        step(fs, walked(fs, f, (n - 1) as nat))
    }
}

/// Whether the names of some entries are distinct.
pub open spec fn distinct_names(entries: Seq<EntryModel>) -> bool {
    forall|i: int, j: int|
        0 <= i < j < entries.len() ==> (#[trigger] entries[i]).name.bytes != (
        #[trigger] entries[j]).name.bytes
}

/// Whether a file system is a proper one: no directory has two entries of one
/// name, nor more of them than can be counted.
pub open spec fn proper(fs: Listing) -> bool {
    forall|dir: Seq<NameModel>|
        (#[trigger] fs(dir)) is Some ==> fs(dir)->0.len() <= usize::MAX && distinct_names(
            fs(dir)->0,
        )
}

// ── no path leads to another ────────────────────────────────────────────────

/// Whether the path `b` begins with the names of the path `a`.
pub open spec fn above(a: Seq<NameModel>, b: Seq<NameModel>) -> bool {
    &&& a.len() <= b.len()
    &&& forall|i: int| 0 <= i < a.len() ==> (#[trigger] a[i]).bytes == b[i].bytes
}

/// Whether neither of two paths begins with the other.
pub open spec fn beside(a: Seq<NameModel>, b: Seq<NameModel>) -> bool {
    !above(a, b) && !above(b, a)
}

spec fn apart(s: DiscoveryState) -> bool {
    &&& forall|i: int, j: int|
        0 <= i < j < s.stack.len() ==> beside(#[trigger] s.stack[i], #[trigger] s.stack[j])
    &&& forall|i: int, j: int|
        0 <= i < j < s.files.len() ==> beside(#[trigger] s.files[i], #[trigger] s.files[j])
    &&& forall|i: int, j: int|
        0 <= i < s.stack.len() && 0 <= j < s.files.len() ==> beside(
            #[trigger] s.stack[i],
            #[trigger] s.files[j],
        )
}

spec fn is_child(x: Seq<NameModel>, dir: Seq<NameModel>, entries: Seq<EntryModel>) -> bool {
    &&& x.len() == dir.len() + 1
    &&& above(dir, x)
    &&& exists|m: int|
        0 <= m < entries.len() && (#[trigger] entries[m]).name.bytes == x.last().bytes
}

spec fn placed(x: Seq<NameModel>, dir: Seq<NameModel>, entries: Seq<EntryModel>) -> bool {
    beside(x, dir) || is_child(x, dir, entries)
}

spec fn all_placed(s: DiscoveryState, dir: Seq<NameModel>, entries: Seq<EntryModel>) -> bool {
    &&& forall|i: int| 0 <= i < s.stack.len() ==> placed(#[trigger] s.stack[i], dir, entries)
    &&& forall|i: int| 0 <= i < s.files.len() ==> placed(#[trigger] s.files[i], dir, entries)
}

proof fn lemma_still_placed(x: Seq<NameModel>, dir: Seq<NameModel>, entries: Seq<EntryModel>)
    requires
        entries.len() > 0,
        placed(x, dir, entries.drop_last()),
    ensures
        placed(x, dir, entries),
{
    if !beside(x, dir) {
        let init = entries.drop_last();
        let m = choose|m: int|
            0 <= m < init.len() && (#[trigger] init[m]).name.bytes == x.last().bytes;
        assert(entries[m] == init[m]);
    }
}

proof fn lemma_child_is_beside(
    x: Seq<NameModel>,
    dir: Seq<NameModel>,
    entries: Seq<EntryModel>,
)
    requires
        entries.len() > 0,
        distinct_names(entries),
        placed(x, dir, entries.drop_last()),
    ensures
        beside(x, dir.push(entries.last().name)),
        beside(dir.push(entries.last().name), x),
        is_child(dir.push(entries.last().name), dir, entries),
{
    let e = entries.last();
    let c = dir.push(e.name);
    let n = dir.len() as int;
    assert(above(dir, c));
    assert(entries[entries.len() - 1].name.bytes == c.last().bytes);
    if beside(x, dir) {
        if above(x, c) {
            if x.len() <= n {
                assert forall|i: int| 0 <= i < x.len() implies (#[trigger] x[i]).bytes
                    == dir[i].bytes by {
                    assert(x[i].bytes == c[i].bytes);
                }
                assert(above(x, dir));
            } else {
                assert forall|i: int| 0 <= i < n implies (#[trigger] dir[i]).bytes == x[i].bytes by {
                    assert(x[i].bytes == c[i].bytes);
                }
                assert(above(dir, x));
            }
        }
        if above(c, x) {
            assert forall|i: int| 0 <= i < n implies (#[trigger] dir[i]).bytes == x[i].bytes by {
                assert(c[i].bytes == x[i].bytes);
            }
            assert(above(dir, x));
        }
    } else {
        let init = entries.drop_last();
        let m = choose|m: int|
            0 <= m < init.len() && (#[trigger] init[m]).name.bytes == x.last().bytes;
        assert(entries[m] == init[m]);
        assert(entries[m].name.bytes != entries[entries.len() - 1].name.bytes);
        assert(x[n].bytes != c[n].bytes);
    }
}

proof fn lemma_entries_stay_apart(
    s: DiscoveryState,
    dir: Seq<NameModel>,
    entries: Seq<EntryModel>,
)
    requires
        apart(s),
        all_placed(s, dir, Seq::empty()),
        distinct_names(entries),
    ensures
        apart(s.with_entries(dir, entries)),
        all_placed(s.with_entries(dir, entries), dir, entries),
    decreases entries.len(),
{
    if entries.len() == 0 {
        assert(entries == Seq::<EntryModel>::empty());
    } else {
        let init = entries.drop_last();
        let e = entries.last();
        let t = s.with_entries(dir, init);
        let u = s.with_entries(dir, entries);
        let c = dir.push(e.name);
        assert(distinct_names(init)) by {
            assert forall|i: int, j: int| 0 <= i < j < init.len() implies (
            #[trigger] init[i]).name.bytes != (#[trigger] init[j]).name.bytes by {
                assert(entries[i] == init[i] && entries[j] == init[j]);
            }
        }
        lemma_entries_stay_apart(s, dir, init);
        assert forall|i: int| 0 <= i < t.stack.len() implies placed(#[trigger] t.stack[i], dir, entries)
            && beside(t.stack[i], c) by {
            lemma_still_placed(t.stack[i], dir, entries);
            lemma_child_is_beside(t.stack[i], dir, entries);
        }
        assert forall|i: int| 0 <= i < t.files.len() implies placed(#[trigger] t.files[i], dir, entries)
            && beside(t.files[i], c) by {
            lemma_still_placed(t.files[i], dir, entries);
            lemma_child_is_beside(t.files[i], dir, entries);
        }
        assert(above(dir, c));
        assert(entries[entries.len() - 1].name.bytes == c.last().bytes);
        assert(placed(c, dir, entries));
        assert(u.stack == t.stack || u.stack == t.stack.push(c));
        assert(u.files == t.files || u.files == t.files.push(c));
    }
}

proof fn lemma_by_name_distinct(entries: Seq<EntryModel>)
    requires
        entries.len() <= usize::MAX,
        distinct_names(entries),
    ensures
        distinct_names(by_name(entries)),
{
    let keys = entry_keys(entries);
    lemma_stable_order_exists(keys);
    let p = stable_order(keys);
    let sorted = by_name(entries);
    assert forall|i: int, j: int| 0 <= i < j < sorted.len() implies (
    #[trigger] sorted[i]).name.bytes != (#[trigger] sorted[j]).name.bytes by {
        assert(before(keys, p[i] as int, p[j] as int));
        let a = p[i] as int;
        let b = p[j] as int;
        assert(sorted[i] == entries[a] && sorted[j] == entries[b]);
        if a < b {
            assert(entries[a].name.bytes != entries[b].name.bytes);
        } else if b < a {
            assert(entries[b].name.bytes != entries[a].name.bytes);
        }
    }
}

proof fn lemma_step_stays_apart(fs: Listing, s: DiscoveryState)
    requires
        proper(fs),
        apart(s),
    ensures
        apart(step(fs, s)),
{
    if s.stack.len() > 0 {
        let d = s.stack.last();
        let t = s.popped();
        let last = s.stack.len() - 1;
        assert(s.stack[last] == d);
        assert(apart(t)) by {
            assert forall|i: int, j: int| 0 <= i < j < t.stack.len() implies beside(
                #[trigger] t.stack[i],
                #[trigger] t.stack[j],
            ) by {
                assert(t.stack[i] == s.stack[i] && t.stack[j] == s.stack[j]);
            }
            assert forall|i: int, j: int|
                0 <= i < t.stack.len() && 0 <= j < t.files.len() implies beside(
                #[trigger] t.stack[i],
                #[trigger] t.files[j],
            ) by {
                assert(t.stack[i] == s.stack[i]);
            }
        }
        if let Some(entries) = fs(d) {
            assert(all_placed(t, d, Seq::empty())) by {
                assert forall|i: int| 0 <= i < t.stack.len() implies placed(
                    #[trigger] t.stack[i],
                    d,
                    Seq::empty(),
                ) by {
                    assert(t.stack[i] == s.stack[i]);
                    assert(beside(s.stack[i], s.stack[last]));
                }
                assert forall|i: int| 0 <= i < t.files.len() implies placed(
                    #[trigger] t.files[i],
                    d,
                    Seq::empty(),
                ) by {
                    assert(beside(s.stack[last], s.files[i]));
                }
            }
            lemma_by_name_distinct(entries);
            lemma_entries_stay_apart(t, d, by_name(entries));
        }
    }
}

proof fn lemma_entries_keep_the_filter(
    s: DiscoveryState,
    dir: Seq<NameModel>,
    entries: Seq<EntryModel>,
)
    ensures
        s.with_entries(dir, entries).filter == s.filter,
    decreases entries.len(),
{
    if entries.len() > 0 {
        lemma_entries_keep_the_filter(s, dir, entries.drop_last());
    }
}

proof fn lemma_walk(fs: Listing, f: FilterModel, n: nat)
    requires
        proper(fs),
    ensures
        on_course(fs, walked(fs, f, n)),
        apart(walked(fs, f, n)),
        walked(fs, f, n).filter == f,
    decreases n,
{
    if n == 0 {
        law_a_walk_starts_on_course(fs, f);
    } else {
        let s = walked(fs, f, (n - 1) as nat);
        lemma_walk(fs, f, (n - 1) as nat);
        lemma_step_stays_apart(fs, s);
        if s.stack.len() > 0 {
            match fs(s.stack.last()) {
                Some(entries) => {
                    law_a_listing_keeps_the_course(fs, s, entries);
                    lemma_entries_keep_the_filter(s.popped(), s.stack.last(), by_name(entries));
                },
                None => law_an_unreadable_directory_is_passed_over(fs, s),
            }
        }
    }
}

// ── the keys of paths ───────────────────────────────────────────────────────

proof fn lemma_name_key(bytes: Seq<u8>)
    ensures
        name_key(bytes).len() == bytes.len() + 1,
        name_key(bytes).last() == 0,
        forall|i: int|
            0 <= i < bytes.len() ==> #[trigger] name_key(bytes)[i] == bytes[i] + 1,
{
}

proof fn lemma_path_key_end(p: Seq<NameModel>)
    requires
        p.len() > 0,
    ensures
        path_key(p).len() > 0,
        path_key(p).last() == 0,
{
    lemma_name_key(p.last().bytes);
    let k = name_key(p.last().bytes);
    assert(path_key(p).last() == k.last());
}

/// Paths with the same key have the same names.
proof fn lemma_key_tells_the_path(a: Seq<NameModel>, b: Seq<NameModel>)
    requires
        path_key(a) == path_key(b),
    ensures
        a.len() == b.len(),
        above(a, b),
    decreases a.len() + b.len(),
{
    if a.len() == 0 {
        if b.len() > 0 {
            lemma_path_key_end(b);
        }
    } else if b.len() == 0 {
        lemma_path_key_end(a);
    } else {
        let x = a.last().bytes;
        let y = b.last().bytes;
        lemma_name_key(x);
        lemma_name_key(y);
        lemma_last_names_agree(a, b);
        lemma_last_names_agree(b, a);
        let k = path_key(a);
        let n = k.len() - (x.len() + 1);
        assert(path_key(a.drop_last()) == k.take(n));
        assert(path_key(b.drop_last()) == k.take(n));
        lemma_key_tells_the_path(a.drop_last(), b.drop_last());
        assert(x == y) by {
            assert forall|i: int| 0 <= i < x.len() implies x[i] == y[i] by {
                assert(k[n + i] == name_key(x)[i]);
                assert(k[n + i] == name_key(y)[i]);
            }
        }
        assert forall|i: int| 0 <= i < a.len() implies (#[trigger] a[i]).bytes == b[i].bytes by {
            if i < a.len() - 1 {
                assert(a.drop_last()[i].bytes == b.drop_last()[i].bytes);
            }
        }
    }
}

proof fn lemma_last_names_agree(a: Seq<NameModel>, b: Seq<NameModel>)
    requires
        a.len() > 0,
        b.len() > 0,
        path_key(a) == path_key(b),
    ensures
        a.last().bytes.len() >= b.last().bytes.len(),
{
    let x = a.last().bytes;
    let y = b.last().bytes;
    let k = path_key(a);
    lemma_name_key(x);
    lemma_name_key(y);
    if x.len() < y.len() {
        let at = k.len() - (x.len() + 1) - 1;
        let front = path_key(a.drop_last());
        let other = path_key(b.drop_last());
        assert(k.len() == front.len() + x.len() + 1);
        assert(k.len() == other.len() + y.len() + 1);
        assert(at >= other.len());
        assert(k[at] == name_key(y)[at - other.len()]);
        if a.drop_last().len() > 0 {
            lemma_path_key_end(a.drop_last());
            assert(k[at] == front.last());
        } else {
            assert(front.len() == 0);
        }
    }
}

// ── every file once ─────────────────────────────────────────────────────────

/// Whether paths ascend: each comes before the next, and none occurs twice.
pub open spec fn ascending(paths: Seq<Seq<NameModel>>) -> bool {
    forall|i: int, j: int|
        0 <= i < j < paths.len() ==> key_le(
            path_key(#[trigger] paths[i]),
            path_key(#[trigger] paths[j]),
        ) && path_key(paths[i]) != path_key(paths[j])
}

/// A walk hands out its files in strictly ascending order of their paths, so that
/// no file occurs twice.
pub proof fn law_a_walk_finds_no_file_twice(fs: Listing, f: FilterModel, n: nat)
    requires
        proper(fs),
        walked(fs, f, n).files.len() <= usize::MAX,
    ensures
        ascending(by_path(walked(fs, f, n).files)),
        by_path(walked(fs, f, n).files).no_duplicates(),
{
    let files = walked(fs, f, n).files;
    lemma_walk(fs, f, n);
    let keys = path_keys(files);
    lemma_stable_order_exists(keys);
    let p = stable_order(keys);
    let sorted = by_path(files);
    assert forall|i: int, j: int| 0 <= i < j < sorted.len() implies key_le(
        path_key(#[trigger] sorted[i]),
        path_key(#[trigger] sorted[j]),
    ) && path_key(sorted[i]) != path_key(sorted[j]) by {
        let a = p[i] as int;
        let b = p[j] as int;
        assert(before(keys, a, b));
        assert(keys[a] == path_key(sorted[i]) && keys[b] == path_key(sorted[j]));
        assert(sorted[i] == files[a] && sorted[j] == files[b]);
        if path_key(files[a]) == path_key(files[b]) {
            lemma_key_tells_the_path(files[a], files[b]);
            lemma_key_tells_the_path(files[b], files[a]);
            if a < b {
                assert(beside(files[a], files[b]));
            } else if b < a {
                assert(beside(files[b], files[a]));
            }
        }
    }
    assert forall|i: int, j: int|
        0 <= i < sorted.len() && 0 <= j < sorted.len() && i != j implies sorted[i] != sorted[j] by {
        if i < j {
            assert(path_key(sorted[i]) != path_key(sorted[j]));
        } else {
            assert(path_key(sorted[j]) != path_key(sorted[i]));
        }
    }
}

// ── the matching part ───────────────────────────────────────────────────────

/// Whether a filter keeps the file at a path: it accepts the file's name, and
/// enters every directory on the way.
pub open spec fn kept(f: FilterModel, path: Seq<NameModel>) -> bool {
    &&& path.len() > 0
    &&& f.accepts(path.last())
    &&& forall|i: int| 0 <= i < path.len() - 1 ==> f.enters(#[trigger] path[i])
}

/// The paths that a filter keeps, in the order in which they are.
pub open spec fn kept_of(f: FilterModel, paths: Seq<Seq<NameModel>>) -> Seq<Seq<NameModel>>
    decreases paths.len(),
{
    if paths.len() == 0 {
        Seq::empty()
    } else if kept(f, paths.last()) {
        kept_of(f, paths.drop_last()).push(paths.last())
    } else {
        kept_of(f, paths.drop_last())
    }
}

proof fn lemma_leads_to_what_is_kept(
    fs: Listing,
    f: FilterModel,
    dir: Seq<NameModel>,
    rest: Seq<NameModel>,
)
    ensures
        leads(fs, f, dir, rest) == (leads(fs, everything(), dir, rest) && kept(f, rest)),
    decreases rest.len(),
{
    if rest.len() > 1 {
        let tail = rest.skip(1);
        lemma_leads_to_what_is_kept(fs, f, dir.push(rest[0]), tail);
        assert(tail.last() == rest.last());
        if f.enters(rest[0]) && kept(f, tail) {
            assert forall|i: int| 0 <= i < rest.len() - 1 implies f.enters(#[trigger] rest[i]) by {
                if i > 0 {
                    assert(tail[i - 1] == rest[i]);
                }
            }
        }
        if kept(f, rest) {
            assert forall|i: int| 0 <= i < tail.len() - 1 implies f.enters(#[trigger] tail[i]) by {
                assert(tail[i] == rest[i + 1]);
            }
        }
    }
}

proof fn lemma_kept_of(f: FilterModel, paths: Seq<Seq<NameModel>>)
    requires
        ascending(paths),
    ensures
        ascending(kept_of(f, paths)),
        forall|p: Seq<NameModel>| #[trigger]
            kept_of(f, paths).contains(p) <==> paths.contains(p) && kept(f, p),
    decreases paths.len(),
{
    if paths.len() > 0 {
        let init = paths.drop_last();
        let last = paths.last();
        let part = kept_of(f, init);
        let whole = kept_of(f, paths);
        assert(ascending(init)) by {
            assert forall|i: int, j: int| 0 <= i < j < init.len() implies key_le(
                path_key(#[trigger] init[i]),
                path_key(#[trigger] init[j]),
            ) && path_key(init[i]) != path_key(init[j]) by {
                assert(init[i] == paths[i] && init[j] == paths[j]);
            }
        }
        lemma_kept_of(f, init);
        assert forall|i: int, j: int| 0 <= i < j < whole.len() implies key_le(
            path_key(#[trigger] whole[i]),
            path_key(#[trigger] whole[j]),
        ) && path_key(whole[i]) != path_key(whole[j]) by {
            if j < part.len() {
                assert(whole[i] == part[i] && whole[j] == part[j]);
            } else {
                assert(whole[i] == part[i] && whole[j] == last);
                assert(part.contains(part[i]));
                let k = choose|k: int| 0 <= k < init.len() && init[k] == part[i];
                assert(paths[k] == part[i]);
                assert(paths[paths.len() - 1] == last);
            }
        }
        assert forall|p: Seq<NameModel>| #[trigger]
            whole.contains(p) <==> paths.contains(p) && kept(f, p) by {
            lemma_with_last(init, last, p);
            assert(init.push(last) == paths);
            lemma_with_last(part, last, p);
            assert(part.contains(p) <==> init.contains(p) && kept(f, p));
        }
    }
}

proof fn lemma_with_last(s: Seq<Seq<NameModel>>, last: Seq<NameModel>, p: Seq<NameModel>)
    ensures
        s.push(last).contains(p) <==> s.contains(p) || p == last,
{
    let t = s.push(last);
    if s.contains(p) {
        let i = choose|i: int| 0 <= i < s.len() && s[i] == p;
        assert(t[i] == p);
    }
    if p == last {
        assert(t[s.len() as int] == p);
    }
    if t.contains(p) && p != last {
        let i = choose|i: int| 0 <= i < t.len() && t[i] == p;
        assert(s[i] == p);
    }
}

/// Two ascending lists of the same paths are the same.
proof fn lemma_same_ascending(a: Seq<Seq<NameModel>>, b: Seq<Seq<NameModel>>)
    requires
        ascending(a),
        ascending(b),
        forall|p: Seq<NameModel>| #[trigger] a.contains(p) <==> b.contains(p),
    ensures
        a == b,
    decreases a.len(),
{
    if a.len() == 0 {
        if b.len() > 0 {
            assert(b.contains(b[0]));
            assert(a.contains(b[0]));
        }
    } else {
        assert(a.contains(a[0]));
        assert(b.contains(a[0]));
        let x = a.last();
        let y = b.last();
        let m = a.len() - 1;
        let n = b.len() - 1;
        assert(a[m] == x && b[n] == y);
        assert(a.contains(x) && b.contains(y));
        assert(b.contains(x));
        assert(a.contains(y));
        let i = choose|i: int| 0 <= i < b.len() && b[i] == x;
        let j = choose|j: int| 0 <= j < a.len() && a[j] == y;
        if x != y {
            assert(i < n && j < m);
            assert(key_le(path_key(b[i]), path_key(b[n])));
            assert(key_le(path_key(a[j]), path_key(a[m])));
            lemma_key_antisymmetric(path_key(x), path_key(y));
            assert(path_key(b[i]) != path_key(b[n]));
        }
        let c = a.drop_last();
        let d = b.drop_last();
        lemma_ascending_front(a);
        lemma_ascending_front(b);
        assert forall|p: Seq<NameModel>| #[trigger] c.contains(p) <==> d.contains(p) by {
            assert(a.contains(p) <==> b.contains(p));
            lemma_with_last(c, x, p);
            lemma_with_last(d, x, p);
            assert(c.push(x) == a && d.push(x) == b);
        }
        lemma_same_ascending(c, d);
        assert(c.push(x) == a && d.push(x) == b);
    }
}

proof fn lemma_ascending_front(a: Seq<Seq<NameModel>>)
    requires
        ascending(a),
        a.len() > 0,
    ensures
        ascending(a.drop_last()),
        !a.drop_last().contains(a.last()),
{
    let c = a.drop_last();
    assert forall|i: int, j: int| 0 <= i < j < c.len() implies key_le(
        path_key(#[trigger] c[i]),
        path_key(#[trigger] c[j]),
    ) && path_key(c[i]) != path_key(c[j]) by {
        assert(c[i] == a[i] && c[j] == a[j]);
    }
    if c.contains(a.last()) {
        let i = choose|i: int| 0 <= i < c.len() && c[i] == a.last();
        assert(path_key(a[i]) != path_key(a[a.len() - 1]));
    }
}

/// A walk with a filter finds the matching part of what a walk without one finds
/// in the same directory: exactly the files that the filter keeps, in the same
/// order. The name of the directory itself does not matter.
pub proof fn law_a_filtered_walk_finds_the_matching_part(
    fs: Listing,
    f: FilterModel,
    n: nat,
    m: nat,
)
    requires
        proper(fs),
        walked(fs, everything(), n).stack.len() == 0,
        walked(fs, f, m).stack.len() == 0,
        walked(fs, everything(), n).files.len() <= usize::MAX,
        walked(fs, f, m).files.len() <= usize::MAX,
    ensures
        by_path(walked(fs, f, m).files) == kept_of(
            f,
            by_path(walked(fs, everything(), n).files),
        ),
{
    let s = walked(fs, everything(), n);
    let t = walked(fs, f, m);
    let all = by_path(s.files);
    let some = by_path(t.files);
    lemma_walk(fs, everything(), n);
    lemma_walk(fs, f, m);
    law_a_walk_finds_no_file_twice(fs, everything(), n);
    law_a_walk_finds_no_file_twice(fs, f, m);
    lemma_kept_of(f, all);
    assert forall|p: Seq<NameModel>| #[trigger]
        some.contains(p) <==> kept_of(f, all).contains(p) by {
        law_a_finished_walk_has_found_every_file(fs, s, p);
        law_a_finished_walk_has_found_every_file(fs, t, p);
        lemma_leads_to_what_is_kept(fs, f, Seq::empty(), p);
    }
    lemma_same_ascending(some, kept_of(f, all));
}

} // verus!
