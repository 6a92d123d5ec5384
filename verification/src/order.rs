//! Stable ordering by lexicographic keys.
//!
//! Everything that is sorted is sorted the same way: each item gets a key, a
//! list of numbers compared lexicographically, and the items are arranged by
//! key, equal keys in their original order.

use vstd::prelude::*;

verus! {

/// The lexicographic order on keys.
pub open spec fn key_le(a: Seq<u64>, b: Seq<u64>) -> bool
    decreases a.len(),
{
    if a.len() == 0 {
        true
    } else if b.len() == 0 {
        false
    } else if a[0] != b[0] {
        a[0] < b[0]
    } else {
        key_le(a.skip(1), b.skip(1))
    }
}

/// Any two keys are comparable.
pub proof fn lemma_key_total(a: Seq<u64>, b: Seq<u64>)
    ensures
        key_le(a, b) || key_le(b, a),
    decreases a.len(),
{
    if a.len() > 0 && b.len() > 0 && a[0] == b[0] {
        lemma_key_total(a.skip(1), b.skip(1));
    }
}

/// The order on keys is transitive.
pub proof fn lemma_key_transitive(a: Seq<u64>, b: Seq<u64>, c: Seq<u64>)
    requires
        key_le(a, b),
        key_le(b, c),
    ensures
        key_le(a, c),
    decreases a.len(),
{
    if a.len() > 0 && b.len() > 0 && c.len() > 0 && a[0] == b[0] && b[0] == c[0] {
        lemma_key_transitive(a.skip(1), b.skip(1), c.skip(1));
    }
}

/// Two keys that precede each other are equal.
pub proof fn lemma_key_antisymmetric(a: Seq<u64>, b: Seq<u64>)
    requires
        key_le(a, b),
        key_le(b, a),
    ensures
        a == b,
    decreases a.len(),
{
    if a.len() == 0 {
        assert(a == b);
    } else {
        lemma_key_antisymmetric(a.skip(1), b.skip(1));
        assert(a == seq![a[0]] + a.skip(1));
        assert(b == seq![b[0]] + b.skip(1));
    }
}

/// Whether `a` precedes or equals `b`.
pub fn precedes(a: &Vec<u64>, b: &Vec<u64>) -> (r: bool)
    ensures
        r == key_le(a@, b@),
{
    let mut i: usize = 0;
    assert(a@.skip(0) == a@ && b@.skip(0) == b@);
    while i < a.len() && i < b.len() && a[i] == b[i]
        invariant
            i <= a.len(),
            i <= b.len(),
            key_le(a@, b@) == key_le(a@.skip(i as int), b@.skip(i as int)),
        decreases a.len() - i,
    {
        assert(a@.skip(i as int).skip(1) == a@.skip(i + 1));
        assert(b@.skip(i as int).skip(1) == b@.skip(i + 1));
        i = i + 1;
    }
    i == a.len() || (i < b.len() && a[i] < b[i])
}

/// The keys of a list, as sequences.
pub open spec fn keys_of(v: Seq<Vec<u64>>) -> Seq<Seq<u64>> {
    v.map_values(|k: Vec<u64>| k@)
}

/// Item `i` comes before item `j`: by key, equal keys by position.
pub open spec fn before(keys: Seq<Seq<u64>>, i: int, j: int) -> bool {
    &&& key_le(keys[i], keys[j])
    &&& (key_le(keys[j], keys[i]) ==> i < j)
}

/// The positions from `lo` up to `hi`, each once, arranged by `before`.
pub open spec fn arranges(keys: Seq<Seq<u64>>, p: Seq<usize>, lo: int, hi: int) -> bool {
    &&& p.len() == hi - lo
    &&& forall|i: int| 0 <= i < p.len() ==> lo <= #[trigger] p[i] < hi
    &&& forall|i: int, j: int|
        0 <= i < j < p.len() ==> before(keys, #[trigger] p[i] as int, #[trigger] p[j] as int)
    &&& forall|x: usize| lo <= x < hi ==> #[trigger] p.contains(x)
}

/// The stable arrangement of a list of keys.
pub open spec fn is_stable_order(keys: Seq<Seq<u64>>, p: Seq<usize>) -> bool {
    arranges(keys, p, 0, keys.len() as int)
}

/// The stable arrangement of a list of keys, as a function of the keys.
pub open spec fn stable_order(keys: Seq<Seq<u64>>) -> Seq<usize> {
    choose|p: Seq<usize>| is_stable_order(keys, p)
}

proof fn lemma_before_transitive(keys: Seq<Seq<u64>>, i: int, j: int, k: int)
    requires
        before(keys, i, j),
        before(keys, j, k),
    ensures
        before(keys, i, k),
{
    lemma_key_transitive(keys[i], keys[j], keys[k]);
    if key_le(keys[k], keys[i]) {
        lemma_key_transitive(keys[k], keys[i], keys[j]);
        lemma_key_transitive(keys[j], keys[k], keys[i]);
    }
}

/// There is only one stable arrangement.
pub proof fn lemma_stable_order_unique(keys: Seq<Seq<u64>>, p: Seq<usize>, q: Seq<usize>)
    requires
        is_stable_order(keys, p),
        is_stable_order(keys, q),
    ensures
        p == q,
{
    lemma_same_prefix(keys, p, q, keys.len() as int);
    assert(p == q);
}

proof fn lemma_same_prefix(keys: Seq<Seq<u64>>, p: Seq<usize>, q: Seq<usize>, n: int)
    requires
        is_stable_order(keys, p),
        is_stable_order(keys, q),
        0 <= n <= keys.len(),
    ensures
        forall|i: int| 0 <= i < n ==> p[i] == q[i],
    decreases n,
{
    if n > 0 {
        lemma_same_prefix(keys, p, q, n - 1);
        let m = n - 1;
        lemma_not_after(keys, p, q, m);
        lemma_not_after(keys, q, p, m);
        if p[m] != q[m] {
            assert(before(keys, q[m] as int, p[m] as int));
            assert(before(keys, p[m] as int, q[m] as int));
        }
    }
}

proof fn lemma_not_after(keys: Seq<Seq<u64>>, p: Seq<usize>, q: Seq<usize>, m: int)
    requires
        is_stable_order(keys, p),
        is_stable_order(keys, q),
        0 <= m < keys.len(),
        forall|i: int| 0 <= i < m ==> p[i] == q[i],
    ensures
        p[m] == q[m] || before(keys, q[m] as int, p[m] as int),
{
    let x = p[m];
    assert(q.contains(x));
    let k = choose|k: int| 0 <= k < q.len() && q[k] == x;
    if k < m {
        assert(p[k] == x);
        assert(before(keys, p[k] as int, p[m] as int));
    } else if k > m {
        assert(before(keys, q[m] as int, q[k] as int));
    }
}

/// The stable arrangement is what any stable arrangement is.
pub proof fn lemma_stable_order(keys: Seq<Seq<u64>>, p: Seq<usize>)
    requires
        is_stable_order(keys, p),
    ensures
        p == stable_order(keys),
        is_stable_order(keys, stable_order(keys)),
{
    lemma_stable_order_unique(keys, p, stable_order(keys));
}

proof fn lemma_before_total(keys: Seq<Seq<u64>>, i: int, j: int)
    requires
        i != j,
    ensures
        before(keys, i, j) != before(keys, j, i),
{
    lemma_key_total(keys[i], keys[j]);
}

/// Where `x` belongs in an arrangement.
proof fn lemma_place(keys: Seq<Seq<u64>>, p: Seq<usize>, lo: int, hi: int, x: int) -> (k: int)
    requires
        arranges(keys, p, lo, hi),
        x < lo || hi <= x,
    ensures
        0 <= k <= p.len(),
        forall|i: int| 0 <= i < k ==> before(keys, #[trigger] p[i] as int, x),
        forall|i: int| k <= i < p.len() ==> before(keys, x, #[trigger] p[i] as int),
{
    let k = place_from(keys, p, x, p.len() as int);
    lemma_place_from(keys, p, lo, hi, x, p.len() as int);
    k
}

spec fn place_from(keys: Seq<Seq<u64>>, p: Seq<usize>, x: int, n: int) -> int
    decreases n,
{
    if n <= 0 || before(keys, p[n - 1] as int, x) {
        n
    } else {
        place_from(keys, p, x, n - 1)
    }
}

proof fn lemma_place_from(keys: Seq<Seq<u64>>, p: Seq<usize>, lo: int, hi: int, x: int, n: int)
    requires
        arranges(keys, p, lo, hi),
        x < lo || hi <= x,
        0 <= n <= p.len(),
    ensures
        0 <= place_from(keys, p, x, n) <= n,
        forall|i: int|
            0 <= i < place_from(keys, p, x, n) ==> before(keys, #[trigger] p[i] as int, x),
        forall|i: int|
            place_from(keys, p, x, n) <= i < n ==> before(keys, x, #[trigger] p[i] as int),
    decreases n,
{
    if n > 0 {
        if before(keys, p[n - 1] as int, x) {
            assert forall|i: int| 0 <= i < n implies before(keys, #[trigger] p[i] as int, x) by {
                if i < n - 1 {
                    lemma_before_transitive(keys, p[i] as int, p[n - 1] as int, x);
                }
            }
        } else {
            lemma_before_total(keys, p[n - 1] as int, x);
            lemma_place_from(keys, p, lo, hi, x, n - 1);
        }
    }
}

proof fn lemma_arrangement_exists(keys: Seq<Seq<u64>>, n: nat) -> (p: Seq<usize>)
    requires
        n <= keys.len() <= usize::MAX,
    ensures
        arranges(keys, p, 0, n as int),
    decreases n,
{
    if n == 0 {
        Seq::empty()
    } else {
        let q = lemma_arrangement_exists(keys, (n - 1) as nat);
        let x = (n - 1) as usize;
        let k = lemma_place(keys, q, 0, n - 1, x as int);
        let p = q.insert(k, x);
        assert forall|i: int| 0 <= i < p.len() implies 0 <= #[trigger] p[i] < n by {
            if i < k {
                assert(p[i] == q[i]);
            } else if i > k {
                assert(p[i] == q[i - 1]);
            }
        }
        assert forall|i: int, j: int| 0 <= i < j < p.len() implies before(
            keys,
            #[trigger] p[i] as int,
            #[trigger] p[j] as int,
        ) by {
            if i < k {
                assert(p[i] == q[i]);
            } else if i > k {
                assert(p[i] == q[i - 1]);
            }
            if j < k {
                assert(p[j] == q[j]);
            } else if j > k {
                assert(p[j] == q[j - 1]);
            }
        }
        assert forall|y: usize| 0 <= y < n implies #[trigger] p.contains(y) by {
            if y == x {
                assert(p[k] == x);
            } else {
                assert(q.contains(y));
                let i = choose|i: int| 0 <= i < q.len() && q[i] == y;
                assert(p[if i < k { i } else { i + 1 }] == y);
            }
        }
        p
    }
}

/// Every list of keys has a stable arrangement.
pub proof fn lemma_stable_order_exists(keys: Seq<Seq<u64>>)
    requires
        keys.len() <= usize::MAX,
    ensures
        is_stable_order(keys, stable_order(keys)),
{
    let p = lemma_arrangement_exists(keys, keys.len());
    lemma_stable_order(keys, p);
}

/// Whether a position occurs in a list from index `from` on.
spec fn remains(s: Seq<usize>, from: int, x: usize) -> bool {
    exists|k: int| from <= k < s.len() && #[trigger] s[k] == x
}

/// Merges two neighbouring arrangements into one.
fn merge(
    keys: &Vec<Vec<u64>>,
    a: &Vec<usize>,
    b: &Vec<usize>,
    lo: usize,
    mid: usize,
    hi: usize,
) -> (out: Vec<usize>)
    requires
        lo <= mid <= hi <= keys@.len(),
        arranges(keys_of(keys@), a@, lo as int, mid as int),
        arranges(keys_of(keys@), b@, mid as int, hi as int),
    ensures
        arranges(keys_of(keys@), out@, lo as int, hi as int),
{
    let ghost ks = keys_of(keys@);
    let mut out: Vec<usize> = Vec::new();
    let mut i: usize = 0;
    let mut j: usize = 0;
    assert forall|x: usize| lo <= x < hi implies #[trigger] remains(a@, 0, x) || remains(b@, 0, x) by {
        if x < mid {
            assert(a@.contains(x));
        } else {
            assert(b@.contains(x));
        }
    }
    while i < a.len() || j < b.len()
        invariant
            ks == keys_of(keys@),
            lo <= mid <= hi <= keys@.len(),
            arranges(ks, a@, lo as int, mid as int),
            arranges(ks, b@, mid as int, hi as int),
            i <= a.len(),
            j <= b.len(),
            out.len() == i + j,
            forall|k: int| 0 <= k < out.len() ==> lo <= #[trigger] out@[k] < hi,
            forall|k: int, l: int|
                0 <= k < l < out.len() ==> before(
                    ks,
                    #[trigger] out@[k] as int,
                    #[trigger] out@[l] as int,
                ),
            forall|k: int, l: int|
                0 <= k < out.len() && i <= l < a.len() ==> before(
                    ks,
                    #[trigger] out@[k] as int,
                    #[trigger] a@[l] as int,
                ),
            forall|k: int, l: int|
                0 <= k < out.len() && j <= l < b.len() ==> before(
                    ks,
                    #[trigger] out@[k] as int,
                    #[trigger] b@[l] as int,
                ),
            forall|x: usize|
                lo <= x < hi ==> #[trigger] out@.contains(x) || remains(a@, i as int, x) || remains(
                    b@,
                    j as int,
                    x,
                ),
        decreases a.len() - i + b.len() - j,
    {
        let ghost before_out = out@;
        let take_left = if i == a.len() {
            false
        } else if j == b.len() {
            true
        } else {
            precedes(&keys[a[i]], &keys[b[j]])
        };
        proof {
            if i < a.len() && j < b.len() {
                lemma_key_total(ks[a@[i as int] as int], ks[b@[j as int] as int]);
            }
        }
        if take_left {
            let ghost x = a@[i as int];
            proof {
                assert forall|l: int| j <= l < b.len() implies before(
                    ks,
                    x as int,
                    #[trigger] b@[l] as int,
                ) by {
                    if l > j {
                        lemma_before_transitive(ks, x as int, b@[j as int] as int, b@[l] as int);
                    }
                }
            }
            out.push(a[i]);
            i = i + 1;
            proof {
                assert(out@[out@.len() - 1] == x);
            }
        } else {
            let ghost x = b@[j as int];
            proof {
                assert forall|l: int| i <= l < a.len() implies before(
                    ks,
                    x as int,
                    #[trigger] a@[l] as int,
                ) by {
                    if l > i {
                        lemma_before_transitive(ks, x as int, a@[i as int] as int, a@[l] as int);
                    }
                }
            }
            out.push(b[j]);
            j = j + 1;
            proof {
                assert(out@[out@.len() - 1] == x);
            }
        }
        proof {
            assert forall|x: usize| lo <= x < hi implies #[trigger] out@.contains(x) || remains(
                a@,
                i as int,
                x,
            ) || remains(b@, j as int, x) by {
                if before_out.contains(x) {
                    let k = choose|k: int| 0 <= k < before_out.len() && before_out[k] == x;
                    assert(out@[k] == x);
                }
                if x == out@[out@.len() - 1] {
                    assert(out@.contains(x));
                }
            }
        }
    }
    out
}

/// The stable arrangement of the positions from `lo` up to `hi`.
fn arrange(keys: &Vec<Vec<u64>>, lo: usize, hi: usize) -> (out: Vec<usize>)
    requires
        lo <= hi <= keys@.len(),
    ensures
        arranges(keys_of(keys@), out@, lo as int, hi as int),
    decreases hi - lo,
{
    if hi - lo <= 1 {
        let mut out: Vec<usize> = Vec::new();
        if lo < hi {
            out.push(lo);
            assert(out@[0] == lo);
        }
        out
    } else {
        let mid = lo + (hi - lo) / 2;
        let a = arrange(keys, lo, mid);
        let b = arrange(keys, mid, hi);
        merge(keys, &a, &b, lo, mid, hi)
    }
}

/// The stable arrangement of a list of keys.
pub fn stable_order_of(keys: &Vec<Vec<u64>>) -> (p: Vec<usize>)
    ensures
        p@ == stable_order(keys_of(keys@)),
        is_stable_order(keys_of(keys@), p@),
{
    let p = arrange(keys, 0, keys.len());
    proof {
        lemma_stable_order(keys_of(keys@), p@);
    }
    p
}

/// Picking every item of a list once, in whatever order, keeps the items.
proof fn lemma_picking_keeps_the_items<T>(s: Seq<T>, p: Seq<int>)
    requires
        p.len() == s.len(),
        p.no_duplicates(),
        forall|i: int| 0 <= i < p.len() ==> 0 <= #[trigger] p[i] < s.len(),
    ensures
        p.map_values(|k: int| s[k]).to_multiset() == s.to_multiset(),
    decreases s.len(),
{
    let picked = p.map_values(|k: int| s[k]);
    if s.len() == 0 {
        assert(picked == s);
    } else {
        let j = p.last();
        assert(p[p.len() - 1] == j);
        let rest = s.remove(j);
        let q = p.drop_last().map_values(
            |k: int| if k > j {
                k - 1
            } else {
                k
            },
        );
        assert forall|i: int| 0 <= i < q.len() implies 0 <= #[trigger] q[i] < rest.len() by {
            assert(p[i] != j);
        }
        assert(q.no_duplicates()) by {
            assert forall|a: int, b: int| 0 <= a < b < q.len() implies q[a] != q[b] by {
                assert(p[a] != p[b] && p[a] != j && p[b] != j);
            }
        }
        lemma_picking_keeps_the_items(rest, q);
        assert(q.map_values(|k: int| rest[k]) == picked.drop_last()) by {
            assert forall|i: int| 0 <= i < q.len() implies rest[#[trigger] q[i]] == s[p[i]] by {
                assert(p[i] != j);
            }
        }
        assert(picked.drop_last().push(s[j]) == picked);
        vstd::seq_lib::to_multiset_build(picked.drop_last(), s[j]);
        vstd::seq_lib::to_multiset_remove(s, j);
        s.to_multiset_ensures();
        assert(s.contains(s[j]));
        assert(s.to_multiset().remove(s[j]).insert(s[j]) == s.to_multiset());
    }
}

/// A list in its stable order has the same items.
pub proof fn lemma_stable_order_keeps_the_items<T>(s: Seq<T>, keys: Seq<Seq<u64>>, p: Seq<usize>)
    requires
        keys.len() == s.len(),
        is_stable_order(keys, p),
    ensures
        p.map_values(|i: usize| s[i as int]).to_multiset() == s.to_multiset(),
{
    let q = p.map_values(|i: usize| i as int);
    assert(q.no_duplicates()) by {
        assert forall|a: int, b: int| 0 <= a < b < q.len() implies q[a] != q[b] by {
            assert(before(keys, p[a] as int, p[b] as int));
        }
    }
    lemma_picking_keeps_the_items(s, q);
    assert(q.map_values(|k: int| s[k]) == p.map_values(|i: usize| s[i as int]));
}

/// The items in the order of the positions `p`, the stable order of `keys`.
pub(crate) fn rearranged<T>(
    items: Vec<T>,
    p: &Vec<usize>,
    Ghost(keys): Ghost<Seq<Seq<u64>>>,
) -> (r: Vec<T>)
    requires
        keys.len() == items@.len(),
        is_stable_order(keys, p@),
    ensures
        r@ == p@.map_values(|i: usize| items@[i as int]),
{
    let ghost start = items@;
    let mut rest = items;
    let n = rest.len();
    let mut slots: Vec<Option<T>> = Vec::new();
    let mut i: usize = 0;
    while i < n
        invariant
            i <= n,
            n == start.len(),
            rest@ == start.take(n - i),
            slots@.len() == i,
            forall|k: int| 0 <= k < i ==> #[trigger] slots@[k] == Some(start[n - 1 - k]),
        decreases n - i,
    {
        let item = rest.pop();
        slots.push(item);
        i = i + 1;
    }
    let ghost want = p@.map_values(|i: usize| start[i as int]);
    let mut out: Vec<T> = Vec::new();
    for k in 0..p.len()
        invariant
            n == start.len(),
            keys.len() == n,
            want == p@.map_values(|i: usize| start[i as int]),
            is_stable_order(keys, p@),
            slots@.len() == n,
            out@ == want.take(k as int),
            forall|j: int|
                k <= j < p@.len() ==> #[trigger] slots@[n - 1 - p@[j] as int] == Some(
                    start[p@[j] as int],
                ),
    {
        let at: usize = n - 1 - p[k];
        let ghost slots_before = slots@;
        let mut item: Option<T> = None;
        assert(slots@[n - 1 - p@[k as int] as int] == Some(start[p@[k as int] as int]));
        std::mem::swap(&mut slots[at], &mut item);
        proof {
            assert forall|j: int| k + 1 <= j < p@.len() implies #[trigger] slots@[n - 1
                - p@[j] as int] == Some(start[p@[j] as int]) by {
                assert(before(keys, p@[k as int] as int, p@[j] as int));
                assert(p@[k as int] != p@[j]);
                assert(slots_before[n - 1 - p@[j] as int] == Some(start[p@[j] as int]));
            }
            assert(want.take(k + 1) == want.take(k as int).push(want[k as int]));
        }
        match item {
            Some(x) => out.push(x),
            None => {
                assert(false);
            },
        }
    }
    assert(want.take(want.len() as int) == want);
    out
}

} // verus!
