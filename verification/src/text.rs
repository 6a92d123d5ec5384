//! Text primitives: decimal numbers, padding, splitting, trimming and case.
//!
//! A text is modelled as the sequence of its characters.

use vstd::prelude::*;

verus! {

// ── the one operation on `String` that needs a contract of its own ──────────

/// `String::push` appends the given character to the end of the string.
pub assume_specification[ String::push ](s: &mut String, c: char)
    ensures
        final(s)@ == old(s)@.push(c),
;

/// The characters of a string, in order.
pub fn chars_of(s: &str) -> (v: Vec<char>)
    ensures
        v@ == s@,
{
    let mut v: Vec<char> = Vec::new();
    for c in it: s.chars()
        invariant
            v@ == it.seq().take(it.index()),
            it.seq() == s@,
    {
        v.push(c);
    }
    v
}

/// Whether two strings hold the same characters.
pub fn same(a: &str, b: &str) -> (r: bool)
    ensures
        r == (a@ == b@),
{
    let x = a.to_owned();
    let y = b.to_owned();
    x == y
}

// ── decimal numbers ─────────────────────────────────────────────────────────

/// The character of a decimal digit.
pub open spec fn digit(d: nat) -> char {
    (48 + d) as char
}

/// The decimal notation of a number, without leading zeros.
pub open spec fn decimal(n: nat) -> Seq<char>
    decreases n,
{
    if n < 10 {
        seq![digit(n)]
    } else {
        decimal(n / 10).push(digit(n % 10))
    }
}

/// The decimal notation of `n`.
pub fn decimal_of(n: u128) -> (s: String)
    ensures
        s@ == decimal(n as nat),
    decreases n,
{
    let mut s = if n < 10 {
        String::new()
    } else {
        decimal_of(n / 10)
    };
    let d: u8 = (n % 10) as u8;
    s.push((48 + d) as char);
    assert(s@ == decimal(n as nat));
    s
}

/// The decimal notation of `n`, widened with leading zeros to `width` digits.
pub open spec fn zero_padded(n: nat, width: nat) -> Seq<char> {
    repeated('0', width - decimal(n).len()) + decimal(n)
}

/// `n` in decimal with at least `width` digits.
pub fn zero_padded_of(n: u128, width: usize) -> (s: String)
    ensures
        s@ == zero_padded(n as nat, width as nat),
{
    let d = decimal_of(n);
    let len = d.as_str().unicode_len();
    let mut s = repeat_of('0', if len < width { width - len } else { 0 });
    s.append(d.as_str());
    s
}

/// The value of a run of decimal digits.
pub open spec fn digits_value(s: Seq<char>) -> nat
    decreases s.len(),
{
    if s.len() == 0 {
        0
    } else {
        digits_value(s.drop_last()) * 10 + (s.last() as nat - 48) as nat
    }
}

/// A number reads back from its decimal notation.
pub proof fn law_a_decimal_number_reads_back(n: nat)
    ensures
        digits_value(decimal(n)) == n,
    decreases n,
{
    let d = decimal(n);
    if n < 10 {
        assert(d.drop_last() == Seq::<char>::empty());
        assert(digits_value(d.drop_last()) == 0);
    } else {
        law_a_decimal_number_reads_back(n / 10);
        assert(d.drop_last() == decimal(n / 10));
    }
}

/// Whether a character is a decimal digit.
pub open spec fn is_digit(c: char) -> bool {
    '0' <= c <= '9'
}

/// The digits of an unsigned number: what follows one optional plus sign.
pub open spec fn digits_part(s: Seq<char>) -> Seq<char> {
    if s.len() > 0 && s[0] == '+' {
        s.skip(1)
    } else {
        s
    }
}

/// The unsigned number that a text denotes: digits behind an optional plus
/// sign, of a value that a `usize` can hold.
pub open spec fn unsigned(s: Seq<char>) -> Option<usize> {
    let d = digits_part(s);
    if d.len() > 0 && (forall|i: int| 0 <= i < d.len() ==> is_digit(#[trigger] d[i])) && digits_value(d)
        <= usize::MAX {
        Some(digits_value(d) as usize)
    } else {
        None
    }
}

proof fn lemma_digits_value_grows(s: Seq<char>, i: int)
    requires
        0 <= i <= s.len(),
        forall|j: int| 0 <= j < s.len() ==> is_digit(#[trigger] s[j]),
    ensures
        digits_value(s.take(i)) <= digits_value(s),
    decreases s.len(),
{
    if i == s.len() {
        assert(s.take(i) == s);
    } else {
        let t = s.drop_last();
        assert(forall|j: int| 0 <= j < t.len() ==> t[j] == s[j]);
        lemma_digits_value_grows(t, i);
        assert(t.take(i) == s.take(i));
    }
}

/// Reads an unsigned number.
pub fn unsigned_of(s: &str) -> (r: Option<usize>)
    ensures
        r == unsigned(s@),
{
    let v = chars_of(s);
    let start: usize = if v.len() > 0 && v[0] == '+' { 1 } else { 0 };
    let ghost d = digits_part(s@);
    assert(d == v@.skip(start as int));
    if v.len() == start {
        return None;
    }
    let mut value: usize = 0;
    for i in start..v.len()
        invariant
            start <= v.len(),
            d == v@.skip(start as int),
            d == digits_part(s@),
            value == digits_value(d.take(i - start)),
            forall|j: int| 0 <= j < i - start ==> is_digit(#[trigger] d[j]),
    {
        let c = v[i];
        assert(d[i - start] == c);
        if !('0' <= c && c <= '9') {
            return None;
        }
        let k: usize = c as usize - 48;
        proof {
            assert(d.take(i + 1 - start).drop_last() == d.take(i - start));
            assert(digits_value(d.take(i + 1 - start)) == value * 10 + k);
            if forall|j: int| 0 <= j < d.len() ==> is_digit(#[trigger] d[j]) {
                lemma_digits_value_grows(d, i + 1 - start);
            }
        }
        if value > usize::MAX / 10 {
            assert(value * 10 > usize::MAX);
            return None;
        }
        if value * 10 > usize::MAX - k {
            return None;
        }
        value = value * 10 + k;
    }
    assert(d.take(d.len() as int) == d);
    Some(value)
}

// ── repetition, padding and joining ─────────────────────────────────────────

/// A character, `n` times over; nothing for a negative count.
pub open spec fn repeated(c: char, n: int) -> Seq<char> {
    Seq::new(if n > 0 { n as nat } else { 0 }, |i: int| c)
}

/// `c` repeated `n` times.
pub fn repeat_of(c: char, n: usize) -> (s: String)
    ensures
        s@ == repeated(c, n as int),
{
    let mut s = String::new();
    assert(s@ == repeated(c, 0));
    for i in 0..n
        invariant
            s@ == repeated(c, i as int),
    {
        s.push(c);
        assert(s@ == repeated(c, i + 1));
    }
    s
}

/// A text moved right: leading spaces fill it up to `width` characters.
pub open spec fn right_aligned(s: Seq<char>, width: nat) -> Seq<char> {
    repeated(' ', width - s.len()) + s
}

/// A text moved left: trailing spaces fill it up to `width` characters.
pub open spec fn left_aligned(s: Seq<char>, width: nat) -> Seq<char> {
    s + repeated(' ', width - s.len())
}

/// `s` with leading spaces up to `width` characters.
pub fn right_align(s: &str, width: usize) -> (r: String)
    ensures
        r@ == right_aligned(s@, width as nat),
{
    let len = s.unicode_len();
    let mut r = repeat_of(' ', if len < width { width - len } else { 0 });
    r.append(s);
    r
}

/// `s` with trailing spaces up to `width` characters.
pub fn left_align(s: &str, width: usize) -> (r: String)
    ensures
        r@ == left_aligned(s@, width as nat),
{
    let len = s.unicode_len();
    let pad = repeat_of(' ', if len < width { width - len } else { 0 });
    let mut r = s.to_owned();
    r.append(pad.as_str());
    r
}

/// The texts of a list of strings.
pub open spec fn texts(v: Seq<String>) -> Seq<Seq<char>> {
    v.map_values(|s: String| s@)
}

/// The texts, one after the other, with `sep` between any two.
pub open spec fn join(parts: Seq<Seq<char>>, sep: Seq<char>) -> Seq<char>
    decreases parts.len(),
{
    if parts.len() == 0 {
        Seq::empty()
    } else if parts.len() == 1 {
        parts[0]
    } else {
        join(parts.drop_last(), sep) + sep + parts.last()
    }
}

/// The strings of `parts` with `sep` between any two.
pub fn join_of(parts: &Vec<String>, sep: &str) -> (r: String)
    ensures
        r@ == join(texts(parts@), sep@),
{
    let ghost all = texts(parts@);
    let mut r = String::new();
    for i in 0..parts.len()
        invariant
            all == texts(parts@),
            r@ == join(all.take(i as int), sep@),
    {
        if i > 0 {
            r.append(sep);
        }
        r.append(parts[i].as_str());
        proof {
            let next = all.take(i + 1);
            assert(next.drop_last() == all.take(i as int));
            assert(next.last() == parts@[i as int]@);
            assert(r@ == join(next, sep@));
        }
    }
    assert(all.take(all.len() as int) == all);
    r
}

/// Joining, seen from the front.
pub proof fn lemma_join_front(parts: Seq<Seq<char>>, sep: Seq<char>)
    requires
        parts.len() >= 2,
    ensures
        join(parts, sep) == parts[0] + sep + join(parts.skip(1), sep),
    decreases parts.len(),
{
    let init = parts.drop_last();
    let tail = parts.skip(1);
    if parts.len() == 2 {
        assert(init.len() == 1 && init[0] == parts[0]);
        assert(tail.len() == 1 && tail[0] == parts[1]);
        assert(parts.last() == parts[1]);
        assert(join(init, sep) == parts[0]);
        assert(join(tail, sep) == parts[1]);
    } else {
        lemma_join_front(init, sep);
        assert(init[0] == parts[0]);
        assert(init.skip(1) == tail.drop_last());
        assert(tail.last() == parts.last());
        assert(join(tail, sep) == join(tail.drop_last(), sep) + sep + tail.last());
        assert(join(parts, sep) == parts[0] + sep + (join(tail.drop_last(), sep) + sep
            + tail.last()));
    }
}

/// The texts, one after the other.
pub open spec fn concat(parts: Seq<Seq<char>>) -> Seq<char>
    decreases parts.len(),
{
    if parts.len() == 0 {
        Seq::empty()
    } else {
        concat(parts.drop_last()) + parts.last()
    }
}

/// The strings of `parts`, one after the other.
pub fn concat_of(parts: &Vec<String>) -> (r: String)
    ensures
        r@ == concat(texts(parts@)),
{
    let ghost all = texts(parts@);
    let mut r = String::new();
    for i in 0..parts.len()
        invariant
            all == texts(parts@),
            r@ == concat(all.take(i as int)),
    {
        r.append(parts[i].as_str());
        proof {
            let next = all.take(i + 1);
            assert(next.drop_last() == all.take(i as int));
            assert(next.last() == parts@[i as int]@);
        }
    }
    assert(all.take(all.len() as int) == all);
    r
}

/// One more string at the end of a list.
pub proof fn lemma_texts_push(v: Seq<String>, s: String)
    ensures
        texts(v.push(s)) == texts(v).push(s@),
{
    assert(texts(v.push(s)) == texts(v).push(s@));
}

/// Concatenation, seen from the front.
pub proof fn lemma_concat_front(parts: Seq<Seq<char>>)
    requires
        parts.len() >= 1,
    ensures
        concat(parts) == parts[0] + concat(parts.skip(1)),
    decreases parts.len(),
{
    let init = parts.drop_last();
    let tail = parts.skip(1);
    if parts.len() == 1 {
        assert(concat(init) == Seq::<char>::empty());
        assert(concat(tail) == Seq::<char>::empty());
        assert(concat(parts) == parts[0] + concat(tail));
    } else {
        lemma_concat_front(init);
        assert(init[0] == parts[0]);
        assert(init.skip(1) == tail.drop_last());
        assert(tail.last() == parts.last());
        assert(concat(parts) == parts[0] + (concat(tail.drop_last()) + tail.last()));
    }
}

/// A text with each character replaced by the text that `f` gives for it.
pub open spec fn expanded(s: Seq<char>, f: spec_fn(char) -> Seq<char>) -> Seq<char>
    decreases s.len(),
{
    if s.len() == 0 {
        Seq::empty()
    } else {
        expanded(s.drop_last(), f) + f(s.last())
    }
}

/// Expansion works piece by piece.
pub proof fn lemma_expanded_add(a: Seq<char>, b: Seq<char>, f: spec_fn(char) -> Seq<char>)
    ensures
        expanded(a + b, f) == expanded(a, f) + expanded(b, f),
    decreases b.len(),
{
    if b.len() == 0 {
        assert(a + b == a);
        assert(expanded(b, f) == Seq::<char>::empty());
        assert(expanded(a, f) + expanded(b, f) == expanded(a, f));
    } else {
        assert((a + b).drop_last() == a + b.drop_last());
        lemma_expanded_add(a, b.drop_last(), f);
        assert(expanded(a + b, f) == expanded(a, f) + expanded(b, f));
    }
}

// ── white space and case ────────────────────────────────────────────────────

/// The characters with the Unicode property White_Space.
pub open spec fn is_space(c: char) -> bool {
    let n = c as u32;
    ||| 0x9 <= n <= 0xd
    ||| n == 0x20
    ||| n == 0x85
    ||| n == 0xa0
    ||| n == 0x1680
    ||| 0x2000 <= n <= 0x200a
    ||| n == 0x2028
    ||| n == 0x2029
    ||| n == 0x202f
    ||| n == 0x205f
    ||| n == 0x3000
}

/// Whether `c` is white space.
pub fn space(c: char) -> (r: bool)
    ensures
        r == is_space(c),
{
    let n: u32 = c as u32;
    (0x9 <= n && n <= 0xd) || n == 0x20 || n == 0x85 || n == 0xa0 || n == 0x1680 || (0x2000 <= n && n
        <= 0x200a) || n == 0x2028 || n == 0x2029 || n == 0x202f || n == 0x205f || n == 0x3000
}

/// The length of the longest prefix of white space.
pub open spec fn leading_space(s: Seq<char>) -> nat
    decreases s.len(),
{
    if s.len() > 0 && is_space(s[0]) {
        1 + leading_space(s.skip(1))
    } else {
        0
    }
}

/// The length of the longest suffix of white space.
pub open spec fn trailing_space(s: Seq<char>) -> nat
    decreases s.len(),
{
    if s.len() > 0 && is_space(s.last()) {
        1 + trailing_space(s.drop_last())
    } else {
        0
    }
}

/// A text without the white space at its two ends.
pub open spec fn trimmed(s: Seq<char>) -> Seq<char> {
    let t = s.skip(leading_space(s) as int);
    t.take(t.len() - trailing_space(t))
}

proof fn lemma_leading_space_bound(s: Seq<char>)
    ensures
        leading_space(s) <= s.len(),
    decreases s.len(),
{
    if s.len() > 0 && is_space(s[0]) {
        lemma_leading_space_bound(s.skip(1));
    }
}

proof fn lemma_trailing_space_bound(s: Seq<char>)
    ensures
        trailing_space(s) <= s.len(),
    decreases s.len(),
{
    if s.len() > 0 && is_space(s.last()) {
        lemma_trailing_space_bound(s.drop_last());
    }
}

/// `s` without the white space at its two ends.
pub fn trim_of(s: &str) -> (r: String)
    ensures
        r@ == trimmed(s@),
{
    let v = chars_of(s);
    let mut a: usize = 0;
    proof {
        lemma_leading_space_bound(s@);
        assert(v@.skip(0) == v@);
    }
    while a < v.len() && space(v[a])
        invariant
            v@ == s@,
            a <= v.len(),
            leading_space(s@) == a + leading_space(v@.skip(a as int)),
        decreases v.len() - a,
    {
        assert(v@.skip(a as int).skip(1) == v@.skip(a + 1));
        assert(v@.skip(a as int)[0] == v@[a as int]);
        a = a + 1;
    }
    assert(leading_space(s@) == a) by {
        if a < v.len() {
            assert(v@.skip(a as int)[0] == v@[a as int]);
        }
    }
    let ghost t = s@.skip(a as int);
    let mut b: usize = v.len();
    proof {
        lemma_trailing_space_bound(t);
        assert(t.take(b - a) == t);
    }
    while a < b && space(v[b - 1])
        invariant
            v@ == s@,
            a <= b <= v.len(),
            t == s@.skip(a as int),
            trailing_space(t) == (v.len() - b) + trailing_space(t.take(b - a)),
        decreases b,
    {
        assert(t.take(b - a).drop_last() == t.take(b - 1 - a));
        assert(t.take(b - a).last() == v@[b - 1]);
        b = b - 1;
    }
    assert(trailing_space(t) == v.len() - b) by {
        if a < b {
            assert(t.take(b - a).last() == v@[b - 1]);
        }
    }
    let r = piece_of(&v, a, b);
    assert(r@ == trimmed(s@));
    r
}

/// The string of the characters from `a` up to, not including, `b`.
pub fn piece_of(v: &Vec<char>, a: usize, b: usize) -> (s: String)
    requires
        a <= b <= v@.len(),
    ensures
        s@ == v@.subrange(a as int, b as int),
{
    let mut s = String::new();
    for i in a..b
        invariant
            a <= b <= v@.len(),
            s@ == v@.subrange(a as int, i as int),
    {
        s.push(v[i]);
        assert(v@.subrange(a as int, i + 1) == v@.subrange(a as int, i as int).push(v@[i as int]));
    }
    s
}

/// A character with an ASCII capital letter made small.
pub open spec fn small(c: char) -> char {
    if 'A' <= c <= 'Z' {
        (c as u32 + 32) as char
    } else {
        c
    }
}

/// `c` with an ASCII capital letter made small.
pub fn small_of(c: char) -> (r: char)
    ensures
        r == small(c),
{
    if 'A' <= c && c <= 'Z' {
        ((c as u8) + 32) as char
    } else {
        c
    }
}

/// A text with its ASCII capital letters made small.
pub open spec fn lowercase(s: Seq<char>) -> Seq<char> {
    s.map_values(|c: char| small(c))
}

/// `s` with its ASCII capital letters made small.
pub fn lowercase_of(s: &str) -> (r: String)
    ensures
        r@ == lowercase(s@),
{
    let mut r = String::new();
    for c in it: s.chars()
        invariant
            it.seq() == s@,
            r@ == lowercase(it.seq().take(it.index())),
    {
        let ghost i = it.index();
        r.push(small_of(c));
        assert(it.seq().take(i + 1) == it.seq().take(i).push(c));
        assert(r@ == lowercase(it.seq().take(i + 1)));
    }
    assert(s@.take(s@.len() as int) == s@);
    r
}

/// A text without the characters `c` at its front.
pub open spec fn without_front(s: Seq<char>, c: char) -> Seq<char>
    decreases s.len(),
{
    if s.len() > 0 && s[0] == c {
        without_front(s.skip(1), c)
    } else {
        s
    }
}

/// `s` without the characters `c` at its front.
pub fn strip_front(s: &str, c: char) -> (r: String)
    ensures
        r@ == without_front(s@, c),
{
    let v = chars_of(s);
    let mut i: usize = 0;
    assert(v@.skip(0) == v@);
    while i < v.len() && v[i] == c
        invariant
            i <= v@.len(),
            without_front(v@.skip(i as int), c) == without_front(v@, c),
        decreases v@.len() - i,
    {
        assert(v@.skip(i as int).skip(1) == v@.skip(i + 1));
        i = i + 1;
    }
    let r = piece_of(&v, i, v.len());
    assert(r@ == v@.skip(i as int));
    r
}

/// Whether a text begins with `c`.
pub open spec fn begins_with(s: Seq<char>, c: char) -> bool {
    s.len() > 0 && s[0] == c
}

/// Whether `s` begins with `c`.
pub fn begins(s: &str, c: char) -> (r: bool)
    ensures
        r == begins_with(s@, c),
{
    let v = chars_of(s);
    v.len() > 0 && v[0] == c
}

// ── splitting ───────────────────────────────────────────────────────────────

/// The kinds of separator at which a text is cut.
#[derive(Clone, Copy, PartialEq, Eq, Structural)]
pub enum Cut {
    /// A comma or white space.
    CommaOrSpace,
    /// The end of a line.
    Newline,
    /// A single space.
    Blank,
    /// A slash or a backslash.
    Slash,
}

impl Cut {
    /// Whether a text is cut at `c`.
    pub open spec fn at(self, c: char) -> bool {
        match self {
            Cut::CommaOrSpace => c == ',' || is_space(c),
            Cut::Newline => c == '\n',
            Cut::Blank => c == ' ',
            Cut::Slash => c == '/' || c == '\\',
        }
    }

    /// Whether a text is cut at `c`.
    pub fn cuts(self, c: char) -> (r: bool)
        ensures
            r == self.at(c),
    {
        match self {
            Cut::CommaOrSpace => c == ',' || space(c),
            Cut::Newline => c == '\n',
            Cut::Blank => c == ' ',
            Cut::Slash => c == '/' || c == '\\',
        }
    }
}

/// The pieces of a text between its separators, empty ones kept.
pub open spec fn split(s: Seq<char>, cut: Cut) -> Seq<Seq<char>>
    decreases s.len(),
{
    if s.len() == 0 {
        seq![Seq::empty()]
    } else {
        let init = split(s.drop_last(), cut);
        if cut.at(s.last()) {
            init.push(Seq::empty())
        } else {
            init.drop_last().push(init.last().push(s.last()))
        }
    }
}

/// There is always at least one piece.
pub proof fn lemma_split_nonempty(s: Seq<char>, cut: Cut)
    ensures
        split(s, cut).len() > 0,
    decreases s.len(),
{
    if s.len() > 0 {
        lemma_split_nonempty(s.drop_last(), cut);
    }
}

/// The pieces of `s` between its separators, empty ones kept.
pub fn split_of(s: &str, cut: Cut) -> (r: Vec<String>)
    ensures
        texts(r@) == split(s@, cut),
        r@.len() > 0,
{
    let mut r: Vec<String> = Vec::new();
    let mut cur = String::new();
    for c in it: s.chars()
        invariant
            it.seq() == s@,
            texts(r@).push(cur@) == split(it.seq().take(it.index()), cut),
    {
        let ghost i = it.index();
        let ghost before = texts(r@).push(cur@);
        proof {
            assert(it.seq().take(i + 1).drop_last() == it.seq().take(i));
            assert(it.seq().take(i + 1).last() == c);
            assert(before.drop_last() == texts(r@));
        }
        if cut.cuts(c) {
            let ghost old_r = r@;
            r.push(cur);
            cur = String::new();
            assert(texts(r@) == before);
        } else {
            cur.push(c);
        }
        assert(texts(r@).push(cur@) == split(it.seq().take(i + 1), cut));
    }
    assert(s@.take(s@.len() as int) == s@);
    let ghost before = texts(r@).push(cur@);
    r.push(cur);
    assert(texts(r@) == before);
    r
}

} // verus!
