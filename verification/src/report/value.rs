//! JSON values: how they are written, and how they are read.

use vstd::prelude::*;

use crate::text::{expanded, is_digit, join, lemma_expanded_add, lemma_join_front};

verus! {

// ── strings ─────────────────────────────────────────────────────────────────

/// A hexadecimal digit.
pub open spec fn hex_digit(d: int) -> char {
    if d < 10 {
        (d + 48) as char
    } else {
        (d + 87) as char
    }
}

/// How a character is written inside a JSON string.
pub open spec fn escaped_char(c: char) -> Seq<char> {
    if c == '"' {
        seq!['\\', '"']
    } else if c == '\\' {
        seq!['\\', '\\']
    } else if c == '\n' {
        seq!['\\', 'n']
    } else if c == '\r' {
        seq!['\\', 'r']
    } else if c == '\t' {
        seq!['\\', 't']
    } else if (c as int) < 0x20 {
        seq!['\\', 'u', '0', '0', hex_digit(c as int / 16), hex_digit(c as int % 16)]
    } else {
        seq![c]
    }
}

/// How a text is written inside a JSON string.
pub open spec fn escaped(s: Seq<char>) -> Seq<char> {
    expanded(s, |c: char| escaped_char(c))
}

/// A JSON string.
pub open spec fn quoted(s: Seq<char>) -> Seq<char> {
    "\""@ + escaped(s) + "\""@
}

/// What a hexadecimal digit stands for.
pub open spec fn hex_value(c: char) -> int {
    if '0' <= c && c <= '9' {
        c as int - 48
    } else if 'a' <= c && c <= 'f' {
        c as int - 87
    } else if 'A' <= c && c <= 'F' {
        c as int - 55
    } else {
        -1
    }
}

/// What an escape sequence at the front of a text stands for, and its length.
pub open spec fn escape_at(s: Seq<char>) -> Option<(char, int)> {
    if s.len() < 2 || s[0] != '\\' {
        None
    } else if s[1] == '"' || s[1] == '\\' || s[1] == '/' {
        Some((s[1], 2))
    } else if s[1] == 'n' {
        Some(('\n', 2))
    } else if s[1] == 'r' {
        Some(('\r', 2))
    } else if s[1] == 't' {
        Some(('\t', 2))
    } else if s[1] == 'b' {
        Some(('\u{8}', 2))
    } else if s[1] == 'f' {
        Some(('\u{c}', 2))
    } else if s[1] == 'u' && s.len() >= 6 && hex_value(s[2]) >= 0 && hex_value(s[3]) >= 0
        && hex_value(s[4]) >= 0 && hex_value(s[5]) >= 0 {
        Some(
            (
                (hex_value(s[2]) * 4096 + hex_value(s[3]) * 256 + hex_value(s[4]) * 16 + hex_value(
                    s[5],
                )) as char,
                6,
            ),
        )
    } else {
        None
    }
}

/// Reads the inside of a JSON string up to and with its closing quote: what it
/// stands for, and what follows.
pub open spec fn read_inside(s: Seq<char>) -> Option<(Seq<char>, Seq<char>)>
    decreases s.len(),
{
    if s.len() == 0 || (s[0] as int) < 0x20 {
        None
    } else if s[0] == '"' {
        Some((Seq::empty(), s.skip(1)))
    } else if s[0] == '\\' {
        match escape_at(s) {
            Some((c, n)) => match read_inside(s.skip(n)) {
                Some((text, rest)) => Some((seq![c] + text, rest)),
                None => None,
            },
            None => None,
        }
    } else {
        match read_inside(s.skip(1)) {
            Some((text, rest)) => Some((seq![s[0]] + text, rest)),
            None => None,
        }
    }
}

/// Reads a JSON string at the front of a text: what it stands for, and what
/// follows.
pub open spec fn read_string(s: Seq<char>) -> Option<(Seq<char>, Seq<char>)> {
    if s.len() > 0 && s[0] == '"' {
        read_inside(s.skip(1))
    } else {
        None
    }
}

proof fn lemma_hex_digit(d: int)
    requires
        0 <= d < 16,
    ensures
        hex_value(hex_digit(d)) == d,
{
    if d < 10 {
        assert(hex_digit(d) as int == d + 48);
    } else {
        assert(hex_digit(d) as int == d + 87);
    }
}

proof fn lemma_character_reads_back(c: char, after: Seq<char>)
    ensures
        ({
            let e = escaped_char(c);
            let all = e + after;
            if e.len() == 1 {
                all[0] == c && c != '"' && c != '\\' && (c as int) >= 0x20
            } else {
                all[0] == '\\' && escape_at(all) == Some((c, e.len() as int))
            }
        }),
{
    let e = escaped_char(c);
    let all = e + after;
    let d = c as int;
    if e.len() == 6 {
        assert(0 <= d < 0x20);
        assert(0 <= d / 16 < 2);
        assert(all[0] == '\\' && all[1] == 'u' && all[2] == '0' && all[3] == '0');
        assert(all[4] == hex_digit(d / 16) && all[5] == hex_digit(d % 16));
        lemma_hex_digit(d / 16);
        lemma_hex_digit(d % 16);
        assert(d as char == c);
    } else if e.len() == 2 {
        assert(all[0] == '\\' && all[1] == e[1]);
    }
}

proof fn lemma_inside_reads_back(s: Seq<char>, rest: Seq<char>)
    ensures
        read_inside(escaped(s) + seq!['"'] + rest) == Some((s, rest)),
    decreases s.len(),
{
    let f = |c: char| escaped_char(c);
    let all = escaped(s) + seq!['"'] + rest;
    if s.len() == 0 {
        assert(all[0] == '"');
        assert(all.skip(1) == rest);
    } else {
        let c = s[0];
        let tail = s.skip(1);
        lemma_inside_reads_back(tail, rest);
        lemma_expanded_add(seq![c], tail, f);
        assert(seq![c] + tail == s);
        assert(expanded(seq![c], f) == escaped_char(c)) by {
            assert(seq![c].drop_last() == Seq::<char>::empty());
            assert(expanded(Seq::<char>::empty(), f) == Seq::<char>::empty());
        }
        let e = escaped_char(c);
        let after = escaped(tail) + seq!['"'] + rest;
        assert(all == e + after);
        assert(all.skip(e.len() as int) == after);
        assert(seq![c] + tail == s);
        lemma_character_reads_back(c, after);
    }
}

/// A JSON string reads back as the text that it was made of, whatever follows
/// it.
pub proof fn law_a_json_string_reads_back(s: Seq<char>, rest: Seq<char>)
    ensures
        read_string(quoted(s) + rest) == Some((s, rest)),
{
    reveal_strlit("\"");
    assert("\""@ == seq!['"']);
    lemma_inside_reads_back(s, rest);
    let all = quoted(s) + rest;
    assert(all[0] == '"');
    assert(all.skip(1) == escaped(s) + seq!['"'] + rest);
}

// ── values ──────────────────────────────────────────────────────────────────

/// A JSON value.
pub enum Json {
    Null,
    Truth(bool),
    /// A number, by its notation.
    Number(Seq<char>),
    Text(Seq<char>),
    List(Seq<Json>),
    /// An object, by its members in order.
    Object(Seq<(Seq<char>, Json)>),
}

/// A truth value.
pub open spec fn truth(b: bool) -> Seq<char> {
    if b {
        "true"@
    } else {
        "false"@
    }
}

/// A member of an object.
pub open spec fn member(name: Seq<char>, value: Seq<char>) -> Seq<char> {
    "\""@ + name + "\":"@ + value
}

/// An object with the given members.
pub open spec fn object(members: Seq<Seq<char>>) -> Seq<char> {
    "{"@ + join(members, ","@) + "}"@
}

/// A list of the given values.
pub open spec fn list(values: Seq<Seq<char>>) -> Seq<char> {
    "["@ + join(values, ","@) + "]"@
}

/// How a value is written: without any white space.
pub open spec fn written(v: Json) -> Seq<char>
    decreases v,
{
    match v {
        Json::Null => "null"@,
        Json::Truth(b) => truth(b),
        Json::Number(t) => t,
        Json::Text(s) => quoted(s),
        Json::List(vs) => list(value_texts(vs)),
        Json::Object(ms) => object(member_texts(ms)),
    }
}

/// The values of a list, as they are written.
pub open spec fn value_texts(vs: Seq<Json>) -> Seq<Seq<char>>
    decreases vs,
{
    if vs.len() == 0 {
        Seq::empty()
    } else {
        value_texts(vs.drop_last()).push(written(vs[vs.len() - 1]))
    }
}

/// The members of an object, as they are written.
pub open spec fn member_texts(ms: Seq<(Seq<char>, Json)>) -> Seq<Seq<char>>
    decreases ms,
{
    if ms.len() == 0 {
        Seq::empty()
    } else {
        let (name, v) = ms[ms.len() - 1];
        member_texts(ms.drop_last()).push(member(name, written(v)))
    }
}

/// A list is written value by value.
pub proof fn lemma_value_texts(vs: Seq<Json>)
    ensures
        value_texts(vs) == Seq::new(vs.len(), |i: int| written(vs[i])),
    decreases vs.len(),
{
    if vs.len() > 0 {
        lemma_value_texts(vs.drop_last());
    }
}

/// An object is written member by member.
pub proof fn lemma_member_texts(ms: Seq<(Seq<char>, Json)>)
    ensures
        member_texts(ms) == Seq::new(ms.len(), |i: int| member(ms[i].0, written(ms[i].1))),
    decreases ms.len(),
{
    if ms.len() > 0 {
        lemma_member_texts(ms.drop_last());
    }
}

// ── reading ─────────────────────────────────────────────────────────────────

/// What may stand between two parts of a value.
pub open spec fn is_blank(c: char) -> bool {
    c == ' ' || c == '\n' || c == '\r' || c == '\t'
}

/// A text from its first character that is not blank on.
pub open spec fn past_blanks(s: Seq<char>) -> Seq<char>
    decreases s.len(),
{
    if s.len() > 0 && is_blank(s[0]) {
        past_blanks(s.skip(1))
    } else {
        s
    }
}

/// How many digits a text begins with.
pub open spec fn leading_digits(s: Seq<char>) -> int
    decreases s.len(),
{
    if s.len() > 0 && is_digit(s[0]) {
        1 + leading_digits(s.skip(1))
    } else {
        0
    }
}

/// Reads a number without a sign or an exponent at the front of a text: its
/// notation, and what follows.
pub open spec fn read_number(s: Seq<char>) -> Option<(Seq<char>, Seq<char>)> {
    let n = leading_digits(s);
    if n == 0 || (n > 1 && s[0] == '0') {
        None
    } else if n < s.len() && s[n] == '.' {
        let p = leading_digits(s.skip(n + 1));
        if p == 0 {
            None
        } else {
            Some((s.take(n + 1 + p), s.skip(n + 1 + p)))
        }
    } else {
        Some((s.take(n), s.skip(n)))
    }
}

/// Whether a text begins with a word.
pub open spec fn starts(s: Seq<char>, word: Seq<char>) -> bool {
    s.len() >= word.len() && s.take(word.len() as int) == word
}

/// Reads a value at the front of a text: the value, and what follows.
pub open spec fn read_value(s: Seq<char>) -> Option<(Json, Seq<char>)>
    decreases s.len(), 0int,
{
    let t = past_blanks(s);
    if t.len() == 0 || t.len() > s.len() {
        None
    } else if t[0] == '"' {
        match read_string(t) {
            Some((text, rest)) => Some((Json::Text(text), rest)),
            None => None,
        }
    } else if t[0] == '[' {
        let u = past_blanks(t.skip(1));
        if u.len() > 0 && u[0] == ']' {
            Some((Json::List(Seq::empty()), u.skip(1)))
        } else if u.len() < s.len() {
            match read_values(u) {
                Some((vs, rest)) => Some((Json::List(vs), rest)),
                None => None,
            }
        } else {
            None
        }
    } else if t[0] == '{' {
        let u = past_blanks(t.skip(1));
        if u.len() > 0 && u[0] == '}' {
            Some((Json::Object(Seq::empty()), u.skip(1)))
        } else if u.len() < s.len() {
            match read_members(u) {
                Some((ms, rest)) => Some((Json::Object(ms), rest)),
                None => None,
            }
        } else {
            None
        }
    } else if starts(t, "null"@) {
        Some((Json::Null, t.skip(4)))
    } else if starts(t, "true"@) {
        Some((Json::Truth(true), t.skip(4)))
    } else if starts(t, "false"@) {
        Some((Json::Truth(false), t.skip(5)))
    } else {
        match read_number(t) {
            Some((n, rest)) => Some((Json::Number(n), rest)),
            None => None,
        }
    }
}

/// Reads the values of a list up to and with its closing bracket: the values, and
/// what follows.
pub open spec fn read_values(s: Seq<char>) -> Option<(Seq<Json>, Seq<char>)>
    decreases s.len(), 1int,
{
    match read_value(s) {
        None => None,
        Some((v, rest)) => {
            let t = past_blanks(rest);
            if t.len() == 0 || t.len() >= s.len() {
                None
            } else if t[0] == ']' {
                Some((seq![v], t.skip(1)))
            } else if t[0] == ',' {
                match read_values(t.skip(1)) {
                    Some((vs, end)) => Some((seq![v] + vs, end)),
                    None => None,
                }
            } else {
                None
            }
        },
    }
}

/// Reads the members of an object up to and with its closing brace: the members,
/// and what follows.
pub open spec fn read_members(s: Seq<char>) -> Option<(Seq<(Seq<char>, Json)>, Seq<char>)>
    decreases s.len(), 1int,
{
    match read_string(past_blanks(s)) {
        None => None,
        Some((name, after)) => {
            let c = past_blanks(after);
            if c.len() == 0 || c[0] != ':' || c.len() >= s.len() {
                None
            } else {
                match read_value(c.skip(1)) {
                    None => None,
                    Some((v, rest)) => {
                        let t = past_blanks(rest);
                        if t.len() == 0 || t.len() >= s.len() {
                            None
                        } else if t[0] == '}' {
                            Some((seq![(name, v)], t.skip(1)))
                        } else if t[0] == ',' {
                            match read_members(t.skip(1)) {
                                Some((ms, end)) => Some((seq![(name, v)] + ms, end)),
                                None => None,
                            }
                        } else {
                            None
                        }
                    },
                }
            }
        },
    }
}

// ── what is written reads back ──────────────────────────────────────────────

/// Whether a text is its own escaped form.
pub open spec fn is_plain(s: Seq<char>) -> bool {
    forall|i: int| 0 <= i < s.len() ==> escaped_char(#[trigger] s[i]) == seq![s[i]]
}

/// Whether a text is the notation of a number.
pub open spec fn is_number(t: Seq<char>) -> bool {
    read_number(t) == Some((t, Seq::<char>::empty()))
}

/// Whether every number in a value is one, and every name can be written as it
/// is.
pub open spec fn sound(v: Json) -> bool
    decreases v,
{
    match v {
        Json::Number(t) => is_number(t),
        Json::List(vs) => forall|i: int| 0 <= i < vs.len() ==> sound(#[trigger] vs[i]),
        Json::Object(ms) => forall|i: int|
            0 <= i < ms.len() ==> is_plain((#[trigger] ms[i]).0) && sound(ms[i].1),
        _ => true,
    }
}

/// Whether a number could go on with this text.
pub open spec fn continues(s: Seq<char>) -> bool {
    s.len() > 0 && (is_digit(s[0]) || s[0] == '.')
}

proof fn lemma_plain_text(s: Seq<char>)
    requires
        is_plain(s),
    ensures
        escaped(s) == s,
    decreases s.len(),
{
    let f = |c: char| escaped_char(c);
    if s.len() > 0 {
        assert(is_plain(s.drop_last())) by {
            assert forall|i: int| 0 <= i < s.drop_last().len() implies escaped_char(
                #[trigger] s.drop_last()[i],
            ) == seq![s.drop_last()[i]] by {
                assert(s.drop_last()[i] == s[i]);
            }
        }
        lemma_plain_text(s.drop_last());
        assert(expanded(s, f) == s.drop_last() + escaped_char(s.last()));
        assert(s.drop_last() + seq![s.last()] == s);
    }
}

pub proof fn lemma_leading_digits(a: Seq<char>, b: Seq<char>)
    requires
        b.len() > 0 ==> !is_digit(b[0]),
    ensures
        leading_digits(a) == a.len() ==> leading_digits(a + b) == a.len(),
        leading_digits(a) < a.len() ==> leading_digits(a + b) == leading_digits(a),
        0 <= leading_digits(a) <= a.len(),
    decreases a.len(),
{
    if a.len() == 0 {
        assert(a + b == b);
    } else if is_digit(a[0]) {
        lemma_leading_digits(a.skip(1), b);
        assert((a + b).skip(1) == a.skip(1) + b);
    }
}

proof fn lemma_number_reads_back(t: Seq<char>, rest: Seq<char>)
    requires
        is_number(t),
        !continues(rest),
    ensures
        read_number(t + rest) == Some((t, rest)),
        t.len() > 0,
        is_digit(t[0]),
{
    let all = t + rest;
    let n = leading_digits(t);
    lemma_leading_digits(t, rest);
    assert(is_digit(t[0]));
    assert(all[0] == t[0]);
    if n < t.len() && t[n] == '.' {
        let tail = t.skip(n + 1);
        let p = leading_digits(tail);
        lemma_leading_digits(tail, rest);
        assert(t.skip(n + 1 + p).len() == 0);
        assert(p == tail.len());
        assert(all[n] == '.');
        assert(all.skip(n + 1) == tail + rest);
        assert(all.take(n + 1 + p) == t);
        assert(all.skip(n + 1 + p) == rest);
    } else {
        assert(t.skip(n).len() == 0);
        assert(n == t.len());
        assert(all.take(n) == t);
        assert(all.skip(n) == rest);
    }
}

/// A text that a value begins with.
spec fn opens(s: Seq<char>) -> bool {
    s.len() > 0 && !is_blank(s[0]) && s[0] != ']' && s[0] != '}'
}

#[verifier::spinoff_prover]
#[verifier::rlimit(60)]
proof fn lemma_value_reads_back(v: Json, rest: Seq<char>)
    requires
        sound(v),
        !continues(rest),
    ensures
        read_value(written(v) + rest) == Some((v, rest)),
        opens(written(v)),
    decreases v, 0int,
{
    let s = written(v) + rest;
    reveal_strlit("null");
    reveal_strlit("true");
    reveal_strlit("false");
    reveal_strlit("[");
    reveal_strlit("]");
    reveal_strlit("{");
    reveal_strlit("}");
    reveal_strlit("\"");
    match v {
        Json::Null => {
            assert(s[0] == 'n');
            assert(past_blanks(s) == s);
            assert(s.take(4) == "null"@);
            assert(s.skip(4) == rest);
        },
        Json::Truth(b) => {
            if b {
                assert(s[0] == 't');
                assert(past_blanks(s) == s);
                assert(s.take(4) != "null"@) by {
                    assert(s.take(4)[0] == 't' && "null"@[0] == 'n');
                }
                assert(s.take(4) == "true"@);
                assert(s.skip(4) == rest);
            } else {
                assert(s[0] == 'f');
                assert(past_blanks(s) == s);
                assert(s.take(4)[0] == 'f' && "null"@[0] == 'n' && "true"@[0] == 't');
                assert(s.take(5) == "false"@);
                assert(s.skip(5) == rest);
            }
        },
        Json::Number(t) => {
            lemma_number_reads_back(t, rest);
            assert(s[0] == t[0]);
            assert(past_blanks(s) == s);
            assert("null"@[0] == 'n' && "true"@[0] == 't' && "false"@[0] == 'f');
            assert(starts(s, "null"@) ==> s.take(4)[0] == s[0]);
            assert(starts(s, "true"@) ==> s.take(4)[0] == s[0]);
            assert(starts(s, "false"@) ==> s.take(5)[0] == s[0]);
        },
        Json::Text(t) => {
            law_a_json_string_reads_back(t, rest);
            assert(s[0] == '"');
            assert(past_blanks(s) == s);
        },
        Json::List(vs) => {
            lemma_value_texts(vs);
            let inner = join(value_texts(vs), ","@);
            assert(s[0] == '[');
            assert(past_blanks(s) == s);
            assert(s.skip(1) == inner + "]"@ + rest);
            if vs.len() == 0 {
                assert(s.skip(1)[0] == ']');
                assert(s.skip(1).skip(1) == rest);
                assert(vs == Seq::<Json>::empty());
            } else {
                assert(value_texts(vs).skip(0) == value_texts(vs));
                assert(vs.skip(0) == vs);
                lemma_values_read_back(vs, 0, rest);
                let u = s.skip(1);
                assert(u[0] == inner[0]);
                assert(past_blanks(u) == u);
            }
        },
        Json::Object(ms) => {
            lemma_member_texts(ms);
            let inner = join(member_texts(ms), ","@);
            assert(s[0] == '{');
            assert(past_blanks(s) == s);
            assert(s.skip(1) == inner + "}"@ + rest);
            if ms.len() == 0 {
                assert(s.skip(1)[0] == '}');
                assert(s.skip(1).skip(1) == rest);
                assert(ms == Seq::<(Seq<char>, Json)>::empty());
            } else {
                assert(member_texts(ms).skip(0) == member_texts(ms));
                assert(ms.skip(0) == ms);
                lemma_members_read_back(ms, 0, rest);
                let u = s.skip(1);
                assert(u[0] == inner[0]);
                assert(past_blanks(u) == u);
            }
        },
    }
}

#[verifier::spinoff_prover]
#[verifier::rlimit(60)]
proof fn lemma_values_read_back(vs: Seq<Json>, k: int, rest: Seq<char>)
    requires
        0 <= k < vs.len(),
        forall|i: int| 0 <= i < vs.len() ==> sound(#[trigger] vs[i]),
    ensures
        ({
            let inner = join(value_texts(vs).skip(k), ","@);
            &&& read_values(inner + "]"@ + rest) == Some((vs.skip(k), rest))
            &&& opens(inner)
        }),
    decreases vs, vs.len() - k,
{
    reveal_strlit(",");
    reveal_strlit("]");
    lemma_value_texts(vs);
    let texts = value_texts(vs).skip(k);
    let first = written(vs[k]);
    let inner = join(texts, ","@);
    let s = inner + "]"@ + rest;
    assert(texts[0] == first);
    if k + 1 == vs.len() {
        let after = "]"@ + rest;
        lemma_value_reads_back(vs[k], after);
        assert(s == first + after);
        assert(past_blanks(after) == after);
        assert(after.skip(1) == rest);
        assert(vs.skip(k) == seq![vs[k]]);
    } else {
        lemma_join_front(texts, ","@);
        assert(texts.skip(1) == value_texts(vs).skip(k + 1));
        lemma_values_read_back(vs, k + 1, rest);
        let more = join(value_texts(vs).skip(k + 1), ","@) + "]"@ + rest;
        let after = ","@ + more;
        lemma_value_reads_back(vs[k], after);
        assert(s == first + after);
        assert(past_blanks(after) == after);
        assert(after.skip(1) == more);
        assert(vs.skip(k) == seq![vs[k]] + vs.skip(k + 1));
        assert(inner[0] == first[0]);
    }
}

proof fn lemma_name_reads_back(name: Seq<char>, text: Seq<char>, after: Seq<char>)
    requires
        is_plain(name),
    ensures
        ({
            let s = member(name, text) + after;
            &&& opens(member(name, text))
            &&& past_blanks(s) == s
            &&& read_string(s) == Some((name, seq![':'] + (text + after)))
            &&& s.len() > 1 + text.len() + after.len()
        }),
{
    reveal_strlit("\"");
    reveal_strlit("\":");
    let s = member(name, text) + after;
    let value = seq![':'] + (text + after);
    assert(s[0] == '"' && member(name, text)[0] == '"');
    lemma_plain_text(name);
    law_a_json_string_reads_back(name, value);
    assert(s == quoted(name) + value);
}

/// A member reads back, the last of its object.
proof fn lemma_last_member_reads_back(name: Seq<char>, v: Json, rest: Seq<char>)
    requires
        is_plain(name),
        read_value(written(v) + (seq!['}'] + rest)) == Some((v, seq!['}'] + rest)),
    ensures
        read_members(member(name, written(v)) + (seq!['}'] + rest)) == Some(
            (seq![(name, v)], rest),
        ),
{
    let after = seq!['}'] + rest;
    lemma_name_reads_back(name, written(v), after);
    let value = seq![':'] + (written(v) + after);
    assert(past_blanks(value) == value);
    assert(value.skip(1) == written(v) + after);
    assert(past_blanks(after) == after);
    assert(after.skip(1) == rest);
}

/// A member reads back with those behind it.
proof fn lemma_next_member_reads_back(
    name: Seq<char>,
    v: Json,
    more: Seq<char>,
    ms: Seq<(Seq<char>, Json)>,
    rest: Seq<char>,
)
    requires
        is_plain(name),
        read_value(written(v) + (seq![','] + more)) == Some((v, seq![','] + more)),
        read_members(more) == Some((ms, rest)),
    ensures
        read_members(member(name, written(v)) + (seq![','] + more)) == Some(
            (seq![(name, v)] + ms, rest),
        ),
{
    let after = seq![','] + more;
    lemma_name_reads_back(name, written(v), after);
    let value = seq![':'] + (written(v) + after);
    assert(past_blanks(value) == value);
    assert(value.skip(1) == written(v) + after);
    assert(past_blanks(after) == after);
    assert(after.skip(1) == more);
}

#[verifier::spinoff_prover]
#[verifier::rlimit(60)]
proof fn lemma_members_read_back(ms: Seq<(Seq<char>, Json)>, k: int, rest: Seq<char>)
    requires
        0 <= k < ms.len(),
        forall|i: int|
            0 <= i < ms.len() ==> is_plain((#[trigger] ms[i]).0) && sound(ms[i].1),
    ensures
        ({
            let inner = join(member_texts(ms).skip(k), ","@);
            &&& read_members(inner + "}"@ + rest) == Some((ms.skip(k), rest))
            &&& opens(inner)
        }),
    decreases ms, ms.len() - k,
{
    reveal_strlit(",");
    reveal_strlit("}");
    lemma_member_texts(ms);
    let texts = member_texts(ms).skip(k);
    let (name, v) = ms[k];
    let first = member(name, written(v));
    let inner = join(texts, ","@);
    let s = inner + "}"@ + rest;
    assert(texts[0] == first);
    if k + 1 == ms.len() {
        let after = seq!['}'] + rest;
        lemma_value_reads_back(v, after);
        lemma_name_reads_back(name, written(v), after);
        lemma_last_member_reads_back(name, v, rest);
        assert(s == first + after);
        assert(ms.skip(k) == seq![(name, v)]);
    } else {
        lemma_join_front(texts, ","@);
        assert(texts.skip(1) == member_texts(ms).skip(k + 1));
        lemma_members_read_back(ms, k + 1, rest);
        let more = join(member_texts(ms).skip(k + 1), ","@) + "}"@ + rest;
        let after = seq![','] + more;
        lemma_value_reads_back(v, after);
        lemma_name_reads_back(name, written(v), after);
        lemma_next_member_reads_back(name, v, more, ms.skip(k + 1), rest);
        assert(s == first + after);
        assert(inner[0] == first[0]);
        assert(ms.skip(k) == seq![(name, v)] + ms.skip(k + 1));
    }
}

/// A value reads back as it was written, whatever follows it that could not go on
/// with a number.
pub proof fn law_a_json_value_reads_back(v: Json, rest: Seq<char>)
    requires
        sound(v),
        !continues(rest),
    ensures
        read_value(written(v) + rest) == Some((v, rest)),
{
    lemma_value_reads_back(v, rest);
}

} // verus!
