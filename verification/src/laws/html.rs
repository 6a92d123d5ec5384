//! HTML reports: what a reader of the page finds on its cards and in its tables.

use vstd::prelude::*;

use super::csv::{holds, is_column};
use super::json::{bytes_of, lemma_bytes_of};
use crate::binary64::Binary64;
use crate::human::{human_bytes_text, human_ns_text};
use crate::interrupt::bulk::{BulkMeasurement, ThreadStat};
use crate::interrupt::hardware_interrupt::FileMeasurement;
use crate::interrupt::random::RandomMeasurement;
use crate::interrupt::sweep::{best_point, SweepPoint, SweepResult};
use crate::interrupt::write::WriteMeasurement;
use crate::rate::{mib_per_second, millis};
use crate::report::html::{
    bare_table, body_text, bucket_bars, bulk_cards, card, cards_text, cell, chart_text, escaped,
    file_bars, file_headings, file_row, file_table, html_text, law_escaped_text_has_no_markup,
    law_escaped_text_reads_back, page_end, page_front, point_latency_bar, point_rate_bar,
    profile_cards, profile_charts, random_text, row_cells, sweep_cards, table_row,
    thread_bytes_bar, thread_rate_bar, unescaped, write_text,
};
use crate::report::ReportModel;
use crate::text::{concat, decimal, lemma_concat_front};

verus! {

// ── reading ─────────────────────────────────────────────────────────────────

/// Where a text has the next tag; its length where it has none.
#[verifier::opaque]
pub open spec fn next_tag(s: Seq<char>) -> int
    decreases s.len(),
{
    if s.len() == 0 || s[0] == '<' {
        0
    } else {
        1 + next_tag(s.skip(1))
    }
}

/// Reads text up to the given tag: what it stands for, and what follows the tag.
#[verifier::opaque]
pub open spec fn read_text(s: Seq<char>, tag: Seq<char>) -> Option<(Seq<char>, Seq<char>)> {
    let k = next_tag(s);
    if tag.is_prefix_of(s.skip(k)) {
        Some((unescaped(s.take(k)), s.skip(k + tag.len())))
    } else {
        None
    }
}

/// Reads a table cell with the given end tag, behind one of two start tags.
pub open spec fn read_cell(
    s: Seq<char>,
    plain: Seq<char>,
    right: Seq<char>,
    end: Seq<char>,
) -> Option<(Seq<char>, Seq<char>)> {
    if plain.is_prefix_of(s) {
        read_text(s.skip(plain.len() as int), end)
    } else if right.is_prefix_of(s) {
        read_text(s.skip(right.len() as int), end)
    } else {
        None
    }
}

/// Reads table cells as long as there are some.
#[verifier::opaque]
pub open spec fn read_cells(
    s: Seq<char>,
    plain: Seq<char>,
    right: Seq<char>,
    end: Seq<char>,
) -> (Seq<Seq<char>>, Seq<char>)
    decreases s.len(),
{
    match read_cell(s, plain, right, end) {
        Some((inner, rest)) if rest.len() < s.len() => {
            let (more, last) = read_cells(rest, plain, right, end);
            (seq![inner] + more, last)
        },
        _ => (Seq::empty(), s),
    }
}

/// Reads a table row of such cells.
#[verifier::opaque]
pub open spec fn read_row(
    s: Seq<char>,
    plain: Seq<char>,
    right: Seq<char>,
    end: Seq<char>,
) -> Option<(Seq<Seq<char>>, Seq<char>)> {
    if "<tr>"@.is_prefix_of(s) {
        let (cells, rest) = read_cells(s.skip("<tr>"@.len() as int), plain, right, end);
        if "</tr>"@.is_prefix_of(rest) {
            Some((cells, rest.skip("</tr>"@.len() as int)))
        } else {
            None
        }
    } else {
        None
    }
}

/// Reads the rows of a table's body as long as there are some.
#[verifier::opaque]
pub open spec fn read_rows(s: Seq<char>) -> (Seq<Seq<Seq<char>>>, Seq<char>)
    decreases s.len(),
{
    match read_row(s, "<td>"@, "<td class=\"r\">"@, "</td>"@) {
        Some((cells, rest)) if rest.len() < s.len() => {
            let (more, last) = read_rows(rest);
            (seq![cells] + more, last)
        },
        _ => (Seq::empty(), s),
    }
}

/// Reads a table: its headings and its rows.
pub open spec fn read_table(s: Seq<char>) -> Option<(Seq<Seq<char>>, Seq<Seq<Seq<char>>>)> {
    if "<table><thead>"@.is_prefix_of(s) {
        match read_row(
            s.skip("<table><thead>"@.len() as int),
            "<th>"@,
            "<th class=\"r\">"@,
            "</th>"@,
        ) {
            Some((headings, body)) => if "</thead><tbody>"@.is_prefix_of(body) {
                let (rows, rest) = read_rows(body.skip("</thead><tbody>"@.len() as int));
                if "</tbody></table>"@.is_prefix_of(rest) {
                    Some((headings, rows))
                } else {
                    None
                }
            } else {
                None
            },
            None => None,
        }
    } else {
        None
    }
}

/// Reads a card: its label and its value.
#[verifier::opaque]
pub open spec fn read_card(s: Seq<char>) -> Option<((Seq<char>, Seq<char>), Seq<char>)> {
    let front = "<div class=\"card\"><div class=\"clab\">"@;
    if front.is_prefix_of(s) {
        match read_text(s.skip(front.len() as int), "</div><div class=\"cval\">"@) {
            Some((label, behind)) => match read_text(behind, "</div></div>"@) {
                Some((value, rest)) => Some(((label, value), rest)),
                None => None,
            },
            None => None,
        }
    } else {
        None
    }
}

/// Reads cards as long as there are some.
#[verifier::opaque]
pub open spec fn read_some_cards(s: Seq<char>) -> (Seq<(Seq<char>, Seq<char>)>, Seq<char>)
    decreases s.len(),
{
    match read_card(s) {
        Some((c, rest)) if rest.len() < s.len() => {
            let (more, last) = read_some_cards(rest);
            (seq![c] + more, last)
        },
        _ => (Seq::empty(), s),
    }
}

/// Reads a row of cards.
pub open spec fn read_cards(s: Seq<char>) -> Option<Seq<(Seq<char>, Seq<char>)>> {
    let front = "<div class=\"cards\">"@;
    if front.is_prefix_of(s) {
        let (cs, rest) = read_some_cards(s.skip(front.len() as int));
        if "</div>"@.is_prefix_of(rest) {
            Some(cs)
        } else {
            None
        }
    } else {
        None
    }
}

// ── what is found ───────────────────────────────────────────────────────────

/// Whether a row of the table tells of a file.
pub open spec fn tells_file(headings: Seq<Seq<char>>, row: Seq<Seq<char>>, m: FileMeasurement) -> bool {
    &&& holds(headings, row, "path"@, m.path@)
    &&& holds(headings, row, "size"@, human_bytes_text(m.size_bytes as nat))
    &&& holds(headings, row, "throughput"@, m.rate().fixed(1) + " MiB/s"@)
    &&& holds(headings, row, "avg"@, decimal(m.avg_nanos()) + " ns"@)
    &&& holds(headings, row, "p99"@, decimal(m.percentile(99)) + " ns"@)
    &&& holds(headings, row, "chunks"@, decimal(m.chunk_count as nat))
}

/// Whether a table tells of some files, one row for each in their order.
pub open spec fn tells_files(
    t: (Seq<Seq<char>>, Seq<Seq<Seq<char>>>),
    files: Seq<FileMeasurement>,
) -> bool {
    &&& t.1.len() == files.len()
    &&& forall|i: int| 0 <= i < files.len() ==> tells_file(t.0, t.1[i], #[trigger] files[i])
}

/// The time spent on some files.
pub open spec fn nanos_of(files: Seq<FileMeasurement>) -> nat
    decreases files.len(),
{
    if files.len() == 0 {
        0
    } else {
        nanos_of(files.drop_last()) + files.last().wall_nanos as nat
    }
}

/// What a report calls the read mode.
pub open spec fn mode(uncached: bool) -> Seq<char> {
    if uncached {
        "uncached"@
    } else {
        "cached"@
    }
}

/// The labels and values of the cards of a report.
pub open spec fn cards_of(r: ReportModel) -> Seq<(Seq<char>, Seq<char>)> {
    match r {
        ReportModel::Profile { files, .. } => seq![
            ("FILES"@, decimal(files.len())),
            ("TOTAL SIZE"@, human_bytes_text(bytes_of(files))),
            (
                "AGG THROUGHPUT"@,
                mib_per_second(bytes_of(files), nanos_of(files)).fixed(1) + " MiB/s"@,
            ),
            ("READ TIME"@, millis(nanos_of(files)).fixed(2) + " ms"@),
            ("READ MODE"@, mode(files.len() > 0 && files[0].uncached)),
        ],
        ReportModel::Bulk { bulk, .. } => seq![
            ("THREADS"@, decimal(bulk.threads as nat)),
            (
                "FILES"@,
                decimal(bulk.file_count as nat) + " · "@ + decimal(bulk.errors as nat)
                    + " failed"@,
            ),
            ("TOTAL READ"@, human_bytes_text(bulk.bytes_read as nat)),
            ("THROUGHPUT"@, bulk.rate().fixed(1) + " MiB/s"@),
            ("READ MODE"@, mode(bulk.uncached)),
        ],
        ReportModel::Sweep { sweep } => seq![
            ("FILE SIZE"@, human_bytes_text(sweep.size_bytes as nat)),
            ("BLOCK SIZES"@, decimal(sweep.points@.len())),
            (
                "BEST BLOCK"@,
                match best_point(sweep.points@) {
                    Some(p) => human_bytes_text(p.chunk_size as nat) + " → "@ + (p.rate().fixed(0)
                        + " MiB/s"@),
                    None => "—"@,
                },
            ),
            ("READ MODE"@, mode(sweep.uncached)),
        ],
        ReportModel::Write { write } => seq![
            ("BYTES WRITTEN"@, human_bytes_text(write.bytes as nat)),
            ("THROUGHPUT"@, write.rate().fixed(1) + " MiB/s"@),
            ("BLOCK SIZE"@, human_bytes_text(write.chunk_size as nat)),
            ("WALL TIME"@, millis(write.wall_nanos as nat).fixed(2) + " ms"@),
            ("FSYNC"@, millis(write.fsync_nanos as nat).fixed(2) + " ms"@),
        ],
        ReportModel::Random { random } => seq![
            ("IOPS"@, random.rate().fixed(0)),
            ("OPS"@, decimal(random.ops as nat)),
            ("BLOCK SIZE"@, human_bytes_text(random.block_size as nat)),
            ("AVG LATENCY"@, human_ns_text(random.avg_nanos as nat)),
            ("P99 LATENCY"@, human_ns_text(random.p99_nanos as nat)),
            ("READ MODE"@, mode(random.uncached)),
        ],
    }
}

// ── the proof ───────────────────────────────────────────────────────────────

/// Whether a text has no tag.
spec fn tagless(s: Seq<char>) -> bool {
    forall|i: int| 0 <= i < s.len() ==> #[trigger] s[i] != '<'
}

/// Whether a text is its own escaped form, as far as tags and entities go.
spec fn plain(s: Seq<char>) -> bool {
    forall|i: int| 0 <= i < s.len() ==> #[trigger] s[i] != '<' && s[i] != '&'
}

proof fn lemma_prefix(p: Seq<char>, rest: Seq<char>)
    ensures
        p.is_prefix_of(p + rest),
        (p + rest).skip(p.len() as int) == rest,
{
    assert((p + rest).subrange(0, p.len() as int) == p);
    assert((p + rest).skip(p.len() as int) == rest);
}

proof fn lemma_next_tag(s: Seq<char>, rest: Seq<char>)
    requires
        tagless(s),
        rest.len() > 0,
        rest[0] == '<',
    ensures
        next_tag(s + rest) == s.len(),
    decreases s.len(),
{
    reveal(next_tag);
    let all = s + rest;
    if s.len() == 0 {
        assert(all == rest);
    } else {
        assert(all[0] == s[0]);
        assert(all.skip(1) == s.skip(1) + rest);
        assert forall|i: int| 0 <= i < s.skip(1).len() implies #[trigger] s.skip(1)[i] != '<' by {
            assert(s.skip(1)[i] == s[i + 1]);
        }
        lemma_next_tag(s.skip(1), rest);
    }
}

proof fn lemma_text(s: Seq<char>, tag: Seq<char>, rest: Seq<char>)
    requires
        tagless(s),
        tag.len() > 0,
        tag[0] == '<',
    ensures
        read_text(s + tag + rest, tag) == Some((unescaped(s), rest)),
{
    reveal(read_text);
    let behind = tag + rest;
    let all = s + tag + rest;
    assert(all == s + behind);
    lemma_next_tag(s, behind);
    lemma_prefix(tag, rest);
    assert(all.skip(s.len() as int) == behind);
    assert(all.take(s.len() as int) == s);
    assert(all.skip((s.len() + tag.len()) as int) == rest);
}

proof fn lemma_unescaped_plain(s: Seq<char>)
    requires
        plain(s),
    ensures
        unescaped(s) == s,
    decreases s.len(),
{
    reveal_strlit("&amp;");
    reveal_strlit("&lt;");
    reveal_strlit("&gt;");
    reveal_strlit("&quot;");
    if s.len() > 0 {
        let c = s[0];
        assert("&amp;"@[0] == '&' && "&lt;"@[0] == '&' && "&gt;"@[0] == '&' && "&quot;"@[0]
            == '&');
        assert(!"&amp;"@.is_prefix_of(s));
        assert(!"&lt;"@.is_prefix_of(s));
        assert(!"&gt;"@.is_prefix_of(s));
        assert(!"&quot;"@.is_prefix_of(s));
        assert forall|i: int| 0 <= i < s.skip(1).len() implies #[trigger] s.skip(1)[i] != '<'
            && s.skip(1)[i] != '&' by {
            assert(s.skip(1)[i] == s[i + 1]);
        }
        lemma_unescaped_plain(s.skip(1));
        assert(seq![c] + s.skip(1) == s);
    } else {
        assert(s == Seq::<char>::empty());
    }
}

proof fn lemma_plain_add(a: Seq<char>, b: Seq<char>)
    requires
        plain(a),
        plain(b),
    ensures
        plain(a + b),
{
    assert forall|i: int| 0 <= i < (a + b).len() implies #[trigger] (a + b)[i] != '<' && (a + b)[i]
        != '&' by {
        if i < a.len() {
            assert((a + b)[i] == a[i]);
        } else {
            assert((a + b)[i] == b[i - a.len()]);
        }
    }
}

proof fn lemma_plain_decimal(n: nat)
    ensures
        plain(decimal(n)),
    decreases n,
{
    if n >= 10 {
        lemma_plain_decimal(n / 10);
    }
}

#[verifier::spinoff_prover]
#[verifier::rlimit(50)]
proof fn lemma_plain_fixed(x: Binary64, p: nat)
    ensures
        plain(x.fixed(p)),
{
    let q = crate::binary64::half_even(
        x.units() * crate::binary64::pow10(p),
        vstd::arithmetic::power2::pow2(1074),
    );
    let t = crate::binary64::pow10(p);
    lemma_plain_decimal(q);
    if p > 0 {
        lemma_plain_decimal(q / t);
        lemma_plain_decimal(q % t);
        let zeros = crate::text::repeated('0', p - decimal(q % t).len());
        assert(plain(zeros));
        lemma_plain_add(zeros, decimal(q % t));
        let whole = decimal(q / t).push('.');
        assert(plain(whole));
        lemma_plain_add(whole, crate::text::zero_padded(q % t, p));
    }
}

proof fn lemma_plain_words()
    ensures
        plain(" ns"@),
        plain(" B"@),
        plain(" KiB"@),
        plain(" MiB"@),
        plain(" GiB"@),
        plain(" MiB/s"@),
{
    reveal_strlit(" ns");
    reveal_strlit(" B");
    reveal_strlit(" KiB");
    reveal_strlit(" MiB");
    reveal_strlit(" GiB");
    reveal_strlit(" MiB/s");
}

#[verifier::spinoff_prover]
#[verifier::rlimit(50)]
proof fn lemma_plain_bytes(n: nat)
    ensures
        plain(human_bytes_text(n)),
{
    lemma_plain_words();
    lemma_plain_decimal(n);
    let whole = Binary64::whole(n);
    lemma_plain_fixed(whole.over(Binary64::whole(0x400)), 1);
    lemma_plain_fixed(whole.over(Binary64::whole(0x10_0000)), 1);
    lemma_plain_fixed(whole.over(Binary64::whole(0x4000_0000)), 1);
    lemma_plain_add(decimal(n), " B"@);
    lemma_plain_add(crate::human::tenths(n, 0x400), " KiB"@);
    lemma_plain_add(crate::human::tenths(n, 0x10_0000), " MiB"@);
    lemma_plain_add(crate::human::tenths(n, 0x4000_0000), " GiB"@);
}

/// Some cells, each with its start tag and its content.
spec fn cells_text(cells: Seq<(Seq<char>, Seq<char>)>, end: Seq<char>) -> Seq<Seq<char>> {
    Seq::new(cells.len(), |i: int| cell(cells[i].0, cells[i].1, end))
}

#[verifier::spinoff_prover]
#[verifier::rlimit(50)]
proof fn lemma_cells(
    cells: Seq<(Seq<char>, Seq<char>)>,
    plain: Seq<char>,
    right: Seq<char>,
    end: Seq<char>,
    rest: Seq<char>,
)
    requires
        forall|i: int|
            0 <= i < cells.len() ==> tagless((#[trigger] cells[i]).1) && (cells[i].0 == plain
                || cells[i].0 == right),
        end.len() > 0,
        end[0] == '<',
        plain.len() == 4,
        right.len() > 4,
        plain[3] != right[3],
        rest.len() > 1,
        plain[1] != rest[1],
        right[1] != rest[1],
    ensures
        read_cells(concat(cells_text(cells, end)) + rest, plain, right, end) == (
            Seq::new(cells.len(), |i: int| unescaped(cells[i].1)),
            rest,
        ),
    decreases cells.len(),
{
    reveal(read_cells);
    let texts = cells_text(cells, end);
    let text = concat(texts) + rest;
    let want = Seq::new(cells.len(), |i: int| unescaped(cells[i].1));
    if cells.len() == 0 {
        assert(concat(texts) == Seq::<char>::empty());
        assert(text == rest);
        if plain.is_prefix_of(rest) {
            assert(rest.subrange(0, 4)[1] == plain[1]);
        }
        if right.is_prefix_of(rest) {
            assert(rest.subrange(0, right.len() as int)[1] == right[1]);
        }
        assert(want == Seq::<Seq<char>>::empty());
    } else {
        let start = cells[0].0;
        let inner = cells[0].1;
        assert(tagless(cells[0].1));
        let tail = cells.skip(1);
        let more = concat(cells_text(tail, end)) + rest;
        assert forall|i: int| 0 <= i < tail.len() implies tagless((#[trigger] tail[i]).1) && (
        tail[i].0 == plain || tail[i].0 == right) by {
            assert(tail[i] == cells[i + 1]);
        }
        lemma_cells(tail, plain, right, end, rest);
        lemma_concat_front(texts);
        assert(texts.skip(1) == cells_text(tail, end));
        assert(texts[0] == start + inner + end);
        assert(text == start + (inner + end + more));
        lemma_prefix(start, inner + end + more);
        lemma_text(inner, end, more);
        if start != plain && plain.is_prefix_of(text) {
            assert(text.subrange(0, 4)[3] == plain[3]);
            assert(text[3] == start[3]);
        }
        assert(read_cell(text, plain, right, end) == Some((unescaped(inner), more)));
        assert(want == seq![unescaped(inner)] + Seq::new(
            tail.len(),
            |i: int| unescaped(tail[i].1),
        ));
    }
}

/// A row of cells with plain or escaped contents reads back.
#[verifier::spinoff_prover]
#[verifier::rlimit(50)]
proof fn lemma_row_reads_back(
    cells: Seq<(Seq<char>, Seq<char>)>,
    plain: Seq<char>,
    right: Seq<char>,
    end: Seq<char>,
    rest: Seq<char>,
)
    requires
        forall|i: int|
            0 <= i < cells.len() ==> tagless((#[trigger] cells[i]).1) && (cells[i].0 == plain
                || cells[i].0 == right),
        end.len() > 0,
        end[0] == '<',
        plain.len() == 4,
        right.len() > 4,
        plain[3] != right[3],
        plain[1] == 't',
        right[1] == 't',
    ensures
        read_row(table_row(cells_text(cells, end)) + rest, plain, right, end) == Some(
            (Seq::new(cells.len(), |i: int| unescaped(cells[i].1)), rest),
        ),
{
    reveal(read_row);
    lemma_row_marks();
    let inner = concat(cells_text(cells, end));
    let behind = "</tr>"@ + rest;
    assert(behind[1] == "</tr>"@[1]);
    assert(table_row(cells_text(cells, end)) + rest == "<tr>"@ + (inner + behind));
    lemma_prefix("<tr>"@, inner + behind);
    lemma_prefix("</tr>"@, rest);
    lemma_cells(cells, plain, right, end, behind);
}

proof fn lemma_row_marks()
    ensures
        "</tr>"@.len() == 5,
        "</tr>"@[1] == '/',
        "<tr>"@.len() == 4,
        "<tr>"@[1] == 't',
{
    reveal_strlit("</tr>");
    reveal_strlit("<tr>");
}

proof fn lemma_marks()
    ensures
        "<td>"@.len() == 4,
        "<td>"@[1] == 't',
        "<td>"@[3] == '>',
        "<td class=\"r\">"@.len() > 4,
        "<td class=\"r\">"@[1] == 't',
        "<td class=\"r\">"@[3] == ' ',
        "</td>"@.len() > 0,
        "</td>"@[0] == '<',
        "<th>"@.len() == 4,
        "<th>"@[1] == 't',
        "<th>"@[3] == '>',
        "<th class=\"r\">"@.len() > 4,
        "<th class=\"r\">"@[1] == 't',
        "<th class=\"r\">"@[3] == ' ',
        "</th>"@.len() > 0,
        "</th>"@[0] == '<',
        "</tr>"@.len() == 5,
        "</tr>"@[1] == '/',
        "<tr>"@.len() == 4,
        "<tr>"@[1] == 't',
        "</tbody></table>"@.len() > 1,
        "</tbody></table>"@[1] == '/',
{
    reveal_strlit("<td>");
    reveal_strlit("<td class=\"r\">");
    reveal_strlit("</td>");
    reveal_strlit("<th>");
    reveal_strlit("<th class=\"r\">");
    reveal_strlit("</th>");
    reveal_strlit("</tr>");
    reveal_strlit("<tr>");
    reveal_strlit("</tbody></table>");
}

/// The contents of a file's row, with their start tags.
spec fn tagged_cells(m: FileMeasurement) -> Seq<(Seq<char>, Seq<char>)> {
    let right = "<td class=\"r\">"@;
    let c = file_cells(m);
    seq![
        ("<td>"@, escaped(m.path@)),
        (right, c[1]),
        (right, c[2]),
        (right, c[3]),
        (right, c[4]),
        (right, c[5]),
    ]
}

/// The column headings, with their start tags.
spec fn tagged_headings() -> Seq<(Seq<char>, Seq<char>)> {
    let right = "<th class=\"r\">"@;
    let h = headings();
    seq![
        ("<th>"@, h[0]),
        (right, h[1]),
        (right, h[2]),
        (right, h[3]),
        (right, h[4]),
        (right, h[5]),
    ]
}

/// What is read in a file's row.
spec fn file_cells(m: FileMeasurement) -> Seq<Seq<char>> {
    seq![
        m.path@,
        human_bytes_text(m.size_bytes as nat),
        m.rate().fixed(1) + " MiB/s"@,
        decimal(m.avg_nanos()) + " ns"@,
        decimal(m.percentile(99)) + " ns"@,
        decimal(m.chunk_count as nat),
    ]
}

proof fn lemma_plain_cells(m: FileMeasurement, i: int)
    requires
        1 <= i < 6,
    ensures
        plain(file_cells(m)[i]),
{
    lemma_plain_words();
    lemma_plain_bytes(m.size_bytes as nat);
    lemma_plain_fixed(m.rate(), 1);
    lemma_plain_add(m.rate().fixed(1), " MiB/s"@);
    lemma_plain_decimal(m.avg_nanos());
    lemma_plain_add(decimal(m.avg_nanos()), " ns"@);
    lemma_plain_decimal(m.percentile(99));
    lemma_plain_add(decimal(m.percentile(99)), " ns"@);
    lemma_plain_decimal(m.chunk_count as nat);
}

/// A row reads back as its contents.
#[verifier::spinoff_prover]
#[verifier::rlimit(50)]
proof fn lemma_row_of_contents(
    cells: Seq<(Seq<char>, Seq<char>)>,
    contents: Seq<Seq<char>>,
    plain: Seq<char>,
    right: Seq<char>,
    end: Seq<char>,
    rest: Seq<char>,
)
    requires
        cells.len() == contents.len(),
        forall|i: int|
            0 <= i < cells.len() ==> tagless((#[trigger] cells[i]).1) && (cells[i].0 == plain
                || cells[i].0 == right) && unescaped(cells[i].1) == contents[i],
        end.len() > 0,
        end[0] == '<',
        plain.len() == 4,
        right.len() > 4,
        plain[3] != right[3],
        plain[1] == 't',
        right[1] == 't',
    ensures
        read_row(table_row(cells_text(cells, end)) + rest, plain, right, end) == Some(
            (contents, rest),
        ),
{
    lemma_row_reads_back(cells, plain, right, end, rest);
    assert(Seq::new(cells.len(), |i: int| unescaped(cells[i].1)) == contents);
}

#[verifier::spinoff_prover]
#[verifier::rlimit(50)]
proof fn lemma_tagged_cells(m: FileMeasurement)
    ensures
        row_cells(m) == cells_text(tagged_cells(m), "</td>"@),
{
    let c = file_cells(m);
    let right = "<td class=\"r\">"@;
    let have = row_cells(m);
    let want = cells_text(tagged_cells(m), "</td>"@);
    assert(want.len() == 6);
    assert(want[0] == have[0]);
    assert(want[1] == have[1]);
    assert(want[2] == have[2]);
    assert(want[3] == have[3]);
    assert(want[4] == have[4]);
    assert(want[5] == have[5]);
}

#[verifier::spinoff_prover]
#[verifier::rlimit(50)]
proof fn lemma_cell_contents(m: FileMeasurement, i: int)
    requires
        0 <= i < 6,
    ensures
        ({
            let c = tagged_cells(m)[i];
            tagless(c.1) && (c.0 == "<td>"@ || c.0 == "<td class=\"r\">"@) && unescaped(c.1)
                == file_cells(m)[i]
        }),
{
    if i == 0 {
        assert forall|k: int| 0 <= k < escaped(m.path@).len() implies #[trigger] escaped(
            m.path@,
        )[k] != '<' by {
            law_escaped_text_has_no_markup(m.path@, k);
        }
        law_escaped_text_reads_back(m.path@);
    } else {
        lemma_plain_cells(m, i);
        assert(tagged_cells(m)[i].1 == file_cells(m)[i]);
        lemma_unescaped_plain(file_cells(m)[i]);
    }
}

#[verifier::spinoff_prover]
#[verifier::rlimit(50)]
proof fn lemma_row(m: FileMeasurement, rest: Seq<char>)
    ensures
        read_row(file_row(m) + rest, "<td>"@, "<td class=\"r\">"@, "</td>"@) == Some(
            (file_cells(m), rest),
        ),
{
    lemma_marks();
    lemma_tagged_cells(m);
    let cells = tagged_cells(m);
    let contents = file_cells(m);
    assert forall|i: int| 0 <= i < cells.len() implies tagless((#[trigger] cells[i]).1) && (
    cells[i].0 == "<td>"@ || cells[i].0 == "<td class=\"r\">"@) && unescaped(cells[i].1)
        == contents[i] by {
        lemma_cell_contents(m, i);
    }
    lemma_row_of_contents(cells, contents, "<td>"@, "<td class=\"r\">"@, "</td>"@, rest);
}

spec fn headings() -> Seq<Seq<char>> {
    seq!["path"@, "size"@, "throughput"@, "avg"@, "p99"@, "chunks"@]
}

proof fn lemma_plain_headings()
    ensures
        forall|i: int| 0 <= i < 6 ==> plain(#[trigger] headings()[i]),
{
    reveal_strlit("path");
    reveal_strlit("size");
    reveal_strlit("throughput");
    reveal_strlit("avg");
    reveal_strlit("p99");
    reveal_strlit("chunks");
    assert(plain("path"@) && plain("size"@) && plain("throughput"@) && plain("avg"@) && plain(
        "p99"@,
    ) && plain("chunks"@));
}

#[verifier::spinoff_prover]
#[verifier::rlimit(50)]
proof fn lemma_tagged_headings()
    ensures
        file_headings() == cells_text(tagged_headings(), "</th>"@),
{
    let have = file_headings();
    let want = cells_text(tagged_headings(), "</th>"@);
    assert(want.len() == 6);
    assert(want[0] == have[0]);
    assert(want[1] == have[1]);
    assert(want[2] == have[2]);
    assert(want[3] == have[3]);
    assert(want[4] == have[4]);
    assert(want[5] == have[5]);
}

#[verifier::spinoff_prover]
#[verifier::rlimit(50)]
proof fn lemma_heading_contents(i: int)
    requires
        0 <= i < 6,
    ensures
        ({
            let c = tagged_headings()[i];
            tagless(c.1) && (c.0 == "<th>"@ || c.0 == "<th class=\"r\">"@) && unescaped(c.1)
                == headings()[i]
        }),
{
    lemma_plain_headings();
    assert(tagged_headings()[i].1 == headings()[i]);
    lemma_unescaped_plain(headings()[i]);
}

#[verifier::spinoff_prover]
#[verifier::rlimit(50)]
proof fn lemma_headings(rest: Seq<char>)
    ensures
        read_row(
            table_row(file_headings()) + rest,
            "<th>"@,
            "<th class=\"r\">"@,
            "</th>"@,
        ) == Some((headings(), rest)),
{
    lemma_marks();
    lemma_tagged_headings();
    let cells = tagged_headings();
    let contents = headings();
    assert forall|i: int| 0 <= i < cells.len() implies tagless((#[trigger] cells[i]).1) && (
    cells[i].0 == "<th>"@ || cells[i].0 == "<th class=\"r\">"@) && unescaped(cells[i].1)
        == contents[i] by {
        lemma_heading_contents(i);
    }
    lemma_row_of_contents(cells, contents, "<th>"@, "<th class=\"r\">"@, "</th>"@, rest);
}

/// Whether a text is a table row that reads back as some contents, whatever follows.
spec fn is_row(text: Seq<char>, contents: Seq<Seq<char>>) -> bool {
    &&& text.len() > 0
    &&& forall|rest: Seq<char>|
        #[trigger] read_row(text + rest, "<td>"@, "<td class=\"r\">"@, "</td>"@) == Some(
            (contents, rest),
        )
}

#[verifier::spinoff_prover]
#[verifier::rlimit(50)]
proof fn lemma_rows(texts: Seq<Seq<char>>, rows: Seq<Seq<Seq<char>>>, rest: Seq<char>)
    requires
        texts.len() == rows.len(),
        forall|i: int| 0 <= i < texts.len() ==> is_row(#[trigger] texts[i], rows[i]),
        rest.len() > 1,
        rest[1] != 't',
    ensures
        read_rows(concat(texts) + rest) == (rows, rest),
    decreases texts.len(),
{
    reveal(read_rows);
    reveal(read_row);
    lemma_row_marks();
    let text = concat(texts) + rest;
    if texts.len() == 0 {
        assert(concat(texts) == Seq::<char>::empty());
        assert(text == rest);
        if "<tr>"@.is_prefix_of(rest) {
            assert(rest.subrange(0, 4)[1] == "<tr>"@[1]);
        }
        assert(rows == Seq::<Seq<Seq<char>>>::empty());
    } else {
        let tail = texts.skip(1);
        let more_rows = rows.skip(1);
        lemma_concat_front(texts);
        let more = concat(tail) + rest;
        assert(text == texts[0] + more);
        assert(is_row(texts[0], rows[0]));
        assert forall|i: int| 0 <= i < tail.len() implies is_row(
            #[trigger] tail[i],
            more_rows[i],
        ) by {
            assert(is_row(texts[i + 1], rows[i + 1]));
        }
        lemma_rows(tail, more_rows, rest);
        assert(rows == seq![rows[0]] + more_rows);
    }
}

#[verifier::spinoff_prover]
#[verifier::rlimit(50)]
proof fn lemma_is_row(m: FileMeasurement)
    ensures
        is_row(file_row(m), file_cells(m)),
{
    lemma_row_marks();
    assert(file_row(m).len() >= "<tr>"@.len());
    assert forall|rest: Seq<char>|
        #[trigger] read_row(file_row(m) + rest, "<td>"@, "<td class=\"r\">"@, "</td>"@) == Some(
            (file_cells(m), rest),
        ) by {
        lemma_row(m, rest);
    }
}

#[verifier::spinoff_prover]
#[verifier::rlimit(50)]
proof fn lemma_table(files: Seq<FileMeasurement>, rest: Seq<char>)
    ensures
        read_table(bare_table(files) + rest) == Some(
            (headings(), files.map_values(|m: FileMeasurement| file_cells(m))),
        ),
{
    lemma_marks();
    let head = table_row(file_headings());
    let rows = concat(files.map_values(|m: FileMeasurement| file_row(m)));
    let last = "</tbody></table>"@ + rest;
    let body = rows + last;
    let behind = "</thead><tbody>"@ + body;
    let front = head + behind;
    assert(bare_table(files) + rest == "<table><thead>"@ + front) by {
        lemma_regroup("<table><thead>"@, head, "</thead><tbody>"@, rows, "</tbody></table>"@, rest);
    }
    lemma_prefix("<table><thead>"@, front);
    lemma_headings(behind);
    lemma_prefix("</thead><tbody>"@, body);
    assert(last[1] == "</tbody></table>"@[1]);
    let texts = files.map_values(|m: FileMeasurement| file_row(m));
    let contents = files.map_values(|m: FileMeasurement| file_cells(m));
    assert forall|i: int| 0 <= i < texts.len() implies is_row(
        #[trigger] texts[i],
        contents[i],
    ) by {
        lemma_is_row(files[i]);
    }
    lemma_rows(texts, contents, last);
    lemma_prefix("</tbody></table>"@, rest);
}

/// A part of a text, found behind what comes before it.
proof fn lemma_inside(
    a: Seq<char>,
    b: Seq<char>,
    c: Seq<char>,
    d: Seq<char>,
    e: Seq<char>,
    f: Seq<char>,
)
    ensures
        (a + (b + (c + d + e)) + f).skip((a + b + c).len() as int) == d + (e + f),
{
    assert(a + (b + (c + d + e)) + f == (a + b + c) + (d + (e + f)));
    lemma_prefix(a + b + c, d + (e + f));
}

proof fn lemma_regroup(
    a: Seq<char>,
    b: Seq<char>,
    c: Seq<char>,
    d: Seq<char>,
    e: Seq<char>,
    f: Seq<char>,
)
    ensures
        a + b + c + d + e + f == a + (b + (c + (d + (e + f)))),
{
    assert(a + b + c + d + e + f == a + (b + (c + (d + (e + f)))));
}

#[verifier::spinoff_prover]
#[verifier::rlimit(50)]
proof fn lemma_tells_file(m: FileMeasurement)
    ensures
        tells_file(headings(), file_cells(m), m),
{
    reveal_strlit("path");
    reveal_strlit("size");
    reveal_strlit("throughput");
    reveal_strlit("avg");
    reveal_strlit("p99");
    reveal_strlit("chunks");
    let h = headings();
    assert("path"@[0] == 'p' && "path"@.len() == 4);
    assert("size"@[0] == 's' && "size"@.len() == 4);
    assert("throughput"@.len() == 10);
    assert("avg"@[0] == 'a' && "avg"@.len() == 3);
    assert("p99"@[0] == 'p' && "p99"@.len() == 3);
    assert("chunks"@.len() == 6);
    assert(is_column(h, 0, "path"@));
    assert(is_column(h, 1, "size"@));
    assert(is_column(h, 2, "throughput"@));
    assert(is_column(h, 3, "avg"@));
    assert(is_column(h, 4, "p99"@));
    assert(is_column(h, 5, "chunks"@));
}

proof fn lemma_tagless_escaped(s: Seq<char>)
    ensures
        tagless(escaped(s)),
{
    assert forall|k: int| 0 <= k < escaped(s).len() implies #[trigger] escaped(s)[k] != '<' by {
        law_escaped_text_has_no_markup(s, k);
    }
}

proof fn lemma_card_marks()
    ensures
        "<div class=\"card\"><div class=\"clab\">"@.len() > 1,
        "<div class=\"card\"><div class=\"clab\">"@[1] == 'd',
        "</div><div class=\"cval\">"@.len() > 0,
        "</div><div class=\"cval\">"@[0] == '<',
        "</div></div>"@.len() > 0,
        "</div></div>"@[0] == '<',
        "</div>"@.len() > 1,
        "</div>"@[1] == '/',
{
    reveal_strlit("<div class=\"card\"><div class=\"clab\">");
    reveal_strlit("</div><div class=\"cval\">");
    reveal_strlit("</div></div>");
    reveal_strlit("</div>");
}

#[verifier::spinoff_prover]
#[verifier::rlimit(50)]
proof fn lemma_card(label: Seq<char>, value: Seq<char>, rest: Seq<char>)
    ensures
        read_card(card(label, value) + rest) == Some(((label, value), rest)),
{
    reveal(read_card);
    lemma_card_marks();
    let front = "<div class=\"card\"><div class=\"clab\">"@;
    let middle = "</div><div class=\"cval\">"@;
    let end = "</div></div>"@;
    let behind = escaped(value) + end + rest;
    lemma_tagless_escaped(label);
    lemma_tagless_escaped(value);
    law_escaped_text_reads_back(label);
    law_escaped_text_reads_back(value);
    lemma_regroup(front, escaped(label), middle, escaped(value), end, rest);
    assert(card(label, value) + rest == front + (escaped(label) + middle + behind)) by {
        assert(escaped(label) + (middle + (escaped(value) + (end + rest))) == escaped(label)
            + middle + behind);
    }
    lemma_prefix(front, escaped(label) + middle + behind);
    lemma_text(escaped(label), middle, behind);
    lemma_text(escaped(value), end, rest);
}

/// Some cards, by their labels and values.
spec fn card_texts(pairs: Seq<(Seq<char>, Seq<char>)>) -> Seq<Seq<char>> {
    Seq::new(pairs.len(), |i: int| card(pairs[i].0, pairs[i].1))
}

#[verifier::spinoff_prover]
#[verifier::rlimit(50)]
proof fn lemma_some_cards(pairs: Seq<(Seq<char>, Seq<char>)>, rest: Seq<char>)
    requires
        rest.len() > 1,
        rest[1] == '/',
    ensures
        read_some_cards(concat(card_texts(pairs)) + rest) == (pairs, rest),
    decreases pairs.len(),
{
    reveal(read_some_cards);
    reveal(read_card);
    lemma_card_marks();
    let texts = card_texts(pairs);
    let text = concat(texts) + rest;
    let front = "<div class=\"card\"><div class=\"clab\">"@;
    if pairs.len() == 0 {
        assert(concat(texts) == Seq::<char>::empty());
        assert(text == rest);
        if front.is_prefix_of(rest) {
            assert(rest.subrange(0, front.len() as int)[1] == front[1]);
        }
        assert(pairs == Seq::<(Seq<char>, Seq<char>)>::empty());
    } else {
        let tail = pairs.skip(1);
        lemma_concat_front(texts);
        assert(texts.skip(1) == card_texts(tail));
        let more = concat(card_texts(tail)) + rest;
        assert(text == card(pairs[0].0, pairs[0].1) + more);
        lemma_card(pairs[0].0, pairs[0].1, more);
        lemma_some_cards(tail, rest);
        assert(card(pairs[0].0, pairs[0].1).len() >= front.len());
        assert(pairs[0] == (pairs[0].0, pairs[0].1));
        assert(pairs == seq![pairs[0]] + tail);
    }
}

#[verifier::spinoff_prover]
#[verifier::rlimit(50)]
proof fn lemma_cards(pairs: Seq<(Seq<char>, Seq<char>)>, rest: Seq<char>)
    ensures
        read_cards(cards_text(card_texts(pairs)) + rest) == Some(pairs),
{
    lemma_card_marks();
    let front = "<div class=\"cards\">"@;
    let inner = concat(card_texts(pairs));
    let behind = "</div>"@ + rest;
    assert(behind[1] == "</div>"@[1]);
    assert(cards_text(card_texts(pairs)) + rest == front + (inner + behind));
    lemma_prefix(front, inner + behind);
    lemma_some_cards(pairs, behind);
    lemma_prefix("</div>"@, rest);
}

/// The sum that a report shows is that of the times of its files.
pub proof fn lemma_nanos_of(files: Seq<FileMeasurement>)
    ensures
        nanos_of(files) == crate::report::total_nanos(files),
    decreases files.len(),
{
    if files.len() > 0 {
        lemma_nanos_of(files.drop_last());
    }
}

#[verifier::spinoff_prover]
#[verifier::rlimit(50)]
proof fn lemma_profile_cards(root: Seq<char>, files: Seq<FileMeasurement>)
    ensures
        profile_cards(files) == cards_text(card_texts(cards_of(ReportModel::Profile { root, files }))),
{
    lemma_bytes_of(files);
    lemma_nanos_of(files);
    let pairs = cards_of(ReportModel::Profile { root, files });
    let want = card_texts(pairs);
    assert(want.len() == 5);
    assert(want == seq![
        card(pairs[0].0, pairs[0].1),
        card(pairs[1].0, pairs[1].1),
        card(pairs[2].0, pairs[2].1),
        card(pairs[3].0, pairs[3].1),
        card(pairs[4].0, pairs[4].1),
    ]);
}

#[verifier::spinoff_prover]
#[verifier::rlimit(50)]
proof fn lemma_bulk_cards(root: Seq<char>, bulk: BulkMeasurement)
    ensures
        bulk_cards(bulk) == cards_text(card_texts(cards_of(ReportModel::Bulk { root, bulk }))),
{
    let pairs = cards_of(ReportModel::Bulk { root, bulk });
    let want = card_texts(pairs);
    assert(want.len() == 5);
    assert(want == seq![
        card(pairs[0].0, pairs[0].1),
        card(pairs[1].0, pairs[1].1),
        card(pairs[2].0, pairs[2].1),
        card(pairs[3].0, pairs[3].1),
        card(pairs[4].0, pairs[4].1),
    ]);
}

#[verifier::spinoff_prover]
#[verifier::rlimit(50)]
proof fn lemma_sweep_cards(sweep: SweepResult)
    ensures
        sweep_cards(sweep) == cards_text(card_texts(cards_of(ReportModel::Sweep { sweep }))),
{
    let pairs = cards_of(ReportModel::Sweep { sweep });
    let want = card_texts(pairs);
    assert(want.len() == 4);
    assert(want == seq![
        card(pairs[0].0, pairs[0].1),
        card(pairs[1].0, pairs[1].1),
        card(pairs[2].0, pairs[2].1),
        card(pairs[3].0, pairs[3].1),
    ]);
}

#[verifier::spinoff_prover]
#[verifier::rlimit(50)]
proof fn lemma_write_cards(write: WriteMeasurement)
    ensures
        write_text(write) == cards_text(card_texts(cards_of(ReportModel::Write { write }))),
{
    let pairs = cards_of(ReportModel::Write { write });
    let want = card_texts(pairs);
    assert(want.len() == 5);
    assert(want == seq![
        card(pairs[0].0, pairs[0].1),
        card(pairs[1].0, pairs[1].1),
        card(pairs[2].0, pairs[2].1),
        card(pairs[3].0, pairs[3].1),
        card(pairs[4].0, pairs[4].1),
    ]);
}

#[verifier::spinoff_prover]
#[verifier::rlimit(50)]
proof fn lemma_random_cards(random: RandomMeasurement)
    ensures
        random_text(random) == cards_text(card_texts(cards_of(ReportModel::Random { random }))),
{
    let pairs = cards_of(ReportModel::Random { random });
    let want = card_texts(pairs);
    assert(want.len() == 6);
    assert(want == seq![
        card(pairs[0].0, pairs[0].1),
        card(pairs[1].0, pairs[1].1),
        card(pairs[2].0, pairs[2].1),
        card(pairs[3].0, pairs[3].1),
        card(pairs[4].0, pairs[4].1),
        card(pairs[5].0, pairs[5].1),
    ]);
}

/// The body of a report begins with its cards.
#[verifier::spinoff_prover]
#[verifier::rlimit(50)]
proof fn lemma_body_begins(r: ReportModel)
    ensures
        cards_text(card_texts(cards_of(r))).is_prefix_of(body_text(r)),
{
    let none = Seq::<char>::empty();
    match r {
        ReportModel::Profile { root, files } => {
            lemma_profile_cards(root, files);
            lemma_prefix_of_three(
                profile_cards(files),
                chart_text(
                    "Read throughput per file (slowest first)"@,
                    file_bars(files),
                    "#00ff8c"@,
                ),
                chart_text(
                    "Read-latency distribution (chunks)"@,
                    bucket_bars(files, 14),
                    "#00f7ff"@,
                ),
                file_table(files),
            );
        },
        ReportModel::Bulk { root, bulk } => {
            lemma_bulk_cards(root, bulk);
            lemma_prefix_of_two(
                bulk_cards(bulk),
                chart_text(
                    "Bytes read per worker thread"@,
                    bulk.per_thread@.map_values(|t: ThreadStat| thread_bytes_bar(t)),
                    "#ff00c7"@,
                ),
                chart_text(
                    "Throughput per worker thread"@,
                    bulk.per_thread@.map_values(|t: ThreadStat| thread_rate_bar(t)),
                    "#00ff8c"@,
                ),
            );
        },
        ReportModel::Sweep { sweep } => {
            lemma_sweep_cards(sweep);
            lemma_prefix_of_two(
                sweep_cards(sweep),
                chart_text(
                    "Read throughput by block size"@,
                    sweep.points@.map_values(|p: SweepPoint| point_rate_bar(p)),
                    "#00f7ff"@,
                ),
                chart_text(
                    "Average read() latency by block size"@,
                    sweep.points@.map_values(|p: SweepPoint| point_latency_bar(p)),
                    "#a200ff"@,
                ),
            );
        },
        ReportModel::Write { write } => {
            lemma_write_cards(write);
            lemma_prefix_of_two(body_text(r), none, none);
            assert(body_text(r) + none + none == body_text(r));
        },
        ReportModel::Random { random } => {
            lemma_random_cards(random);
            lemma_prefix_of_two(body_text(r), none, none);
            assert(body_text(r) + none + none == body_text(r));
        },
    }
}

proof fn lemma_prefix_of_two(a: Seq<char>, b: Seq<char>, c: Seq<char>)
    ensures
        a.is_prefix_of(a + b + c),
{
    assert((a + b + c).subrange(0, a.len() as int) == a);
}

proof fn lemma_prefix_of_three(a: Seq<char>, b: Seq<char>, c: Seq<char>, d: Seq<char>)
    ensures
        a.is_prefix_of(a + b + c + d),
{
    assert((a + b + c + d).subrange(0, a.len() as int) == a);
}

proof fn lemma_found(a: Seq<char>, b: Seq<char>, c: Seq<char>, d: Seq<char>)
    ensures
        (a + (b + c) + d).skip(a.len() as int) == b + (c + d),
{
    assert((a + (b + c) + d).skip(a.len() as int) == b + (c + d));
}

// ── the laws ────────────────────────────────────────────────────────────────

/// The cards at the top of a page tell the numbers of its report under their labels.
#[verifier::spinoff_prover]
#[verifier::rlimit(50)]
pub proof fn law_a_page_begins_with_its_cards(r: ReportModel, generated: nat)
    ensures
        exists|i: int|
            0 <= i && #[trigger] read_cards(html_text(r, generated).skip(i)) == Some(cards_of(r)),
{
    let page = html_text(r, generated);
    let front = cards_text(card_texts(cards_of(r)));
    let body = body_text(r);
    lemma_body_begins(r);
    let rest = body.skip(front.len() as int) + page_end(generated);
    assert(body == front + body.skip(front.len() as int));
    let i = page_front(r).len() as int;
    lemma_found(page_front(r), front, body.skip(front.len() as int), page_end(generated));
    assert(page.skip(i) == front + rest);
    lemma_cards(cards_of(r), rest);
}

/// The page of a profile has a table with a row for each file, in which the file's
/// path, size, throughput, average latency, 99th percentile and number of chunks stand
/// under their headings.
#[verifier::spinoff_prover]
#[verifier::rlimit(50)]
pub proof fn law_a_profile_page_tells_every_file(
    root: Seq<char>,
    files: Seq<FileMeasurement>,
    generated: nat,
)
    ensures
        exists|i: int|
            0 <= i && (#[trigger] read_table(
                html_text(ReportModel::Profile { root, files }, generated).skip(i),
            ) matches Some(t) && tells_files(t, files)),
{
    let r = ReportModel::Profile { root, files };
    let page = html_text(r, generated);
    let section = "<section class=\"chart\"><h2>Files</h2>"@;
    let before = page_front(r) + profile_charts(files) + section;
    let rest = "</section>"@ + page_end(generated);
    let i = before.len() as int;
    lemma_inside(
        page_front(r),
        profile_charts(files),
        section,
        bare_table(files),
        "</section>"@,
        page_end(generated),
    );
    lemma_table(files, rest);
    let t = (headings(), files.map_values(|m: FileMeasurement| file_cells(m)));
    assert forall|k: int| 0 <= k < files.len() implies tells_file(
        t.0,
        t.1[k],
        #[trigger] files[k],
    ) by {
        lemma_tells_file(files[k]);
    }
    assert(read_table(page.skip(i)) == Some(t));
}

} // verus!
