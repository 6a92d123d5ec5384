//! The terminal UI: what an answer means, and what a scan of many files amounts to.

use vstd::prelude::*;

use super::html::nanos_of;
use super::json::bytes_of;
use super::lines::{chunks_of, interrupts_of, samples_of};
use crate::frontend::batch::{Aggregate, BatchState, RowModel};
use crate::frontend::prompt::{answer_or, asks_uncached, filter_for, threads_for};
use crate::frontend::ui::{Stage, UiModel};
use crate::interrupt::discovery::in_utf8;
use crate::interrupt::hardware_interrupt::FileMeasurement;
use crate::report::{Format, ReportModel};
use crate::text::{is_space, leading_space, lowercase, trailing_space, trimmed, unsigned};

verus! {

// ── answers ─────────────────────────────────────────────────────────────────

/// Whether a text is blank.
pub open spec fn blank(s: Seq<char>) -> bool {
    forall|i: int| 0 <= i < s.len() ==> is_space(#[trigger] s[i])
}

/// A blank answer means what is suggested; any other means itself, the blanks around it
/// left out.
pub proof fn law_a_blank_answer_means_what_is_suggested(
    before: Seq<char>,
    word: Seq<char>,
    behind: Seq<char>,
    suggested: Seq<char>,
)
    requires
        blank(before),
        blank(behind),
        word.len() > 0,
        !is_space(word[0]),
        !is_space(word.last()),
    ensures
        answer_or(before + word + behind, suggested) == word,
        answer_or(before, suggested) == suggested,
{
    lemma_trimmed(before, word, behind);
    lemma_trimmed_blank(before);
}

/// A number of threads is taken as it was typed, from 1 to 256; what is no number means
/// the number of processors.
pub proof fn law_a_typed_number_of_threads_is_taken(
    before: Seq<char>,
    word: Seq<char>,
    behind: Seq<char>,
    processors: nat,
)
    requires
        blank(before),
        blank(behind),
        word.len() > 0,
        !is_space(word[0]),
        !is_space(word.last()),
        1 <= processors <= 256,
    ensures
        threads_for(before, processors) == processors,
        match unsigned(word) {
            Some(n) => threads_for(before + word + behind, processors) == if n < 1 {
                1
            } else if n > 256 {
                256
            } else {
                n as nat
            },
            None => threads_for(before + word + behind, processors) == processors,
        },
{
    lemma_trimmed(before, word, behind);
    lemma_trimmed_blank(before);
}

/// Only the words for it ask to bypass the page cache, in whatever case; a scan never
/// takes hidden files.
pub proof fn law_the_cache_is_bypassed_by_request_only(line: Seq<char>)
    ensures
        trimmed(line).len() == 0 ==> !asks_uncached(line),
        lowercase(trimmed(line)) == "uncached"@ ==> asks_uncached(line),
        lowercase(trimmed(line)) == "cached"@ ==> !asks_uncached(line),
        filter_for(line).skip_hidden,
{
    reveal_strlit("uncached");
    reveal_strlit("u");
    reveal_strlit("cold");
    reveal_strlit("nocache");
    reveal_strlit("cached");
    assert("uncached"@.len() == 8 && "u"@.len() == 1 && "cold"@.len() == 4 && "nocache"@.len()
        == 7 && "cached"@.len() == 6);
}

proof fn lemma_leading(before: Seq<char>, rest: Seq<char>)
    requires
        blank(before),
        rest.len() == 0 || !is_space(rest[0]),
    ensures
        leading_space(before + rest) == before.len(),
    decreases before.len(),
{
    let all = before + rest;
    if before.len() == 0 {
        assert(all == rest);
    } else {
        assert(all[0] == before[0]);
        assert(all.skip(1) == before.skip(1) + rest);
        assert forall|i: int| 0 <= i < before.skip(1).len() implies is_space(
            #[trigger] before.skip(1)[i],
        ) by {
            assert(before.skip(1)[i] == before[i + 1]);
        }
        lemma_leading(before.skip(1), rest);
    }
}

proof fn lemma_trailing(front: Seq<char>, behind: Seq<char>)
    requires
        blank(behind),
        front.len() == 0 || !is_space(front.last()),
    ensures
        trailing_space(front + behind) == behind.len(),
    decreases behind.len(),
{
    let all = front + behind;
    if behind.len() == 0 {
        assert(all == front);
    } else {
        assert(all.last() == behind.last());
        assert(all.drop_last() == front + behind.drop_last());
        assert(is_space(behind[behind.len() - 1]));
        lemma_trailing(front, behind.drop_last());
    }
}

proof fn lemma_trimmed(before: Seq<char>, word: Seq<char>, behind: Seq<char>)
    requires
        blank(before),
        blank(behind),
        word.len() > 0,
        !is_space(word[0]),
        !is_space(word.last()),
    ensures
        trimmed(before + word + behind) == word,
{
    let all = before + word + behind;
    assert(all == before + (word + behind));
    lemma_leading(before, word + behind);
    assert(all.skip(before.len() as int) == word + behind);
    lemma_trailing(word, behind);
    assert((word + behind).take(word.len() as int) == word);
}

proof fn lemma_trimmed_blank(s: Seq<char>)
    requires
        blank(s),
    ensures
        trimmed(s).len() == 0,
{
    let none = Seq::<char>::empty();
    assert(s + none == s);
    lemma_leading(s, none);
    assert(s.skip(s.len() as int) == none);
}

// ── a scan of many files ────────────────────────────────────────────────────

/// The measurements of some rows, as they are.
pub open spec fn in_rows(rows: Seq<RowModel>) -> Seq<FileMeasurement> {
    Seq::new(rows.len(), |i: int| rows[i].m)
}

/// Whether the totals of a scan are the sums over its rows.
pub open spec fn adds_up(a: Aggregate, rows: Seq<RowModel>) -> bool {
    let files = in_rows(rows);
    &&& a.files == files.len()
    &&& a.bytes == bytes_of(files)
    &&& a.wall_nanos == nanos_of(files)
    &&& a.chunks == chunks_of(files)
    &&& a.irqs == interrupts_of(files)
    &&& a.samples == samples_of(files)
}

proof fn lemma_settled(b: BatchState)
    ensures
        b.settled().rows == b.rows,
        b.settled().root == b.root,
        b.settled().sort == b.sort,
        b.settled().files == b.files,
        adds_up(b.agg, b.rows) ==> adds_up(b.settled().agg, b.rows),
    decreases b.files.len() - b.next,
{
    if b.next < b.files.len() && !in_utf8(b.files[b.next as int]) {
        lemma_settled(b.failed());
    }
}

/// A file that a scan could measure gets a row with its measurement, its place and its
/// name, and is added to the totals; one that it could not measure gets none. The totals
/// stay the sums over the rows.
pub proof fn law_a_scan_keeps_a_row_per_measured_file(
    b: BatchState,
    r: Result<FileMeasurement, Seq<char>>,
)
    requires
        adds_up(b.agg, b.rows),
        r matches Ok(m) ==> b.agg.has_room(m),
    ensures
        adds_up(b.after(r).agg, b.after(r).rows),
        r matches Ok(m) ==> b.after(r).rows == b.rows.push(
            RowModel { idx: b.next + 1, name: b.name(b.next as int), m },
        ),
        r is Err ==> b.after(r).rows == b.rows,
{
    match r {
        Ok(m) => {
            let row = RowModel { idx: b.next + 1, name: b.name(b.next as int), m };
            let more = in_rows(b.rows.push(row));
            assert(more.drop_last() == in_rows(b.rows));
            assert(more.last() == m);
            lemma_settled(b.with_row(m));
        },
        Err(_) => {
            lemma_settled(b.failed());
        },
    }
}

// ── reports ─────────────────────────────────────────────────────────────────

/// Each format of an exported report goes to a file of its own, named after the answer
/// and ending in the format's extension.
pub proof fn law_an_export_names_a_file_per_format(ui: UiModel, f: Format)
    requires
        ui.stage == Stage::Save(f),
    ensures
        f == Format::Json ==> ui.target() == ui.base + "."@ + "json"@,
        f == Format::Csv ==> ui.target() == ui.base + "."@ + "csv"@,
        f == Format::Html ==> ui.target() == ui.base + "."@ + "html"@,
        f == Format::Markdown ==> ui.target() == ui.base + "."@ + "md"@,
{
}

/// The measurement of a single file becomes the report, under the path that was typed.
pub proof fn law_a_single_file_becomes_the_report(ui: UiModel, m: FileMeasurement)
    requires
        ui.stage == Stage::Single,
    ensures
        ui.measured(Ok(m)).ui.report == Some(
            ReportModel::Profile { root: ui.input, files: seq![m] },
        ),
{
}

} // verus!
