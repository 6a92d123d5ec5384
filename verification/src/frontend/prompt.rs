//! The questions of the terminal UI and how the answers are read.

use vstd::prelude::*;

use super::paint::{spans, Span, SpanModel, NEON_CYAN};
use super::screen::{heading, heading_of};
use crate::cli::{listed_extensions, parse_extensions};
use crate::interrupt::bulk::{clamp_threads, workers};
use crate::interrupt::discovery::{Filter, FilterModel};
use crate::text::{
    decimal, decimal_of, lowercase, lowercase_of, same, texts, trim_of, trimmed, unsigned,
    unsigned_of,
};

verus! {

/// The question for a path.
pub open spec fn path_question(default: Seq<char>) -> Seq<SpanModel> {
    heading("TARGET PATH"@, NEON_CYAN, "[file or dir · default: "@ + default + "]"@)
}

/// The question for a path.
pub fn path_question_of(default: &str) -> (v: Vec<Span>)
    ensures
        spans(v@) == path_question(default@),
{
    let mut s = "[file or dir · default: ".to_owned();
    s.append(default);
    s.append("]");
    heading_of("TARGET PATH", NEON_CYAN, s.as_str())
}

/// The answer, or `default` where it is blank.
pub open spec fn answer_or(line: Seq<char>, default: Seq<char>) -> Seq<char> {
    if trimmed(line).len() == 0 {
        default
    } else {
        trimmed(line)
    }
}

/// Reads a path, or the base of a file name: the answer, or `default` where it is
/// blank.
pub fn prompt_path(line: &str, default: &str) -> (s: String)
    ensures
        s@ == answer_or(line@, default@),
{
    let t = trim_of(line);
    if t.as_str().is_empty() {
        default.to_owned()
    } else {
        t
    }
}

/// The question for a filter.
pub open spec fn filter_question() -> Seq<SpanModel> {
    heading("FILTER"@, NEON_CYAN, "[extensions e.g. rs,toml · blank = all]"@)
}

/// The question for a filter.
pub fn filter_question_of() -> (v: Vec<Span>)
    ensures
        spans(v@) == filter_question(),
{
    heading_of("FILTER", NEON_CYAN, "[extensions e.g. rs,toml · blank = all]")
}

/// The filter that an answer asks for: its extensions, and no hidden entries.
pub open spec fn filter_for(line: Seq<char>) -> FilterModel {
    FilterModel { skip_hidden: true, extensions: listed_extensions(line) }
}

/// Reads a filter.
pub fn prompt_filter(line: &str) -> (f: Filter)
    ensures
        f@ == filter_for(line@),
{
    let f = Filter { skip_hidden: true, extensions: parse_extensions(line) };
    assert(f@.extensions == texts(f.extensions@));
    f
}

/// The question for an order.
pub open spec fn sort_question() -> Seq<SpanModel> {
    heading("SORT"@, NEON_CYAN, "[throughput · size · name · blank = throughput]"@)
}

/// The question for an order.
pub fn sort_question_of() -> (v: Vec<Span>)
    ensures
        spans(v@) == sort_question(),
{
    heading_of("SORT", NEON_CYAN, "[throughput · size · name · blank = throughput]")
}

/// The question for a way of reading.
pub open spec fn mode_question() -> Seq<SpanModel> {
    heading("READ MODE"@, NEON_CYAN, "[cached / uncached · blank = cached]"@)
}

/// The question for a way of reading.
pub fn mode_question_of() -> (v: Vec<Span>)
    ensures
        spans(v@) == mode_question(),
{
    heading_of("READ MODE", NEON_CYAN, "[cached / uncached · blank = cached]")
}

/// Whether an answer asks to bypass the page cache.
pub open spec fn asks_uncached(line: Seq<char>) -> bool {
    let t = lowercase(trimmed(line));
    t == "uncached"@ || t == "u"@ || t == "cold"@ || t == "nocache"@
}

/// Reads whether to bypass the page cache.
pub fn prompt_uncached(line: &str) -> (r: bool)
    ensures
        r == asks_uncached(line@),
{
    let t = lowercase_of(trim_of(line).as_str());
    same(t.as_str(), "uncached") || same(t.as_str(), "u") || same(t.as_str(), "cold") || same(
        t.as_str(),
        "nocache",
    )
}

/// The question for a number of threads.
pub open spec fn threads_question(default: nat) -> Seq<SpanModel> {
    heading("THREADS"@, NEON_CYAN, "[1-256 · blank = "@ + decimal(default) + "]"@)
}

/// The question for a number of threads.
pub fn threads_question_of(default: usize) -> (v: Vec<Span>)
    ensures
        spans(v@) == threads_question(default as nat),
{
    let mut s = "[1-256 · blank = ".to_owned();
    s.append(decimal_of(default as u128).as_str());
    s.append("]");
    heading_of("THREADS", NEON_CYAN, s.as_str())
}

/// The number of threads that an answer asks for: `default` where it is blank,
/// else from 1 to 256, with `default` for what is no number.
pub open spec fn threads_for(line: Seq<char>, default: nat) -> nat {
    let t = trimmed(line);
    if t.len() == 0 {
        default
    } else {
        workers(
            match unsigned(t) {
                Some(n) => n as nat,
                None => default,
            },
        )
    }
}

/// Reads a number of threads.
pub fn prompt_threads(line: &str, default: usize) -> (n: usize)
    ensures
        n == threads_for(line@, default as nat),
{
    let t = trim_of(line);
    if t.as_str().is_empty() {
        return default;
    }
    match unsigned_of(t.as_str()) {
        Some(n) => clamp_threads(n),
        None => clamp_threads(default),
    }
}

/// The question for the base of a file name.
pub open spec fn base_question() -> Seq<SpanModel> {
    heading("BASE NAME"@, NEON_CYAN, "[blank = profiler-report]"@)
}

/// The question for the base of a file name.
pub fn base_question_of() -> (v: Vec<Span>)
    ensures
        spans(v@) == base_question(),
{
    heading_of("BASE NAME", NEON_CYAN, "[blank = profiler-report]")
}

} // verus!
