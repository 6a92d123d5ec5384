//! A run without the terminal UI: which measurement is made, and what is reported.

use vstd::prelude::*;

use crate::cli::Settings;
use crate::headless::{
    bulk_line, first_text, on_out, random_line, sweep_lines, write_line, HeadlessState,
    Task,
};
use crate::interrupt::bulk::BulkMeasurement;
use crate::interrupt::hardware_interrupt::FileMeasurement;
use crate::interrupt::random::RandomMeasurement;
use crate::interrupt::sweep::SweepResult;
use crate::interrupt::write::WriteMeasurement;
use crate::report::{lemma_sorting_keeps_the_files, Format, ReportModel};

verus! {

/// A run makes the measurement that was asked for: a write benchmark before anything is
/// looked for; otherwise, once the files are found, a random-access benchmark or a sweep
/// of the one file, a bulk read of all, or a profile. A run that finds nothing, or too
/// many files for what was asked, fails.
pub proof fn law_a_run_makes_the_measurement_that_was_asked_for(
    settings: Settings,
    files: Seq<Option<Seq<char>>>,
    e: Seq<char>,
)
    ensures
        ({
            let s = HeadlessState::start(settings);
            let o = s.collected(Ok(files));
            let n = files.len();
            let one = settings.random || settings.sweep;
            &&& s.task == if settings.write {
                Task::Write
            } else {
                Task::Collect
            }
            &&& s.report is None && s.code() == 0
            &&& n == 0 || (one && n != 1) ==> o.state.task == Task::Exit && o.state.code() == 1
                && o.printed.len() == 1 && o.printed[0].err
            &&& n == 1 && settings.random ==> o.state.task == Task::Random && o.state.code() == 0
            &&& n == 1 && settings.sweep && !settings.random ==> o.state.task == Task::Sweep
                && o.state.code() == 0
            &&& n > 0 && settings.bulk && !one ==> o.state.task == Task::Bulk && o.state.code()
                == 0 && o.state.files == files
            &&& n > 0 && files[0] is Some && !settings.bulk && !one ==> o.state.task
                == Task::Profile && o.state.target() == files[0]->0 && o.state.code() == 0
            &&& s.collected(Err(e)).state.task == Task::Exit && s.collected(Err(e)).state.code()
                == 1
        }),
{
}

/// A sweep, a bulk read, a write benchmark and a random-access benchmark each become the
/// report of their kind, with the very numbers that were measured. One that fails ends
/// the run with exit code one.
pub proof fn law_a_measurement_becomes_the_report(
    s: HeadlessState,
    sweep: SweepResult,
    bulk: BulkMeasurement,
    write: WriteMeasurement,
    random: RandomMeasurement,
    e: Seq<char>,
)
    ensures
        s.swept(Ok(sweep)).state.report == Some(ReportModel::Sweep { sweep }),
        s.bulk_read(bulk).state.report == Some(
            ReportModel::Bulk { root: s.settings.path, bulk },
        ),
        s.written(Ok(write)).state.report == Some(ReportModel::Write { write }),
        s.random_read(Ok(random)).state.report == Some(ReportModel::Random { random }),
        s.swept(Ok(sweep)).printed == sweep_lines(s.target(), sweep),
        s.bulk_read(bulk).printed == seq![on_out(bulk_line(bulk))],
        s.written(Ok(write)).printed == seq![on_out(write_line(write))],
        s.random_read(Ok(random)).printed == seq![on_out(random_line(random))],
        s.swept(Err(e)).state.code() == 1 && s.swept(Err(e)).state.task == Task::Exit,
        s.written(Err(e)).state.code() == 1 && s.written(Err(e)).state.task == Task::Exit,
        s.random_read(Err(e)).state.code() == 1 && s.random_read(Err(e)).state.task == Task::Exit,
{
}

// ── a profile of many files ─────────────────────────────────────────────────

/// The files from `k` on whose paths are in UTF-8.
pub open spec fn texts_from(files: Seq<Option<Seq<char>>>, k: int) -> nat
    decreases files.len() - k,
{
    if k >= files.len() {
        0
    } else {
        texts_from(files, k + 1) + if files[k] is Some {
            1nat
        } else {
            0
        }
    }
}

/// The files that could be measured.
pub open spec fn successes(results: Seq<Result<FileMeasurement, Seq<char>>>) -> Seq<FileMeasurement>
    decreases results.len(),
{
    if results.len() == 0 {
        Seq::empty()
    } else {
        (match results[0] {
            Ok(m) => seq![m],
            Err(_) => Seq::empty(),
        }) + successes(results.skip(1))
    }
}

/// The state after a series of files.
pub open spec fn profiled_all(
    s: HeadlessState,
    results: Seq<Result<FileMeasurement, Seq<char>>>,
) -> HeadlessState
    decreases results.len(),
{
    if results.len() == 0 {
        s
    } else {
        profiled_all(s.profiled(results[0]).state, results.skip(1))
    }
}

proof fn lemma_first_text(files: Seq<Option<Seq<char>>>, k: int)
    requires
        0 <= k,
    ensures
        texts_from(files, k) == 0 <==> first_text(files, k) >= files.len(),
        texts_from(files, k) > 0 ==> {
            let n = first_text(files, k);
            k <= n < files.len() && files[n] is Some && texts_from(files, k) == texts_from(
                files,
                n + 1,
            ) + 1
        },
    decreases files.len() - k,
{
    if k < files.len() && files[k] is None {
        lemma_first_text(files, k + 1);
    }
}

/// A profile measures every file in turn and reports those that could be measured, and
/// no others, in the order that was asked for; the target is the path of the run.
pub proof fn law_a_profile_reports_every_file_it_could_measure(
    s: HeadlessState,
    results: Seq<Result<FileMeasurement, Seq<char>>>,
)
    requires
        s.task == Task::Profile,
        s.next < s.files.len(),
        s.files[s.next as int] is Some,
        results.len() == texts_from(s.files, s.next as int),
        s.measured.len() + results.len() <= usize::MAX,
    ensures
        ({
            let all = s.measured + successes(results);
            let t = profiled_all(s, results);
            &&& t.report matches Some(ReportModel::Profile { root, files }) && root
                == s.settings.path && files.to_multiset() == all.to_multiset() && files
                == s.settings.sort.sorted(all)
            &&& t.failed == s.failed
        }),
    decreases results.len(),
{
    let n = s.next as int;
    assert(texts_from(s.files, n) == texts_from(s.files, n + 1) + 1);
    let r = results[0];
    let rest = results.skip(1);
    let all = s.measured + successes(results);
    let t = s.profiled(r).state;
    lemma_first_text(s.files, n + 1);
    lemma_successes_at_most(results);
    match r {
        Ok(m) => {
            assert(s.measured.push(m) + successes(rest) == all);
        },
        Err(_) => {
            assert(s.measured + successes(rest) == all);
        },
    }
    if rest.len() == 0 {
        assert(successes(rest) == Seq::<FileMeasurement>::empty());
        assert(all == match r {
            Ok(m) => s.measured.push(m),
            Err(_) => s.measured,
        });
        lemma_sorting_keeps_the_files(s.settings.sort, all);
        assert(profiled_all(t, rest) == t);
    } else {
        assert(t.task == Task::Profile);
        assert(t.measured + successes(rest) == all);
        law_a_profile_reports_every_file_it_could_measure(t, rest);
    }
}

proof fn lemma_successes_at_most(results: Seq<Result<FileMeasurement, Seq<char>>>)
    ensures
        successes(results).len() <= results.len(),
    decreases results.len(),
{
    if results.len() > 0 {
        lemma_successes_at_most(results.skip(1));
    }
}

/// Each format is written to the file that was named for it.
pub proof fn law_each_format_goes_to_its_own_file(s: HeadlessState, f: Format)
    requires
        s.task == Task::Save(f),
        s.settings.output(f) is Some,
    ensures
        f == Format::Json ==> Some(s.target()) == s.settings.json,
        f == Format::Csv ==> Some(s.target()) == s.settings.csv,
        f == Format::Html ==> Some(s.target()) == s.settings.html,
        f == Format::Markdown ==> Some(s.target()) == s.settings.md,
{
}

} // verus!
