//! The command line: what each option asks for.

use vstd::prelude::*;

use crate::cli::{
    listed_extensions, nothing_given, parsed, plain_extension, plain_extensions, scanned, taken,
    Given, Taken, Wanted,
};
use crate::report::SortKey;
use crate::text::{
    begins_with, is_space, lemma_split_nonempty, lowercase, split, trimmed, unsigned,
    without_front, Cut,
};

verus! {

/// The options that take nothing behind them.
#[derive(Clone, Copy, PartialEq, Eq, Structural)]
pub enum Flag {
    Bulk,
    Sweep,
    Write,
    Random,
    Uncached,
    All,
}

/// How an option is written.
pub open spec fn spelled(f: Flag) -> Seq<char> {
    match f {
        Flag::Bulk => "--bulk"@,
        Flag::Sweep => "--sweep"@,
        Flag::Write => "--write"@,
        Flag::Random => "--random"@,
        Flag::Uncached => "--uncached"@,
        Flag::All => "--all"@,
    }
}

/// Whether an option is set.
pub open spec fn is_set(g: Given, f: Flag) -> bool {
    match f {
        Flag::Bulk => g.bulk,
        Flag::Sweep => g.sweep,
        Flag::Write => g.write,
        Flag::Random => g.random,
        Flag::Uncached => g.uncached,
        Flag::All => !g.skip_hidden,
    }
}

/// Whether two settings differ in nothing but the options without a value.
pub open spec fn same_values(a: Given, b: Given) -> bool {
    &&& a.path == b.path
    &&& a.threads == b.threads
    &&& a.extensions == b.extensions
    &&& a.sort == b.sort
    &&& a.json == b.json
    &&& a.csv == b.csv
    &&& a.html == b.html
    &&& a.md == b.md
}

proof fn lemma_names()
    ensures
        "-h"@.len() == 2,
        "--help"@.len() == 6 && "--help"@[2] == 'h' && "--help"@[3] == 'e',
        "--bulk"@.len() == 6 && "--bulk"@[2] == 'b' && "--bulk"@[3] == 'u',
        "--sweep"@.len() == 7 && "--sweep"@[2] == 's' && "--sweep"@[3] == 'w',
        "--write"@.len() == 7 && "--write"@[2] == 'w' && "--write"@[3] == 'r',
        "--random"@.len() == 8 && "--random"@[2] == 'r' && "--random"@[3] == 'a',
        "--uncached"@.len() == 10 && "--uncached"@[2] == 'u' && "--uncached"@[3] == 'n',
        "--all"@.len() == 5 && "--all"@[2] == 'a' && "--all"@[3] == 'l',
        "--threads"@.len() == 9 && "--threads"@[2] == 't' && "--threads"@[3] == 'h',
        "--ext"@.len() == 5 && "--ext"@[2] == 'e' && "--ext"@[3] == 'x',
        "--sort"@.len() == 6 && "--sort"@[2] == 's' && "--sort"@[3] == 'o',
        "--json"@.len() == 6 && "--json"@[2] == 'j' && "--json"@[3] == 's',
        "--csv"@.len() == 5 && "--csv"@[2] == 'c' && "--csv"@[3] == 's',
        "--html"@.len() == 6 && "--html"@[2] == 'h' && "--html"@[3] == 't',
        "--md"@.len() == 4 && "--md"@[2] == 'm' && "--md"@[3] == 'd',
{
    reveal_strlit("-h");
    reveal_strlit("--help");
    reveal_strlit("--bulk");
    reveal_strlit("--sweep");
    reveal_strlit("--write");
    reveal_strlit("--random");
    reveal_strlit("--uncached");
    reveal_strlit("--all");
    reveal_strlit("--threads");
    reveal_strlit("--ext");
    reveal_strlit("--sort");
    reveal_strlit("--json");
    reveal_strlit("--csv");
    reveal_strlit("--html");
    reveal_strlit("--md");
}

/// An option without a value sets what it is named after, and nothing else: wherever it
/// stands, the reading goes on behind it as if that had been set before.
#[verifier::spinoff_prover]
#[verifier::rlimit(50)]
pub proof fn law_a_flag_sets_what_it_is_named_after(
    args: Seq<Seq<char>>,
    i: int,
    g: Given,
    f: Flag,
)
    requires
        0 <= i < args.len(),
        args[i] == spelled(f),
    ensures
        exists|h: Given|
            #![trigger scanned(args, i + 1, h)]
            scanned(args, i, g) == scanned(args, i + 1, h) && is_set(h, f) && same_values(g, h)
                && forall|other: Flag| other != f ==> is_set(h, other) == is_set(g, other),
{
    lemma_names();
    match taken(args, i, g) {
        Taken::Used(h, n) => {
            assert(n == 1);
            assert(scanned(args, i, g) == scanned(args, i + 1, h));
        },
        _ => {
            assert(false);
        },
    }
}

/// The thread option takes the number behind it, kept from 1 to 256; without one, or
/// with something else, the arguments are refused.
pub proof fn law_threads_are_taken_from_the_number(args: Seq<Seq<char>>, i: int, g: Given)
    requires
        0 <= i < args.len(),
        args[i] == "--threads"@,
    ensures
        i + 1 == args.len() ==> scanned(args, i, g) is Err,
        i + 1 < args.len() ==> match unsigned(args[i + 1]) {
            Some(n) => {
                let used = if n < 1 {
                    1nat
                } else if n > 256 {
                    256
                } else {
                    n as nat
                };
                scanned(args, i, g) == scanned(args, i + 2, Given { threads: used, ..g })
            },
            None => scanned(args, i, g) is Err,
        },
{
    lemma_names();
}

/// The sort option takes the key behind it: `size` and `name` and their first letters
/// in whatever case, and throughput for anything else.
pub proof fn law_the_sort_key_is_taken_by_its_name(args: Seq<Seq<char>>, i: int, g: Given)
    requires
        0 <= i < args.len(),
        args[i] == "--sort"@,
    ensures
        i + 1 == args.len() ==> scanned(args, i, g) is Err,
        i + 1 < args.len() ==> ({
            let word = lowercase(trimmed(args[i + 1]));
            let key = if word == "size"@ || word == "s"@ {
                SortKey::Size
            } else if word == "name"@ || word == "n"@ {
                SortKey::Name
            } else {
                SortKey::Throughput
            };
            scanned(args, i, g) == scanned(args, i + 2, Given { sort: key, ..g })
        }),
{
    lemma_names();
}

/// The four report options each ask for the report in their own format, in the file
/// that is named behind them or in one named after the format.
#[verifier::spinoff_prover]
#[verifier::rlimit(50)]
pub proof fn law_a_report_option_names_its_file(args: Seq<Seq<char>>, i: int, g: Given)
    requires
        0 <= i < args.len(),
    ensures
        ({
            let named = i + 1 < args.len() && !begins_with(args[i + 1], '-');
            let next = if named {
                i + 2
            } else {
                i + 1
            };
            &&& args[i] == "--json"@ ==> scanned(args, i, g) == scanned(
                args,
                next,
                Given {
                    json: Some(if named { args[i + 1] } else { "profiler-report.json"@ }),
                    ..g
                },
            )
            &&& args[i] == "--csv"@ ==> scanned(args, i, g) == scanned(
                args,
                next,
                Given {
                    csv: Some(if named { args[i + 1] } else { "profiler-report.csv"@ }),
                    ..g
                },
            )
            &&& args[i] == "--html"@ ==> scanned(args, i, g) == scanned(
                args,
                next,
                Given {
                    html: Some(if named { args[i + 1] } else { "profiler-report.html"@ }),
                    ..g
                },
            )
            &&& args[i] == "--md"@ ==> scanned(args, i, g) == scanned(
                args,
                next,
                Given { md: Some(if named { args[i + 1] } else { "profiler-report.md"@ }), ..g },
            )
        }),
{
    lemma_names();
}

/// An argument that is no option is the path; a second one is refused, and so is an
/// option that nobody knows.
#[verifier::spinoff_prover]
#[verifier::rlimit(50)]
pub proof fn law_there_is_one_path(args: Seq<Seq<char>>, i: int, g: Given)
    requires
        0 <= i < args.len(),
    ensures
        !begins_with(args[i], '-') && g.path is None ==> scanned(args, i, g) == scanned(
            args,
            i + 1,
            Given { path: Some(args[i]), ..g },
        ),
        !begins_with(args[i], '-') && g.path is Some ==> scanned(args, i, g) is Err,
        begins_with(args[i], '-') && args[i].len() == 3 ==> scanned(args, i, g) is Err,
{
    lemma_names();
    reveal_strlit("-h");
    reveal_strlit("--help");
    reveal_strlit("--bulk");
    reveal_strlit("--sweep");
    reveal_strlit("--write");
    reveal_strlit("--random");
    reveal_strlit("--uncached");
    reveal_strlit("--all");
    reveal_strlit("--threads");
    reveal_strlit("--ext");
    reveal_strlit("--sort");
    reveal_strlit("--json");
    reveal_strlit("--csv");
    reveal_strlit("--html");
    reveal_strlit("--md");
}

/// Without options a run skips hidden files, keeps every extension, puts the slowest
/// file first, goes through the page cache, uses a thread per processor and writes no
/// report; with a path alone it profiles that path.
pub proof fn law_a_path_alone_is_profiled(path: Seq<char>, threads: nat)
    requires
        !begins_with(path, '-'),
    ensures
        parsed(seq![path], threads) matches Ok(Wanted::Run(s)) && {
            &&& s.path == path
            &&& !s.bulk && !s.sweep && !s.write && !s.random && !s.uncached
            &&& s.filter.skip_hidden && s.filter.extensions.len() == 0
            &&& s.sort == SortKey::Throughput
            &&& s.threads == threads
            &&& s.json is None && s.csv is None && s.html is None && s.md is None
        },
        parsed(Seq::<Seq<char>>::empty(), threads) == Ok::<Wanted, Seq<char>>(
            Wanted::Interactive,
        ),
{
    let args = seq![path];
    law_there_is_one_path(args, 0, nothing_given(threads));
    assert(scanned(args, 1, Given { path: Some(path), ..nothing_given(threads) }) == Ok::<
        Option<Given>,
        Seq<char>,
    >(Some(Given { path: Some(path), ..nothing_given(threads) })));
}

/// A run has every setting as it was given.
pub proof fn law_a_run_has_the_settings_that_were_given(g: Given)
    requires
        g.path is Some,
    ensures
        g.wanted() matches Ok(Wanted::Run(s)) && {
            &&& s.path == g.path->0
            &&& s.bulk == g.bulk
            &&& s.sweep == g.sweep
            &&& s.write == g.write
            &&& s.random == g.random
            &&& s.uncached == g.uncached
            &&& s.threads == g.threads
            &&& s.filter.skip_hidden == g.skip_hidden
            &&& s.filter.extensions == g.extensions
            &&& s.sort == g.sort
            &&& s.json == g.json
            &&& s.csv == g.csv
            &&& s.html == g.html
            &&& s.md == g.md
        },
{
}

/// The extension option takes the list behind it, and nothing else.
pub proof fn law_extensions_are_taken_from_the_list(args: Seq<Seq<char>>, i: int, g: Given)
    requires
        0 <= i < args.len(),
        args[i] == "--ext"@,
    ensures
        i + 1 == args.len() ==> scanned(args, i, g) is Err,
        i + 1 < args.len() ==> scanned(args, i, g) == scanned(
            args,
            i + 2,
            Given { extensions: listed_extensions(args[i + 1]), ..g },
        ),
{
    lemma_names();
}

proof fn lemma_split_at(a: Seq<char>, sep: char, b: Seq<char>)
    requires
        Cut::CommaOrSpace.at(sep),
    ensures
        split(a.push(sep) + b, Cut::CommaOrSpace) == split(a, Cut::CommaOrSpace) + split(
            b,
            Cut::CommaOrSpace,
        ),
    decreases b.len(),
{
    let cut = Cut::CommaOrSpace;
    let all = a.push(sep) + b;
    let none = Seq::<char>::empty();
    lemma_split_nonempty(b, cut);
    if b.len() == 0 {
        assert(all == a.push(sep));
        assert(all.drop_last() == a);
        assert(split(b, cut) == seq![none]);
        assert(split(a, cut).push(none) == split(a, cut) + seq![none]);
    } else {
        let before = b.drop_last();
        lemma_split_nonempty(before, cut);
        lemma_split_at(a, sep, before);
        assert(all.drop_last() == a.push(sep) + before);
        assert(all.last() == b.last());
        let x = split(a, cut);
        let y = split(before, cut);
        assert((x + y).last() == y.last());
        if cut.at(b.last()) {
            assert((x + y).push(none) == x + y.push(none));
        } else {
            let c = y.last().push(b.last());
            assert((x + y).drop_last().push(c) == x + y.drop_last().push(c));
        }
    }
}

proof fn lemma_pieces(x: Seq<Seq<char>>, y: Seq<Seq<char>>)
    ensures
        plain_extensions(x + y) == plain_extensions(x) + plain_extensions(y),
    decreases y.len(),
{
    if y.len() == 0 {
        assert(x + y == x);
        assert(plain_extensions(x) + plain_extensions(y) == plain_extensions(x));
    } else {
        lemma_pieces(x, y.drop_last());
        assert((x + y).drop_last() == x + y.drop_last());
        assert((x + y).last() == y.last());
    }
}

/// A list of extensions is read piece by piece: a comma or a blank parts it into two
/// lists, whose extensions follow each other.
pub proof fn law_a_list_is_read_piece_by_piece(a: Seq<char>, sep: char, b: Seq<char>)
    requires
        sep == ',' || is_space(sep),
    ensures
        listed_extensions(a.push(sep) + b) == listed_extensions(a) + listed_extensions(b),
{
    lemma_split_at(a, sep, b);
    lemma_pieces(split(a, Cut::CommaOrSpace), split(b, Cut::CommaOrSpace));
}

proof fn lemma_one_piece(s: Seq<char>)
    requires
        forall|i: int| 0 <= i < s.len() ==> !Cut::CommaOrSpace.at(#[trigger] s[i]),
    ensures
        split(s, Cut::CommaOrSpace) == seq![s],
    decreases s.len(),
{
    if s.len() > 0 {
        let before = s.drop_last();
        assert forall|i: int| 0 <= i < before.len() implies !Cut::CommaOrSpace.at(
            #[trigger] before[i],
        ) by {
            assert(before[i] == s[i]);
        }
        lemma_one_piece(before);
        assert(!Cut::CommaOrSpace.at(s[s.len() - 1]));
        assert(before.push(s.last()) == s);
    } else {
        assert(s == Seq::<char>::empty());
    }
}

proof fn lemma_one_extension(s: Seq<char>)
    requires
        forall|i: int| 0 <= i < s.len() ==> !Cut::CommaOrSpace.at(#[trigger] s[i]),
        plain_extension(s).len() > 0,
    ensures
        listed_extensions(s) == seq![plain_extension(s)],
{
    lemma_one_piece(s);
    let one = seq![s];
    assert(one.drop_last() == Seq::<Seq<char>>::empty());
    assert(one.last() == s);
    assert(plain_extensions(one.drop_last()) == Seq::<Seq<char>>::empty());
}

/// One extension may be written by itself, behind a dot, or behind a star and a dot; it
/// is kept in small letters.
pub proof fn law_an_extension_may_have_a_dot_or_a_star(word: Seq<char>)
    requires
        word.len() > 0,
        word[0] != '.',
        word[0] != '*',
        forall|i: int| 0 <= i < word.len() ==> #[trigger] word[i] != ',' && !is_space(word[i]),
    ensures
        listed_extensions(word) == seq![lowercase(word)],
        listed_extensions(seq!['.'] + word) == seq![lowercase(word)],
        listed_extensions(seq!['*', '.'] + word) == seq![lowercase(word)],
{
    let dotted = seq!['.'] + word;
    let starred = seq!['*', '.'] + word;
    assert(starred.skip(1) == dotted);
    assert(dotted.skip(1) == word);
    assert(without_front(word, '.') == word && without_front(word, '*') == word);
    assert(without_front(dotted, '.') == word);
    assert(without_front(dotted, '*') == dotted);
    assert(without_front(starred, '*') == dotted);
    assert forall|i: int| 0 <= i < word.len() implies !Cut::CommaOrSpace.at(
        #[trigger] word[i],
    ) by {
    }
    assert forall|i: int| 0 <= i < dotted.len() implies !Cut::CommaOrSpace.at(
        #[trigger] dotted[i],
    ) by {
        if i > 0 {
            assert(dotted[i] == word[i - 1]);
        }
    }
    assert forall|i: int| 0 <= i < starred.len() implies !Cut::CommaOrSpace.at(
        #[trigger] starred[i],
    ) by {
        if i > 1 {
            assert(starred[i] == word[i - 2]);
        }
    }
    lemma_one_extension(word);
    lemma_one_extension(dotted);
    lemma_one_extension(starred);
}

} // verus!
