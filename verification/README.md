# Sawskas Profiler

A low-level file I/O profiler for macOS and Linux. Files are opened, sized, read,
written and closed with raw system calls. Each read is timed with the hardware
counter, and progress is sampled on the tail of the hardware timer's interrupt.
There is a terminal UI and a command line; reports come as JSON, CSV, HTML with
inline SVG graphs, and Markdown.

## Layout

- `src/` is the library, verified with Verus. It decides everything: which system
  call comes next and what its result amounts to, how the numbers are computed,
  how a directory is walked, what the command line means, what is printed, and
  what every report holds.
- `app/` makes the calls that the library asks for: system calls, the hardware
  counter, the timer's signal, threads, the terminal and the file system.
- `tests/` runs the library on machines, directories and terminals in memory.

## The library

| Module | What it holds |
|---|---|
| `interrupt` | The measurements as state machines: profiling a file, bulk reads, the block-size sweep, the write and random-access benchmarks, and file discovery. |
| `report` | Reports, their order and break-down by type, and the four formats. |
| `cli`, `headless` | The options, and a run without the terminal UI. |
| `frontend` | The terminal UI: menu, prompts, screens, scans, and colours. |
| `binary64`, `rate`, `chart`, `human`, `order`, `text` | Double-precision arithmetic on integers, rates, bars, sizes, stable sorting, and text. |

Every function states in its contract what it returns for every input; of a line
that is rendered in colour, the forms that it may have, since the environment
decides on colours. What relates several functions stands in the `law_` proofs,
among them: every chunk lands in one bucket of the latency histogram; the timer is
disarmed on every way out of a measurement; one measurement runs at a time; a run
sweeps the default block sizes, in order; every file of a bulk read has one
worker; a finished walk has found every file once, and with a filter the matching
part; the order of the arguments does not matter; a JSON or CSV document reads back
as what was written into it; and colour never changes what is seen.

Rates are computed with integers, digit for digit as double-precision arithmetic
rounds them.

Three functions of the crate `colored` are trusted to paint text as its
documentation and source say; so is `String::push` of the standard library.
