# lazylog

A terminal viewer for log files (Symfony/Monolog, nginx and Apache access and
error logs, PHP errors, plain text), built around a library whose logic is
proved with Verus.

## Layout

- `src/` — the verified library.
  - `text.rs`, `time.rs`: characters, text order and case, decimal printing;
    instants as plain numbers and the chrono calls that read them.
  - `log/`: events and their fields, the line grammars (`parsers/`), format
    detection, the line index and loader steps, correlation ids, which files
    look like logs.
  - `query/`: the filter, counting and ranking facet values, facet groups,
    and what an export writes.
  - `ui/`: the viewer's state and what every key press and click does to
    it, the dialogs, the panels' lines and scrolling, the pane sizes, the
    file picker, the terminal's clipboard sequence.
- `app/` — the program around it: command line, terminal, drawing, the
  background loader thread, memory-mapped and gzipped files, the GeoIP
  database, writing exports.
- `tests/` — tests of the library on concrete values.

Every public function of the library states what it returns in its
contract; where the answer rests on the clock, it states what holds of
every reading, and the work done on the reading has an exact contract of
its own. The laws that tie several functions together are proof functions
named `law_*`.
