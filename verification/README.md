# logrustate

A log rotation tool in the manner of `logrotate`, reading either the
classic `logrotate.conf` syntax or a TOML configuration, with its rules
verified with Verus.

## Layout

- `src/` — the verified library.
  - `text.rs`: whitespace, trimming, splitting, lines, decimal numbers and
    string order, each specified over `Seq<char>`.
  - `config.rs`: the settings of a block, how global settings fill in what a
    block leaves unset, the blocks of a TOML configuration (`[[entries]]`
    with `paths`, or `[[logs]]` with `path` and a flag such as
    `daily = true`), and size values such as `100k`.
  - `legacy.rs`: the classic syntax, read one line at a time by a state
    machine; an `include` line is answered with the glob pattern to read.
    A whole file is specified as a fold of that machine over its lines;
    blank lines and comments change nothing.
  - `datetime.rs`: calendar date-times, with the current local time and the
    time between two date-times taken from `chrono`.
  - `state.rs`: the rotation state (when each file was last rotated), its
    state file format, and when a rotation is due. Saving then loading gives
    the state back, without fractions of a second, for years from 0 on and
    paths that hold neither `"` nor a line feed.
  - `paths.rs`: `Path::join` on Unix, and the parts of a path as
    `std::path::Path` finds them.
  - `rotator.rs`: whether each file is rotated, in what order scripts and
    rotations run, and which file operations rotate a file (with the date
    suffix of a `dateext` rotation written by chrono from the local time).
  - `retention.rs`: which dated copies go so that at most `rotate` remain:
    the copies whose dates chrono reads back in the date format, oldest
    (by modification time) first.
  - `compress.rs`: the gzip compression of a rotated file, by `flate2`.
- `app/` — the program: arguments, reading and writing files, listing
  directories, globbing, running scripts, and carrying out the operations
  that the library decides.
- `tests/` — tests of the library on concrete values.
