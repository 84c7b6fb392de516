# utree

A library for listing directory trees the way the Unix `tree` command does,
verified with Verus.

## Layout

- `src/` — the verified library:
  - `options` parses the command line into options (with `parse_laws`
    proving what holds of every command line that parses);
  - `filter` (`--gitignore`) and `info` (`--info`) keep stacks of ignore and
    info files and check entries against them with a caller-supplied glob
    matcher (`pattern`);
  - `verscmp` is glibc's version ordering;
  - `output` holds the metadata column (`meta`), colors (`color`),
    line-drawing glyphs (`linedraw`) and the XML backend (`xml`);
  - `walk` holds the tree an output backend is fed;
  - `bytes`, `decimal` and `text` are small helpers on byte strings,
    numbers and strings.
- `app/` — what touches the operating system: reading the environment,
  files, the clock and writing to streams, around the library.
- `tests/` — tests of the library on concrete values.

Dates are formatted with `chrono` in the machine's time zone: the
contracts fix the format handed to chrono and the instant printed, and
leave open only the local offset (less than a day), which the machine
decides.
