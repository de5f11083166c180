# watch_rs

A cross-platform `watch`: run a command periodically and show its output fullscreen,
optionally highlighting what changed.

- `src/` is the library, verified with Verus:
  - `text.rs`: character classes, line splitting as `str::lines` does it, joining;
  - `config.rs`: command-line options and the configuration derived from them;
  - `diff.rs`: the difference engine (which character positions changed);
  - `runner.rs`: direct or shell execution, shell quoting (with a model of how a POSIX
    shell reads the quoted command line back), cleaning the output of control characters;
  - `display.rs`: the meaning of terminal events, the layout of the output and the
    header, screenshots;
  - `watch.rs`: the decisions of the watch loop.
- `app/` is the program: argument parsing, the terminal, the clock, the child process.
- `tests/` exercises the library.
