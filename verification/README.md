# kiseki

A verified encoder for [Kanata]-format processor pipeline traces (format
version `0004`), the tab-separated log read by the Konata viewer.

- `src/` is the library, checked by Verus:
  - `trace.rs`: `Config`, `Trace` and its abstract model (`TraceState`,
    `Command`, `refusal`, `next`, `line`); every command's contract is
    stated through that model.
  - `validator.rs`: instruction-lifecycle bookkeeping on a
    `fixedbitset::FixedBitSet`, whose methods are declared in `bitset.rs`.
  - `sanitizer.rs`: rejection of tab, newline and carriage return in fields.
  - `sink.rs`: the byte buffer the trace writes into (its contents can be
    handed out as they grow), and decimal spelling.
  - `error.rs`, `id.rs`: errors with their messages, ids and label levels.
  - `laws.rs`: properties that span commands and whole runs, proved over the
    model.
- `tests/` runs the library on concrete traces.
- `app/` streams a trace into any `std::io::Write` sink, line by line, and
  takes any `Display` value as a stage name or label text.

[Kanata]: https://github.com/shioyadan/Konata/blob/master/docs/kanata-log-format.md
