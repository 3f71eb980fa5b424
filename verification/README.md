# procscope

The verified core of a Linux tool that shows, live, what every process does
(files opened, network connections, process lifecycle), as captured by eBPF
tracepoints.

- `src/` — the library, verified with Verus:
  - `event` — the event record shared with the kernel probes, its kinds, and
    the text of its name and path fields;
  - `decode` — reading an event out of a raw ring-buffer record;
  - `model` — per-process aggregation: counts per category, a window of the
    newest events, the lost-event counter, and the busiest-first listing;
  - `format`, `text` — rendering events and numbers as text;
  - `view` — the rows, lines, selection and key handling of the front end.
- `app/` — the program around it: command line, loading and attaching the
  eBPF programs, draining the ring buffer, and the terminal UI.
- `tests/` — tests of the library.

Not in this tree: the kernel-side eBPF programs (built separately for the
BPF target) whose object `app/` loads; a counter of events the kernel could
not place in the full ring buffer (the probes keep none, so only records too
short to decode are counted as lost); and launching a command given after
`--` (the argument is accepted and not yet acted on).
