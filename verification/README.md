# context_profiler

Attributes what occupies a model's context window, item by item, for a `/ctx` view.

A session's server notifications become profiler events; the profiler folds them into a
snapshot of the context: every observed item with its token cost, the items grouped by tool call,
totals per category, the turns and what each added, and a reconciled startup baseline. Costs start
as byte-based estimates and are repriced from the measured usage each response reports.

## Layout

- `src/` is the library, verified with Verus. Every function states its behaviour in its
  contract, and the library's laws are stated and proved as proof functions:
  - `observed`, `classify`, `estimate`: what is read of an item, its display category and
    pricing direction, and its estimated cost.
  - `pricing`, `aggregate`, `profiler`, `snapshot`: the fold, anchor-delta pricing, the derived
    groups and category totals, and baseline and drift reconciliation.
  - `adapter`, `record`, `registry`: one adapter and profiler per observed thread, and the trace
    records they produce.
  - `card`, `order`: the plain-data model of the `/ctx` card.
- `tests/` exercises the library on concrete sessions, including measured captures.
- `app/` is the I/O around it: converting wire types into the library's values, and writing the
  trace log.
