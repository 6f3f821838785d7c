# log_reader

Per-service statistics over a file of JSON log lines (timestamp, level,
service, latency, endpoint), computed by a reading thread, several parsing
threads and an aggregating thread, and printed as a table.

- `src/` is the verified library (Verus):
  - `tally.rs`: the mathematical counters (`Tally`) and their addition laws;
  - `log_event.rs`: `LogEvent`, `LogStats` (new, document, add, checked add)
    and the statistics of a sequence of lines;
  - `service_stats.rs`: `ServiceStats`, the per-service map, documenting a
    line under its service and merging maps;
  - `service_laws.rs`: why the result of a run depends only on the lines
    read (not on their order, on the batches, on the threads, or on the order
    in which partial results are merged), and why the summary row counts
    every line once;
  - `order.rs`: the byte order of names and a verified sort;
  - `report.rs`: the sorted rows and the total of the report;
  - `batching.rs`: the decisions of the reading thread (batches of lines) and
    of the parsing threads (sending statistics every 20 batches).
- `app/` is the program: argument parsing, file reading, JSON parsing,
  threads and channels, floating-point rates, and the table rendering; it also
  holds the sample log generator (`--generate`).
- `tests/` runs the library on concrete values.
