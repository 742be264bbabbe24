# analytics

Collects analytics events into batches and hands each batch on for export once
it is large, full or old enough. The library in `src/` is verified with Verus.

- `src/lib.rs`: events, collectors and the `Analytics` handle.
- `src/batcher/`: the byte buffer, the batch under construction, the decisions
  of the background task (`worker.rs`), the event queue (`collector.rs`), the
  rows of a Parquet file, and in `laws.rs` what holds of the task as a whole.
  Whatever fails, no batch contains more events than its limit, and no event
  that a writer took is repeated or reordered. Where nothing fails, no event is
  lost, and none waits for longer than the time threshold and the check
  interval.
- `src/geoip.rs`: country and continent of an address, from a MaxMind database.
- `src/time.rs`: timestamps and their text.
- `app/`: the background task itself, exporters, Parquet encoding and the
  download of the database.

Calls into `chrono`, `maxminddb`, `bytes`, `parquet` and `tokio` stand behind
small functions marked `external_body`. The comment above each says what is
believed of the call.

The databases that are read can come from anywhere, so `maxminddb` is used in a
version that answers malformed bytes with an error.
