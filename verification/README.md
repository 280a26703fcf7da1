# quant_2

A collector of Binance market data (top-5 order book snapshots and aggregated
trades) that appends them to date-partitioned CSV files, and an uploader that
ships finished files to an S3-compatible bucket and prunes old local copies.

- `src/` is the verified library (Verus):
  - `text.rs`: character-level text handling with specifications (substring
    search, suffixes, trimming, decimal integers).
  - `models.rs`: the stream records and the rows written to the files.
  - `collector.rs`: stream classification, depth and trade rows, WebSocket
    frame handling.
  - `writer.rs`: the buffering policy of the CSV writer as a state machine,
    with proofs that every row is written once and in order; file names.
  - `uploader.rs`: configuration, object keys, file dates, the set of files
    known to be in the bucket, and one synchronisation pass as a state
    machine, with proofs of what a pass never does.
- `app/` is the program around it: WebSocket and S3 I/O, JSON and CSV via
  serde, clocks, signals, logging, and the conversion of decimal texts to
  floating point. Run under the name `uploader` it is the uploader service.
- `tests/` exercise the library on concrete values.
