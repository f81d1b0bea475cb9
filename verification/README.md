# parity_tracker

Turns one-shot cross-backend parity results into a build-over-build coverage
series and a regression tripwire.  Each parity verdict is recorded against a
server build id in an append-only JSONL history; coverage divides the verified
cells of a build by a fixed corpus denominator; a delta between two builds
flags every measure that went from verified to mismatch.

The library is written in Verus: its functions carry contracts that state
what they compute, and the properties the tool relies on are proved as
lemmas.

## Layout

```
src/
  lib.rs       module list and re-exports
  history.rs   the history schema (HistoryEntry, PairRecord, ParsedVerdict, Timestamp)
  corpus.rs    the parity-corpus.v1 denominator (Corpus, CorpusCase)
  store.rs     input shapes and their normalisation into history entries
  digest.rs    the content digest of an entry (SHA-256 of canonical JSON)
  jsonl.rs     framing of the JSONL history bytes into numbered, decoded lines
  summary.rs   coverage_summary, delta_summary, recorded_builds, delta_exit_code
  render.rs    the text layout of the human-readable coverage and delta reports
  text.rs      string order, stable insertion sort, de-duplication
  laws.rs      properties across calls: skipped runs and retried records
               count for nothing, the latest evidence wins, determinism, ...
app/
  main.rs      the parity-tracker CLI (record / coverage / delta / regressions);
               it prints the coverage headline, whose percentage is a float
  store_io.rs  reading and appending the history file
  wire.rs      serde forms of the library types, and the coverage percentage
tests/         tests of the library
```

## Trusted calls

The library calls outside code through a few functions whose contracts are
assumed: `serde_json::to_string` on a string (JSON string literals in the
digest payload, whose escaping is stated in full), `sha2::Sha256::digest`
(its result is named, not described), `hex::encode`, the system clock read
through `std::time::SystemTime::now` and chrono's `DateTime<Utc>::from`,
`std::str::from_utf8` (decoding one history line), and `String::push`.  Each
is documented where it is declared.
