# ferrum_kv

The protocol core of FerrumKV, a small Redis-flavoured key-value server,
written in Verus and proved against its contracts.

- `src/protocol/encoder.rs` — RESP2/RESP3 reply encoders. Each appends exactly
  one frame to the buffer; the module also proves that frames read back
  exactly (bulk strings are binary safe, integers and headers round-trip,
  simple strings and errors are one line, a null bulk is never a bulk
  string).
- `src/protocol/decimal.rs` — decimal rendering of integers.
- `src/protocol/parser.rs` — the inline command parser (`parse`) and
  `format_response`, with laws on trimming, splitting and case-insensitive
  command names.
- `src/error.rs` — `FerrumError`.
- `src/network/monitor.rs` — the MONITOR fan-out registry over tokio
  unbounded channels.
- `app/` — the binary: the shared (`Arc<Mutex<..>>`) registry handle, the
  floating-point `encode_double`, and `main`.
