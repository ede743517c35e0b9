# cortex

A KV-cache aware gateway for GPU inference clusters (SGLang / vLLM). It keeps
a ledger of which worker holds which KV-cache block, fed by the engines'
KV-event streams, and routes each request to the worker that already holds
the longest prefix of its blocks, falling back to load-aware, power-of-two
and round-robin choices.

The library under `src/` is verified with Verus:

- `ledger/` — the block ledger (`RadixHashTree`) and per-worker state.
- `zmq/` — decoding of engine KV events and the sequence-checked
  synchronization gatekeeper (`KvEventProcessor`).
- `scheduler.rs` — the tiered worker selection.
- `session_ledger.rs` — agent sessions, epochs and sticky workers.
- `hasher/` — engine-compatible recursive page hashes, hash-config
  fingerprints, tokenization with semantic page anchors, and the tokenizer
  registry with its bounded cache.
- `gateway.rs` — request-path decisions: session affinity, the request
  lifecycle (slots and statuses), write-through of served prefixes, cluster
  summaries, response framing and telemetry.
- `json.rs` — JSON documents as plain values, with object edits.
- `metrics.rs`, `pd.rs`, `config.rs` — counters, prefill/decode session
  state, configuration.

`app/` holds the server (axum handlers, the ZMQ subscriber loops,
configuration loading); `tests/` the tests.
