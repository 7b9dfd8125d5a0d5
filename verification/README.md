# sessionrpc

GPU-session-aware, bidirectional streaming RPC between clients and stateful
inference fleets, written in Verus: the protocol core is specified with
`requires` / `ensures` contracts and proved.

## Layout

- `src/` — the verified library.
  - `ids`, `frame`, `payload`: identifiers, the frame envelope, and the
    `bytes::Bytes` payloads it carries.
  - `wire`: `FrameCodec`, the binary wire format (58-byte header, payload,
    optional trace-context section), with the proof that decoding undoes
    encoding.
  - `flow`: per-stream byte credit.
  - `session`: the session registry — affinity, reconnects, lease refreshes
    and per-stream sequence cursors.
  - `gpu`, `scheduler`: leases and the `GpuScheduler` trait, with a
    round-robin `StaticGpuScheduler`.
  - `router`: `SessionRouter`, which opens, resumes and refreshes sessions
    through a scheduler and validates, meters and traces inbound frames.
  - `metering`, `telemetry`: the metering and tracing hooks and their
    in-memory implementations.
  - `k8s`: sticky route tables for Kubernetes backends.
  - `ffi`, `transport`: the computing side of the C binding and of the
    transport conformance exchange.
- `tests/`: tests of the library.
- `app/`: the parts that do I/O — the C binding's pointer handling, the
  in-memory and QUIC transports, and the error type with its messages.
