# assistant_core

The headless core of an assistant chat, verified with Verus.

- `src/model.rs`: threads, messages, parts, tool calls, permission requests and the
  events a runtime streams, with their mathematical models.
- `src/thread.rs`: the reducer that folds events into a thread, and its laws
  (well-formedness is kept, messages are never lost, text deltas coalesce).
- `src/runtime.rs`: the echo runtime and the OpenAI-compatible configuration.
- `src/protocol.rs`, `src/mapping.rs`: Agent Client Protocol updates as plain values,
  and the per-session turn that maps them onto events.
- `src/session.rs`: the bookkeeping of an ACP connection: sessions, turns, parked
  permission and terminal requests, and session approvals of command lines.
- `src/terminal.rs`: the byte-bounded output buffer of a terminal.
- `src/controller.rs`, `src/view.rs`: what sending and cancelling do to a thread, and
  what the views show of it.
- `app/`: the host: streaming runtimes, the ACP connection loop, the processes behind
  terminals, serde forms of the model, and GPUI views.
