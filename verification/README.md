# vento_agent_runtime

Runs untrusted agents in sandboxes and turns documents into markdown.

The library under `src/` is verified with Verus:

- `types`, `protocol`, `agentd`: the values that travel, the paths a guest may touch, and
  what the agent inside a guest does with a request.
- `vm`: sandboxes, their lifecycle, snapshots and idempotency keys; `vm::laws` holds what is
  promised of them as a whole.
- `firecracker`: where a microVM's files lie, what is done on the host to make, start, save
  and recover it, and how its sockets are spoken to.
- `server`: who is let in over HTTP and what errors are answered.
- `file_parser`, `render`, `ocr`, `fractions`: conversion of files, the markdown writer, the
  image OCR pass and the PaddleOCR job protocol, and stacked fractions in PDF text.
- `document`, `http`, `json`: conversion of documents from memory, disk or the network, with
  OCR, vision and transcription providers.
- `text`, `table`: texts and small ordered maps.

The program under `app/` performs the input and output: the HTTP server, the agent's loop,
processes and sockets of the host, and the requests of the providers. Parsers of PDF and
office formats are plugged in through the traits in `app/engines.rs`.
