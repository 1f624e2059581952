# translator

Online translation for an e-book reader, verified with Verus.

- `src/text.rs`: Unicode white space, `trim`, blank lines.
- `src/translator.rs`: the request address for a provider (the query cut to
  4096 bytes of UTF-8 at a character boundary, then percent-encoded), the
  reading of the provider's JSON reply, the transient failures, the
  description of a failure, and the mapping of a book's language to a provider code.
- `src/json.rs`: JSON documents as plain values, read with `serde_json`.
- `src/geom.rs`: points and rectangles.
- `src/view/translation.rs`: the HTML that shows a translation or a failure,
  what opening the view asks of its host, the worker's retry decision, the
  layout of the view, and the view's paging and event decisions.
- `app/`: the HTTP request (`ureq`), the worker thread, and the host that
  owns the document and carries out what the view asks.
