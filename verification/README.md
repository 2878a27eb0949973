# oqqwall

Verified building blocks of a QQ-wall submission pipeline: the append-only
journal and snapshot records, the review shortcut language, the thank-you
filter, the QQ Zone request/response handling and send batching, and the
pure parts of post rendering (the layout of a post, its forwarded chats and
JSON cards, line wrapping, inline emoji/face atoms, QR mask scoring,
pagination, the image cache).

Layout:

- `src/` — the library, written in Verus; every public function carries a
  contract, and the laws that relate several functions are public proof
  functions (`lemma_*`).
- `tests/` — ordinary Rust tests on concrete values.
- `app/` — the unverified shell: files, sockets, HTTP, image re-encoding with
  floating-point sizes, and the QR canvas.
