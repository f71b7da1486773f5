# inferra

A toolkit for inspecting and running local GGUF language models, with its
logic written in Verus and proved against its contracts.

- `src/` — the verified library:
  - `gguf_header` — the 24-byte GGUF header (magic, version, counts).
  - `metadata`, `composition` — typed metadata values, how each is shown,
    and what a GGUF file is made of: byte regions, metadata sorted by key,
    tensors largest first, chat template, special tokens, KV-cache estimate.
  - `gguf_layout` — a walk over a whole file's layout that checks every
    declared length, the array nesting and the alignment before it is parsed.
  - `gguf_parse` — a whole file's bytes parsed with candle's GGUF reader and
    turned into the library's own metadata values and tensor descriptors,
    then composed.
  - `vocab` — decoding vocabulary entries: the byte-level BPE alphabet
    (`gpt2`) and SentencePiece word boundaries (`llama`).
  - `stream` — the event protocol of a streamed generation as a state
    machine, with the protocol proved for every input sequence.
  - `chat`, `bridge` — chat messages, errors, prompt validation and the
    wire shape of streamed events.
  - `hub`, `cache` — the search query, shaping Hugging Face Hub answers, and
    the TTL cache.
  - `embedding` — which vocabulary rows an embedding view shows.
  - `order`, `text` — lexicographic order, a stable sort, string primitives.
- `app/` — the command line, file and network I/O, the embedded engine
  adapter, the desktop commands, and the floating-point work (sampling
  options, throughput figures, similarities, PCA).
- `tests/` — tests of the library.
