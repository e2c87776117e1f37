# gguf

GGUF header reading, verified with Verus: typed metadata, the shape, format
and byte range of every tensor, and a writer whose output reads back as what
was written. A header is not a file: nothing here holds tensor bytes.

- `src/format.rs` states the header format as functions on bytes;
  `src/reader.rs` is the parser, proved to compute exactly `parse_spec`.
- `src/writer.rs` writes a file from parsed pieces, proved to produce
  `write_spec`; `src/roundtrip.rs` proves that parsing it gives back what was
  written.
- `src/laws.rs` proves that a header parsed from a prefix of a file is the
  header of the whole file, and that a refusal is final (reading more of the
  file gives the same refusal) unless it is a truncation or a count refused
  only because the bytes read so far could not hold it. `src/format.rs` also
  proves that a parsed header has the file's counts and keeps every tensor
  within the limits.
- `src/extent.rs` proves that parsing reads nothing past the header's own
  bytes: any input that begins with them parses to the same header.
- `GgufError::message` says what an error is in words (`src/text.rs` writes
  the numbers); `app/` displays it.
- `src/reading.rs` holds the decisions a reader of a file on disk makes: the
  header read doubles while the refusal is one that more bytes could lift,
  and stops at once on a final one.
- Metadata entries come in key order (by their UTF-8 bytes), each key once,
  whatever order the file gives them in: `src/order.rs` sorts them and proves
  the order. The writer takes them in that order. `src/format.rs` also proves
  that a header's tensors are the file's tensor records, in order.
- `app/` reads files, decodes floats through the block-format library, and
  displays errors.

What each tensor format tag means (values per block, bytes per block) is the
block-format library's to say; the parser takes it as a `DtypeTable`.
