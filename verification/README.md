# ustad

A parser for UTAU Sequence Text (`.ust`) files, written in Verus. The
structure of a file is read over bytes, so lyrics and paths in any encoding
are kept as they are; decoding to text is a separate step through
`encoding_rs`.

Layout of `src/`:

- `ast.rs`: the syntax tree (`Ust`, `Block`, `Field`, ...) and its model,
  in which borrowed byte slices become `Seq<u8>`.
- `model.rs`: what parsing means, as spec functions over the model.
- `parse.rs`: `parse_bytes` and `parse_str`, proved to compute `model`.
- `query.rs`: lookups by key and typed field values.
- `charset.rs`: `Charset=` detection and decoding.
- `bytes.rs`, `number.rs`, `lines.rs`: ASCII trimming and case folding,
  decimal numbers, line splitting.
- `laws.rs`: properties of the format: CRLF is read as LF, a BOM changes
  nothing, every non-empty line is kept in order, and so on.

`app/` holds what stays outside the verified library: floating-point tempo
values and error types with `Display`.
