# tiled

Data model and reading logic for maps made with the Tiled editor, written in
Verus. The functions under `src/` carry contracts that Verus proves, except a
few small wrappers (marked `#[verifier::external_body]`) around `hashbrown`,
`quick-xml`, `xml-rs` and the standard library, whose contracts are trusted.

- `src/` — the verified library: colours, property values and property lists,
  Wang IDs, GID decoding and tileset lookup, layers and objects, the reading
  of a document's bytes into XML events (with `quick-xml` or `xml-rs`), and
  the scanning of those events for the document's root element.
- `tests/` — tests that run the library on concrete values.
- `app/` — plain Rust around the library: reading files and handing their
  bytes to the library, and reading the floating-point values that the
  library keeps as bits or text.

The library never touches a file or a float itself; it works on bytes, XML
events, strings and integers, so what it decides can be stated and proved.
