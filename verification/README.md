# spechurl

spechurl turns an OpenAPI 3.0 or 3.1 document into a directory of
[Hurl](https://hurl.dev) contract tests, one file per operation plus a
`README.md`, and checks that a committed suite still matches the document.

The library under `src/` is verified with Verus. Each step states what it
computes over mathematical models (`Seq`, `JsonV`, `DocumentV`, ...):

- `yaml`: `serde_yaml` parses the text; the parsed tree becomes the library's
  JSON model (`json`, `json_ops`: lookup, JSON pointers, compact and pretty
  printing).
- `decode`, `document`: the OpenAPI subset is checked and read, `$ref` chains
  are followed (with a termination measure in `refs`), parameters are merged
  and validated.
- `sample`: minimal JSON samples from schemas and media types.
- `render`: one Hurl file per operation, and the suite README.
- `suite`: the suite (sorted file map), generation from text or from a file's
  bytes, and the drift check over what the command line observed in a
  directory.
- `properties`: laws over all inputs, such as one file per operation, sorted
  unique file names, files ending in one newline and holding no carriage
  return, a matching directory passing the check, and line-ending
  normalization.

`app/main.rs` is the command line: argument parsing with `clap`, the file
system, and the `thiserror` form of the error type.
