# pact_models

Verified models and utilities of Pact documents: path expressions, header
values, matching rule definitions, JSON and XML values, and the decisions
made when binary and multipart bodies are matched and when a mock server
shuts down.

## Layout

- `src/` — the library, verified with Verus.
  - `text.rs` — characters, strings, decimal and hexadecimal numbers, UTF-8 offsets.
  - `path_exp.rs`, `path_laws.rs` — document path expressions: parsing, writing, matching.
  - `headers.rs` — splitting header values.
  - `expressions.rs`, `expression_laws.rs` — matching rule definitions and their merge.
  - `definition_lexer.rs`, `definition_spec.rs`, `definition_parser.rs`,
    `definition_report.rs`, `definition_laws.rs` — the matching rule definition
    language: its tokens, its grammar as a specification, the parser, and error reports.
  - `json_utils.rs`, `json_laws.rs` — JSON values: emptiness, deep merge, path resolution, numbers.
  - `xml_model.rs`, `xml_query.rs` — XML elements: text, grouping, namespaces, path resolution.
  - `binary_utils.rs`, `multipart.rs` — matching binary and MIME multipart bodies.
  - `mock_server.rs` — pact file location and the verification failure report.
  - `message_iterators.rs` — iterators over messages, provider states and metadata keys.
- `tests/` — tests of the library.
- `app/` — the parts that deal with `serde_json`, `kiss_xml`, `chrono`, `anyhow`
  and the environment, calling the library.

Where a tree of matches is built while resolving a path against a JSON or XML
value, the library keeps the tree as the sequences of labels on its paths
(`Paths`) rather than in an `indextree` arena of nodes.
