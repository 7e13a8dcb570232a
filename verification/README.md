# dcql-plus-to-sparql-rs

DCQL+ (the Digital Credentials Query Language with cross-credential links,
claim filters and aggregates) and its translation into SPARQL 1.1 SELECT
queries, written in Verus.

Layout:

- `src/` — the verified library.
  - `model/` — the query types; `checked` applies the checks made after a
    query is read (non-empty credentials, well-formed and unique ids, links
    to existing credentials and claims).
  - `sparql/builder.rs` — the SELECT query builder, specified by the text
    that `build` renders.
  - `sparql/translator.rs` — the translation, specified by the query parts
    that it hands to the builder.
  - `validation/` — the one-pass validator with its findings, and the
    check that a text parses as SPARQL (through `spargebra`).
  - `text.rs` — decimal rendering, quoting, joining and line splitting.
- `tests/` — tests on concrete queries.
- `app/` — JSON reading and writing with serde, and `std::error::Error`
  forms of the errors.
