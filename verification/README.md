# datalints

Data linters for tabular datasets: they flag numbers stored as strings, enums
stored as floating-point numbers, and columns of long free-text strings.

- `src/` is the library, verified with Verus:
  - `document.rs`: the in-memory batch (schema, string columns, floating-point
    columns held as `f64` bit patterns) and the `Document` the linters query;
  - `lints.rs` and `lints/`: the findings list, the two linter traits and the
    three linters;
  - `reader.rs`: the choice of a dataset file's format;
  - `text.rs`: decimal rendering used in the messages.
- `app/` is the command-line program: argument parsing, then memory-mapping
  the file and decoding it with `arrow_json` in the format the library chooses.
- `tests/` runs the library on concrete values.
