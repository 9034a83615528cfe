# csv_compare

A library that compares two delimited text files (CSV and its relatives) and
reports how they differ, verified with Verus.

- `src/parser`: encoding detection (byte-order marks, UTF-8, a statistical
  guess), delimiter detection, decoding, and a record reader with header and
  field-count checks.
- `src/compare`: key-based comparison (records paired by a composite key, with
  empty, incomplete and duplicate keys reported) and row-by-row comparison
  (records paired by position, columns by header name); `laws.rs` holds the
  properties proved of both, `column_order.rs` those on rearranged columns.
- `src/excel`: the contents of the exported workbook, sheet by sheet, and the
  workbook writer, with the limits within which a workbook is built.
- `src/commands`: inspecting a file's encoding, delimiter and header.
- `src/progress.rs`: the progress callback the comparisons report to.
- `app/`: the commands of the desktop front end: file access, background work,
  serializable copies of the models.
- `tests/`: scenarios run against the compiled library.
