# spread

A viewer for CSV, Parquet and XLSX spreadsheets, whose logic is verified with
[Verus](https://github.com/verus-lang/verus).

- `src/` is the library. Everything a sheet is made of is worked out here: reading
  records, XML parts and record batches into cells; styles, number formats and
  merged cells; references and addresses; copying, listing and auditing; the plan
  that the formula engine is told; which rows and columns are in view, what is
  selected and dragged, and what the windows do next. Each function states in its
  contract what it returns.
- `app/` is the program around it: arguments, files, windows, and the sums and
  quotients of floating-point lengths and numbers. The library holds such numbers by
  their bit patterns.
- `tests/` runs the library on concrete sheets, with the crates it calls.

Calls into other crates (`csv`, `zip`, `quick-xml`, `calamine`, `arrow`, and
`formualizer-workbook`) stand in small functions marked `external_body`, whose
comments say what is taken for granted.

## Modules

| Modules | What they hold |
| --- | --- |
| `text`, `numbers`, `escape`, `lines` | texts, numerals, entities and line breaks |
| `range`, `references`, `namebox` | cells, ranges and their addresses |
| `cell`, `formats`, `sheet`, `merges`, `workbook`, `export` | sheets and what they are turned into |
| `csv_source`, `cache`, `parquet_source`, `batch` | sheets whose rows are read on demand |
| `xml`, `attributes`, `archive`, `styles`, `metadata`, `package`, `pairs`, `limits`, `opening`, `compound`, `grid`, `display`, `errors` | XLSX packages |
| `formulas`, `engine`, `audit` | formulas and their values |
| `pixels`, `layout`, `appearance`, `viewer` | the view of a sheet |
| `cli`, `shell`, `urls`, `plist` | the program |
