# dview

A viewer for data files in the terminal: CSV and TSV in any common text encoding,
workbooks, and columnar files. The library is verified with Verus; the program
around it reads files and talks to the terminal.

- `src/text.rs`, `src/width.rs`: numbers and paddings as text, display widths.
- `src/dates.rs`, `src/values.rs`: the calendar, and the values that cells show.
- `src/encoding.rs`, `src/records.rs`: text encodings and delimited records.
- `src/csv_backend.rs`, `src/parquet_backend.rs`, `src/table.rs`: rows that are
  read by windows as they are asked for. A table tells what it wants read
  (`Fetch`), and takes the answer (`Reply`).
- `src/load.rs`: file formats, and how the contents of a file become tables.
- `src/viewport.rs`, `src/keys.rs`, `src/app.rs`: the cursor, the keys and the
  state of the viewer.
- `src/colors.rs`, `src/canvas.rs`, `src/ui.rs`: what the screen shows, cell by
  cell.
- `app/`: the program.
