# migrassist

The checking core of a payroll/attendance migration tool: it reads the CSV
files that the current system and the new (MJS) system export, matches their
records by key, compares chosen columns (exactly, or within a numeric
tolerance), and writes a summary CSV and a detail CSV of the differences.

- `src/` is the library, verified with Verus:
  - `text` — character-level helpers (whitespace, decimal text);
  - `values` — whether two field values agree within a tolerance and the
    text of their difference, asking a caller-supplied reader of numbers;
  - `csv_output` — CSV field quoting and lines;
  - `csv_reader` — decoding file bytes (Shift_JIS / UTF-8, through
    `encoding_rs`) and reading headers and records (through `csv`);
  - `comparison` — the key index, the record comparison, the summary and
    detail files, and the whole comparison run;
  - `commands` — the checks made before a command runs.
- `app/` is the desktop shell (Tauri commands, file I/O, JSON settings),
  and the comparison of values as doubles (`app/numbers.rs`), which the
  library cannot hold.
- `tests/` runs the library on concrete inputs.
