# data_workbench

A tabular data workbench: import CSV, JSON and Excel files, clean and reshape
the tables step by step with undo and redo, check their quality, join them,
align several sources on object keys and time, and export the results.

## Layout

- `src/` — the library, verified with Verus. Every public function states
  what it returns in its contract, over the spec functions and views of its
  module; the public `lemma_*` proof functions state properties that hold
  across calls (undo after record, sorted output is stable, filters split a
  table, joins keep the promised rows, sample pages list distinct rows, ...).
  Calls into chrono, csv, encoding_rs, serde_json and std that the library cannot verify
  go through small wrappers whose contracts are documented where they stand.
- `app/` — the command-line program around the library: file and process
  I/O, spreadsheet reading, serde records, and the steps that compute with
  floating-point numbers (numeric transforms, evaluating the postfix form of
  expressions that the library parses, rolling and
  running statistics, comparisons of adjacent rows, sorting by float columns,
  fusion scoring and interpolation, missing rates). The library checks such a
  step's names and columns first and answers `FloatArithmetic`; the program
  then computes it.
- `tests/` — tests of the library on concrete values.

## Running

```
data_workbench [--replay TEMPLATE] [--csv OUT] [--json OUT] [--report OUT] [--save-template OUT] FILE...
```

imports the files, prints each dataset's shape, key and time hints and the
findings of the selected one, and writes the requested exports.
