# pdf_ast

Verified building blocks of a toolkit that parses PDF documents into an abstract syntax
tree for security analysis.

- `src/` is the library, verified with Verus: every public function states what it returns
  in its `ensures`, and the properties that relate several functions are proof functions
  (their names start with `lemma_`).
- `tests/` runs the library on concrete values.
- `app/` holds what cannot be verified: readers over files, the loops that read a file or
  a cross-reference table chunk by chunk, progress tracking shared between threads,
  progress reports and processing rates computed in floating point, and the linearization
  version check (a real number).
