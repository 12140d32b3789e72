# cobol_to_rust

A COBOL-to-Rust conversion toolkit whose core is verified with Verus.

- `src/` is the verified library: the COBOL source analyzer (divisions, PIC clauses,
  data item hierarchy, procedure statements, COPY statements, `EXEC SQL` blocks, FD
  entries, REDEFINES, STRING/UNSTRING), the Rust code generators (decimal types,
  COMPUTE assignments, `sqlx` code, REDEFINES structs), the prompts sent to the language
  model and the extraction of code from its replies, the output comparator, the decisions
  of the compile-run-fix loop, the analysis report, and COBOL decimal truncation and
  rounding on `rust_decimal` values. Every public function states its result in its
  contract; laws that span functions are public proof functions named `lemma_*`.
- `app/` is the command-line program around it: file and network I/O, the HTTP client
  of the Messages API, `cargo`/`rustc`/`cobc` invocations, the JSON report, and the
  floating-point convergence tracker.
- `tests/` runs the library on concrete inputs.

The language model client talks to the Anthropic Messages API. The model identifier is
not built in: `convert` reads it from the `ANTHROPIC_MODEL` environment variable, beside
`ANTHROPIC_API_KEY`.

Case mapping follows Unicode (`str::to_uppercase`/`to_lowercase`) where a mapped text is
used as it is: PIC strings, Rust names, copybook file names, file extensions and column
names. Fixed-format columns are counted in bytes, as `str` slicing counts them. The
recognizers of keywords and names (`PROGRAM-ID`, `EXEC SQL`, COPY statements, data item
lines and the like) fold case and classify word and digit characters in ASCII; on ASCII
sources this is the same as Unicode folding and classes.
