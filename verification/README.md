# portafolio

The verified core of a Rust study portfolio, written in Verus, with a thin
program around it.

- `src/` is the library. Every function in it carries a contract that Verus
  proves: text utilities over `Seq<char>` (`texto`), word frequencies and
  their block-wise counting (`frecuencias`, `bloques`), a min-stack
  (`pila`), a `clave = valor` configuration parser (`config`), line search
  helpers (`busqueda`), a memoising calculator (`memo`), the logic of a
  search/replace tool (`textkit`), a retry policy and a worker's steps
  (`reintentos`), the decisions of a task REST API (`tareas`), an
  educational proof-of-work chain over SHA-256 (`blockchain`), sensor-log
  entries (`sensores`), measuring instruments (`instrumentos`), shared
  state for the concurrency lessons (`registro`) and small lesson items
  (`fundamentos`, `lecciones`).
- The public proof functions named `ley_*` state the properties that hold
  across calls: counting a text in blocks of lines gives the count of the
  whole text, a new chain is valid, tampering with a block is caught unless
  SHA-256 collides, pushing and popping the stack, and so on.
- `app/` is ordinary Rust: the `textkit` command line (clap, walkdir, file
  I/O), the chain demo (clock, JSON), the task API server (axum, sqlx,
  tokio), threads, async tasks and the floating-point lessons.
- `tests/` runs the library on concrete values.

The only outside code that the proofs rely on is named in `src/`: the
SHA-256 digest (`sha2`), `str::to_lowercase` and `String::push`.
