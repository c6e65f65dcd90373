# learner

A library for managing academic papers and other resources: templates and
resource configurations that validate what is stored, retrievers that turn
API responses (XML or JSON) into resources, a configuration registry, the SQL
behind the paper database, PDF text extraction, and requests to an Ollama
server.

The library in `src/` is written in Verus: each function states what it does
in its contract, and Verus proves the code against it. Calls into outside
crates (`regex`, `chrono`, `quick-xml`, `url`) go through small trusted
wrappers whose contracts name what those crates compute.

- `src/json.rs`, `src/keyed.rs` — JSON values and key-ordered entries, with
  the laws of putting and getting.
- `src/template.rs`, `src/resource/` — validation of items against templates
  and resource configurations.
- `src/retriever/` — paths into documents, field mappings, response cleaning,
  XML to JSON, identifier extraction.
- `src/configuration.rs`, `src/record.rs` — the registry of resource types,
  record extensions and retrievers.
- `src/database/` — queries, removals and additions: their SQL, the ordering
  of results, and the conversion of rows.
- `src/pdf.rs`, `src/llm.rs`, `src/environment.rs`, `src/datetime.rs`,
  `src/text.rs`, `src/pattern.rs`, `src/error.rs`.

`app/` holds what runs around the library: reading configuration files,
SQLite, HTTP, PDF files, serde types, and the floating-point number rules of
validation. `tests/` exercises the library.
