# bsl_extension

The verified core of an index of 1C:Enterprise configurations. It decides what gets into
the index; reading dumps and writing tables is left to the application.

- `src/terms` turns the name of a procedure, its owner, its description and the header of
  its module into business terms.
- `src/xml` takes queries out of data composition schemas, and event handlers, references
  and queries out of managed forms. The pull parser is `quick_xml`.
- `src/index_extras` decides which files of a dump count and which rows come of them.
- `src/json.rs`, `src/text.rs` and `src/unicode.rs` hold what the others share.
- `app` walks a dump, reads its files and writes the rows to SQLite.

Contracts speak of models: texts are sequences of characters, and the parsers are state
machines over a run of steps. What comes from outside has a name and nothing more is said
of it than its documentation or source shows: Unicode tables, the steps of the XML parser,
JSON text, decompression. The public proof functions whose names begin with `law_` state
what holds of the library as a whole.
