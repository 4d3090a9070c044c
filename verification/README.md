# Pavi

Pavi is a native desktop explorer for Parquet files with a bounded query
pipeline over Arrow batches. Its logic is a library whose behaviour is stated in
contracts and proved by Verus; the window, the files, the threads and the
floating-point arithmetic are ordinary Rust around it.

## Layout

```text
src/    the verified library
tests/  what the library does on concrete datasets
app/    the desktop window, the command line and the measurements
```

| Modules of `src/` | What they hold |
| --- | --- |
| `schema`, `metadata`, `page`, `projection`, `batch`, `cells`, `nested` | columns, row groups, pages and batches of rows |
| `filter`, `order`, `sort`, `sorted`, `window`, `reads` | which rows pass, in which order, and which part of them is read |
| `scalar`, `accumulate`, `groups`, `collector`, `counting`, `output`, `aggregate` | aggregates and groups within a budget |
| `cache`, `source`, `grid_pages` | pages that are kept |
| `sql_words`, `sql_tree`, `sql_reader`, `sql`, `logical`, `planner`, `prepared` | from a query text to a checked plan |
| `execution`, `progress`, `runtime`, `results` | running a plan step by step |
| `chart`, `profile`, `export`, `clipboard` | what is made of the rows of a result |
| `explorer`, `queries`, `requests`, `copying` | the window as a whole: opening datasets, starting and ending work, copying cells |
| `state`, `navigation`, `layouts`, `panels`, `inspector`, `labels`, `messages`, `value`, `table`, `times`, `spacing` | what the user sees and selects |
| `session`, `session_laws`, `paths` | what is remembered between two runs |
| `text`, `seqs` | texts and sequences |

Parsing SQL, sorting keys and working on record batches is left to `sqlparser`,
`arrow-ord`, `arrow-select` and `arrow-array`; the contracts that are trusted of
them stand beside the functions that make the calls.

A floating-point number is held by its bits. Where two of them are added, divided
or compared, the caller passes the operation in.
