# rsledger

A plain-text accounting tool in the style of hledger: it keeps journals of
transactions and price directives, imports bank and broker CSV exports
(classifying rows with regular-expression rule sheets and skipping what the
journal already holds), and does all arithmetic with fixed-precision
decimals.

## Layout

- `src/` — the library, verified with Verus: decimals and commodity values,
  accounts, postings, transactions and their fingerprints, price directives,
  the journal text format (reading and writing), the CSV importers and the
  decisions of each command.
- `app/` — the command-line program around the library: argument parsing,
  files, the configuration file and the terminal I/O of the prompts.
- `tests/` — tests of the library on concrete values.

Calls into `chrono` (reading dates), `regex` (matching rules) and `csv`
(splitting an export into records) are made from the library through small
trusted wrappers whose contracts name their results; everything else in
`src/` is proved.
