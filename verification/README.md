# mercury_cli

A verified library for a command-line tool that repairs code with the Mercury models, and the
tool itself.

`src/` is the library. Everything in it is checked by Verus: executable functions have
contracts over mathematical models of their values, and public proof functions named `law_*`
state what holds across functions.

- `text`, `sorting`, `score`, `json`: texts as sequences of characters, stable sorting, numbers
  by their order, and JSON values.
- `failure_parser`: verifier commands, and the failures that verifiers print.
- `repo`: paths that stay in the repository, symbols of Rust and TypeScript, the repository map.
- `api`: requests, answers, retries and costs of the services.
- `verification`: which verifier commands may run, masking of secrets, the tools that a model
  may call, and gathering what is known before a repair.
- `thermal`, `db`, `swarm`: scores of files, the rows that are stored, and the agents that work
  on files.
- `engine`: working out, verifying, ranking, settling and applying candidates.
- `cli`: configuration, events, status, and the `fix` and `watch` commands.
- `samples`: small functions that repairs are tried on.

Numbers with fractions appear in the library by their order (`Score`), as texts, or as whole
billionths of a dollar.

`app/` is the program around the library: arguments, files, the database, HTTP, processes and
what needs floating point. `tests/` runs the library on concrete values.
