# Nausicaa

The deciding part of a local agent harness, verified with Verus. Authority stays outside the
prompt, side effects are explicit and recoverable, and product choices are optional.

- `src/` is the library: thread and turn protocol, capability projection, exact-action approval,
  durable receipts and recovery, context compilation, advisory memory, task acceptance, the task
  ledger, provider messages and streams, process supervision, the JSON-RPC control plane, the
  terminal interface's state, and paired evaluation. Every function states what it returns or
  changes, and the laws that span functions are public proof functions named `law_*`.
- `tests/` runs the library on concrete values.
- `app/` is the program around the library: files, processes, curl, the terminal and threads. It
  performs the actions that the library decides on and hands back what came of them.

The program takes `serve` for the control plane on standard input and output, `eval` for the
paired evaluation, and otherwise opens a terminal session. The evaluation reads its fixtures from
the directory in `NAUSICAA_EVAL_FIXTURES`.

What the library trusts of other code is small: reading, writing and comparing JSON with
`serde_json`, decoding UTF-8, character classes and case of the standard library, and its debug
form of strings. Each of these stands behind one declaration with a doc comment that says what is
claimed.
