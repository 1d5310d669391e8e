# tinyflows

A workflow engine's logic, with its behaviour stated as contracts and proved by
Verus: graphs and their validation, node execution, agents and approvals, the
import of n8n workflows, and the adaptive loop that plans an attempt at a goal,
runs it, judges it and learns from it.

- `src/` is the verified library. Its modules hold plain values: what needs a
  network, a disk, a clock or a model is a step that the library asks for, and
  the reply is handed back to the function named in that step.
- `tests/` runs the library on concrete values.
- `app/` is ordinary Rust around it: database backends, capability traits and
  their stand-ins, the loops that perform the steps, and the serialised forms.

What is trusted rather than proved stands in `src/json_text.rs` (reading and
printing JSON with `serde_json`) and `src/text.rs` (appending a character to a
`String`, comparing two `str`, and `Debug` formatting of a text).
