# evix

A Nix evaluation engine: it walks the attribute graph of a flake, a file or an inline expression
with a pool of local and remote workers, and reports each derivation, attrset and error as an event.

The library (`src/`) holds the rules, and Verus proves them:

- `command_line`, `args`, `one_shot`: what a command line asks for. `eval_line` proves that the
  line which evaluates a configuration is read back as that configuration.
- `scheduler`, `coordinator`, `collector`: the shared work queue and who works on what.
  `evaluation` proves what holds of whole runs: every attribute is answered, none is lost, and
  which events come out does not depend on which workers were asked.
- `worker`, `worker_config`, `worker_link`, `eval`: the conversation with a worker, and the event
  of an attribute.
- `state`, `session`, `watch`, `paths`: the warm derivation graph, queries and diffs, and what is
  watched for changes.
- `protocol`, `client`, `daemon`, `remote`: requests to the daemon and its answers.
- `json`, `json_value`, `serde_config`, `types`, `error`, `text`, `keyed_map`, `key_order`: the
  data.

Sockets, processes, threads and the Nix bindings are around it, in `app/`: one binary that is the
command line `evix`, the daemon `evixd` or the one-shot evaluator `evix-eval`, by the name it is
called by, and a worker in the processes that it spawns as workers.

Trusted are `serde_json` (reading and writing JSON, in `json_value`, with the words of its errors),
and of the standard library `String::push` (in `text`) and `String::from_utf8_lossy` (in
`worker`); the doc comment of each such item says what is taken for granted.
