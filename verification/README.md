# flint

The verified core of `flint`, a command-line client for chat-completion providers: the parts
of the program that decide, parse and frame, each with a contract that Verus proves.

## Layout

- `src/` — the library, verified with Verus.
  - `text` — characters and strings as the standard library reads them: trimming, lines,
    words, joining, decimal digits.
  - `args` — the command line, read flag by flag, and the rules between flags.
  - `patch` — reading a patch and applying its hunks to a file's lines.
  - `prompt` — what is typed at the prompt: commands, follow-ups, the repair prompt.
  - `json` — JSON values as plain data; reading and writing JSON text goes through
    `serde_json`.
  - `number` — the decimal text of a JSON number read exactly: order, whole numbers,
    counts, plain decimal.
  - `schema` — a subset of JSON Schema: which schemas are accepted, the problems of an
    answer, and the example shown to the model.
  - `shaping` — what an answer comes to under a schema: accepted, asked for again, or refused.
  - `event`, `provider` — the events of a turn and the wire form of a message; the body of a
    completion request; a provider's streamed answer; how a failure is classified, and the
    decision after each attempt (retry, give up, or stop because text was already shown).
  - `search` — the web-search backend a configuration resolves to, and its answers.
  - `ndjson` — the lines of the machine-readable stream, each the members of one object
    that `serde_json` writes on one line.
  - `run`, `settings` — the decisions around a run's I/O: exit codes, sessions, refusals,
    `/config set`, removing a provider.
  - `commands` — the command table that `/help` lists and a page is offered, what is
    shown back of a line that carries a credential, and the arguments of the switches
    (`/web`, `/readonly`, `/hear-peers`, `/detail`, `/thinking`).
  - `who` — which runs are in this directory and which elsewhere, and the `who --json`
    report.
- `tests/` — tests of the library on concrete values.
- `app/` — the program around the library: arguments, output, and running a command.
