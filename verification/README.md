# serial_tool

A generic serial / COM port tool: raw byte sessions over a transport, a linear step
runner (`SendText`, `SendBytes`, `Wait`, `Read`, `ReadUntil`, `Repeat`), a persistent
JSON Sequence format, a one-shot command line with machine-readable output, a Worker
with a local HTTP control plane, and the rules of a desktop front end.

## Layout

- `src/` is the library, written in Verus. Every function there carries a contract
  that Verus proves:
  - `config`, `error`, `transport`, `session`: line settings, errors, the transport
    trait with a deterministic simulation, and the session's shared RX buffer
    (`read`, `read_until` with its delimiter and limit rules). The session keeps a
    ghost record of every call it makes on its transport (what it handed over and
    what came back), and its contracts are stated over that record: each byte the
    transport's reads gave is handed to a caller once, in order, or stays buffered.
  - `step`: step IDs, tree validation, and the runner, whose results and transcript
    are stated against the schedule of the step tree.
  - `hex`, `text`, `json`: hex encoding and decoding, decimal and whitespace handling
    as std does it, and a small JSON value model.
  - `wire`, `document`, `sequence`: the strict Sequence schema, reading a document into
    a validated Sequence and writing one back, with the save-then-load law.
  - `cli`, `report`, `discovery`, `sequence_cli`: option checks and every output object
    and line of the command line tool.
  - `worker`, `http`: the Worker's command envelope, job slot and counters, events,
    status and responses, the control loop's decisions and exit codes, and HTTP
    request framing limits.
  - `desktop`: the desktop front end's inputs, the session owner's next move
    (`monitor_step`), which Sequences it runs (`run_request`), and run results.
  - `outside`: the trusted boundary, the few std calls whose contracts are assumed.
- `app/` is the program around it: argument parsing, serial ports, files, the clock,
  JSON text, the Worker's sockets and threads, and the desktop session owner.
- `tests/` exercises the library on concrete values.
