# agent_loop

Subscribes to webhook events (smee.io event streams), filters them through
regular expressions and WebAssembly policies, hands the matching ones to a
local coding agent together with a base prompt, and reports the result to the
console or to a WebAssembly reporter. A bridge client talks to cc-connect over
WebSocket for the GUI flavour.

Layout:

- `src/` — the verified library: event stream parsing (`sse`), event and
  JSON handling (`event`, `json`), filter decisions (`filter`, `mention`,
  `security`), the policy output frame (`frame`), prompt and result handling
  (`exec`, `report`, `reporter`), configuration (`config`), the bridge
  protocol and its client decisions (`bridge`, `protocol`, `client`,
  `service`), and the GUI's list and form logic (`gui`). Each public function
  states its behaviour in `requires`/`ensures`, except where the result is
  the clock's, a random identifier or the shared connection state (an atomic
  byte Verus cannot look into); their doc comments say so. The laws that
  relate several functions are the public `law_*` proof functions.
- `app/` — the program around it: command line, file and network I/O, the
  async loops, the WebAssembly host and the egui front end.
- `tests/` — tests of the library on concrete values.

The local agent command-line tool that runs a prompt is named by the
`AGENT_CLI` environment variable.
