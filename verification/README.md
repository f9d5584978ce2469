# Local Code

A coding agent for local or cloud models (Ollama and OpenAI-compatible
servers), as a desktop application. The decisions of the agent and of the
application are a library verified with Verus; the window, the network, the
file system and the processes are ordinary Rust around it.

## Layout

- `src/` — the verified library `local_code_core`:
  - `text.rs`, `id.rs`, `json.rs`, `pattern.rs`: text, ids, and the calls
    into `serde_json` and `regex` behind specified wrappers.
  - `agent/`: the streaming filters for thinking blocks and fenced tool
    calls, the system prompt, and one turn of the agent loop (`turn.rs`).
  - `providers/`: what the streamed replies of Ollama and OpenAI-compatible
    servers mean, line splitting, and finding the configured provider.
  - `tools/`: the seven tools' argument checks and reports.
  - `config.rs`: merging the user's and the project's configuration.
  - `setup.rs`: the first-run wizard as a state machine.
  - `workspace.rs`, `app_state.rs`: projects, chats and the application's
    state, with one `update` per message that returns what to do.
  - `system/`: model size recommendation, reasoning-model detection, and
    the decisions around a local Ollama install.
- `tests/` — tests of the library.
- `app/` — the `iced` application: it performs the actions the library asks
  for (requests, files, processes, dialogs) and hands back the results.

Each law the library keeps (filters that do not depend on how a stream is
cut into chunks, configuration merging, the agent loop's bookkeeping) is a
proof function next to the code it is about.
