# dvadva

The logic of a coding agent and its clients, written in Verus: what the agent's
tools do, how it talks to a model, how its turns and slash commands go, what its
clients make of what it says, and how a pair of daemons carries it across a network.

Every function states in `requires` and `ensures` what it takes and gives, over
sequences of characters and other mathematical values, and Verus proves it. What
holds of several functions together is stated in the proof functions whose names
begin with `law_`.

## Layout

- `src/` is the verified library.
  - Text and data: `text`, `json`, `pattern` (regular expressions and globs),
    `order` (of paths), `headers`.
  - The tools: `edit`, `salvage` (arguments out of malformed JSON), `write`, `read`,
    `grep`, `shell`, `tasks`, `kaos` (the index of files, undo, snapshots), `search`,
    `subagent`, `tool`.
  - The agent: `soul` (turns, slash commands, retries, forks), `flow`, `prompt`,
    `chat`, `openai`, `metadata`, `environment`.
  - The clients: `wire`, `client`, `transcript`, `session`, `hub`, `render`, `tui`,
    `theme`, `launch`.
  - The daemons: `proto`, `config`, `remote`, `listing`.
- `app/` is ordinary Rust round it: sockets, processes, files, the terminal, HTTP.
- `tests/` runs the library on concrete values.

What other crates compute (`serde_json`, `bytes`, `regex`, `globset`, `ignore`,
`similar`, `md5`, `uuid`, `rand`, `reqwest`) is called through small functions whose
contracts are believed. Each says in its comment which function it calls and what it
claims of it.
