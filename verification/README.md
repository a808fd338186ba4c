# rdbg

A debugger for Rust programs that coding agents drive: breakpoints, run
control, variables, panic triage and navigation over a debug adapter
(`lldb-dap` or `codelldb`) and `rust-analyzer`, from a command line or an MCP
client.

The library in `src/` holds what the debugger decides, and Verus proves it:
each function states its result over mathematical values (texts as sequences
of characters, JSON as trees, a session as a record). The program in `app/`
holds the processes, sockets, files, threads and clocks around it.

## How the two meet

Nothing in `src/` waits for anything. Where a decision needs the outside, it
is a function of what came back so far, and gives either the next thing to do
or its outcome:

| from                   | to                                   | in          |
|------------------------|--------------------------------------|-------------|
| replies of the adapter | the next request, or a value         | `dap.rs`    |
| steps of a plan        | the next action, and the new session | `run.rs`    |
| outcomes of operations | the next operation, or a response    | `ops.rs`    |
| answers to the client  | the next want, or what it prints     | `wants.rs`  |

`app/` performs what is asked and calls again.

## Modules

- Text, numbers, JSON: `text`, `num`, `decimal`, `json`, `frame`
- Showing Rust: `render`, `predicate`, `stack`, `util`
- The session: `session`, `breaks`, `ids`, `state`, `inspect`, `locals`, `run`,
  `loops`
- The daemon: `ops`, `answer`, `daemon`
- The client: `wants`, `client`, `batch`, `report`, `cargo`, `launch`, `cli`
- The MCP server: `tools`, `mcp`
- Tools around it: `dap`, `lsp`, `places`
- An example program to debug: `rpncalc`

## What is trusted

`serde_json` reads and writes JSON text, behind the wrappers of `json.rs`. A few
functions of the standard library stand behind wrappers too: `{:?}` on a string
(`text.rs`), `Path::strip_prefix`, `Path::parent` and `str::hash`
(`util.rs`), `String::from_utf8` (`frame.rs`), `String::push` and
`char::is_lowercase` (`text.rs`). Each says in its doc comment what is believed
of it.
