# incurs

The command line framework for humans and agents, verified with Verus.

A command is defined once. From that one definition come the command line with its
help, its output formats and its shell completions, the HTTP routes, the MCP tools, the
skill files and the Agent Plugins package.

## Layout

- `src/` is the library. It decides: what a command line asks for, how input is split
  and checked, what is shown of a result, which tools an MCP server lists, what a
  package holds and which parts of one are sound. Every function has a contract that
  Verus proves, over spec functions on sequences, maps and JSON values.
- `tests/` runs the library.
- `app/` is the outer side in ordinary Rust: files, processes, sockets and the terminal.
  It asks the outside, hands the library plain values, and carries out what the library
  decided.

## Modules

| Module | What it holds |
| --- | --- |
| `cli` | Built-in flags, the command tree, help pages, suggestions, reports |
| `command` | Command definitions, input modes, executions |
| `completions` | Shell completion scripts and candidates |
| `config` | Config files and the options in them |
| `filter` | Selection from output by paths |
| `http` | Routes, requests and answers |
| `mcp` | Tools, discovery, calls, results, remote servers |
| `agents` | Agents and the places of their skills |
| `agent_plugin` | Publishing and loading of packages |
| `agent_plugin_runtime`, `agent_plugin_sse` | Launching and reaching the servers of a package |
| `value`, `table`, `text`, `json`, `headers`, `address` | JSON values, tables, texts, headers and URLs |

## Trust

What an outside crate computes is called through small functions marked
`external_body`, each with a contract on what the crate gives: token encoding
(`tiktoken-rs`), URLs (`url`), header maps (`http`), YAML (`serde_yaml_ng`) and JSON
strings (`serde_json`). Laws that span functions are public proof functions whose names
begin with `law_`.
