# agentic_ssh

An SSH connection pool and MCP server that lets AI agents run commands on
remote hosts. The rules behind it are written in Verus and proved:

- `src/` — the verified library: configuration validation and merging
  (`config`), host boundaries (`access`), group expansion and target
  selection (`hosts`), command templates and shell quoting (`template`),
  custom tool calls (`custom`), parsers for `ss`/`netstat`, `/proc` and
  `ps` output (`parsers`, `search`), output abbreviation (`output`), the
  OpenSSH configuration lines (`sshconf`) and the host, port, user and
  keys an alias connects with (`sshhost`), the trust ledger (`security`),
  the update check (`update`), the pool's bookkeeping (`pool`), the watch
  session (`watch`), session-log housekeeping (`sizes`), the agent
  integrations' file edits (`agents`, `paths`, and the MCP server entry in
  their JSON files, `json`), and the JSON-RPC and
  command-line decisions (`rpc`, `cli`). `outside` holds the few calls into
  `glob`, `regex`, `sha2`, `ssh2-config` and std whose contracts are
  trusted.
- `tests/` — unit tests, including the laws checked on concrete values.
- `app/` — the `agentic_ssh` binary: argument parsing, file and network
  I/O, the russh connections, the terminal user interfaces and the agent
  configuration files. The decisions that can be stated over plain values
  (which hosts a call may reach, the commands it sends, the paths it
  writes) are made by the library; what stays in `app/` is the I/O around
  them, reading and writing JSON text (`serde_json`), and the
  floating-point load averages.
