# appz-wsl-mcp

An MCP server for managing WSL distributions, split into a verified library
and a thin program around it.

- `src/` is the library, written in Verus.  Every function carries a contract
  that Verus proves: the command policy, the `.wslconfig` reader and writer,
  path translation between Windows and WSL, bearer-key authentication, the
  parsers for what `wsl.exe`, tmux, `ls`, `grep`, `find`, `stat`, `ps`, `df`
  and friends print, file editing, task planning, the tool registry and the
  request routing.  Proof functions named `lemma_*` state the library's laws,
  for example that a written `.wslconfig` reads back as written, that a
  Windows path survives the trip to WSL form and back, and that every listed
  tool is routed.
- `app/` is the program: command line, configuration file, stdio and HTTP
  transports, and the process and file I/O that the library's functions
  decide about.
- `tests/` runs the library on concrete inputs.
