# shellclaw

A Zsh autocomplete daemon that suggests the rest of a command line from local
command memory or a local language model, with its rules verified by Verus.

- `src/` is the verified library: the JSON-RPC message types, request
  validation, the per-session table of active requests (a newer request
  supersedes an older one), the memory fast path and the model-output rules
  that decide which suffix may be shown, the line fingerprint, deadlines,
  request framing, the configuration and `~/.zshrc` hook rules, and the pid
  file and process rules of the daemon's lifecycle.
- `app/` is the program around it: the command line, the Unix socket server,
  JSON encoding, SQLite storage and ranking, and llama.cpp inference.
- `tests/` exercises the library on concrete values.
