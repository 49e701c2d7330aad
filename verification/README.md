# omp-deck

A small CLI that serves a web dashboard of the live `omp` collab sessions on
this machine, so you can open any of them from your phone.

- `src/` is the library, verified with Verus: which address to listen on, what
  the pages and tables say, what each request is answered, which checkouts are
  listed, which sessions are announced to Discord and when.
- `app/` is the program around it: command line, `omp` processes, HTTP server,
  webhook calls, config file and directory walks.
- `tests/` runs the library.

```sh
omp-deck serve [--bind ADDR:PORT] [--discord-webhook URL] [--config FILE]
omp-deck list [--json]
omp-deck self-update [--yes] [--check]
```

There is no authentication: the tailnet is the boundary. Without `--bind` the
server listens on this machine's Tailscale IPv4 address, else on `127.0.0.1`,
never on `0.0.0.0`.
