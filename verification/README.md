# collab

Messages, tasks and presence for workers that share a server, and the harness that turns a
command-line tool into such a worker. The rules are a verified library; the programs around it
read, send and draw.

## Layout

- `src/` is the library. Every function states in `ensures` what it returns or changes, and Verus
  proves it.
  - `server` and the modules below it: names, tokens, authentication, messages, presence, leases,
    tasks, teams and usage, each as a table with operations.
  - `worker` and the modules below it: batches, tiers, prompts, the command that is spawned, the
    answer that is read, and what a turn sends to whom.
  - `client`, `report`: what a client keeps, finds and prints.
  - `team`, `team_init`, `team_cli`, `init`, `manifest`, `lifecycle`, `config`: manifests,
    generated files, processes and settings.
  - `monitor`: the state of the terminal monitor and what is drawn of it.
  - `text`, `paths`, `clock`, `sorting`, `table`: what the others are written with.
  - `outside`: the calls into other crates, with the contracts that are taken on trust.
- `tests/` runs the library on concrete values.
- `app/` is ordinary Rust: `collab` and `collab-server` (one program, told apart by its name), the
  database, HTTP, files, processes and the terminal.

## Laws

Besides the contracts, the library states laws as public proof functions: that teams do not see
each other's messages, tasks, presence or usage; that a fresh lease protects its holder and a
silent one is taken over; that tasks close once; that nobody is contacted twice in a turn; that
self-started work is capped; that chunks of a stream do not matter; that every accepted manifest is
sound; that tokens and secrets are not printed; and others beside the functions they speak of.

## Settings

`COLLAB_SERVER`, `COLLAB_INSTANCE`, `COLLAB_TOKEN` and `COLLAB_ADMIN_TOKEN` are read from flags,
the environment, the nearest `.env` and `.collab.toml`, in this order. A worker calls the tool named
by `--tool` or `COLLAB_CLI`, unless its manifest has a `cli_template`; in a template, `{agent}` stands
for a tool that is still to be named.
