# backtrackd

The daemon of a backup application for desktop Linux, built on Borg: what it
decides, proved with Verus.

`src/` holds the decisions as plain functions and state machines, each with its
contract:

- `time`, `calendar`, `text`, `paths` — points in time, dates, and text;
- `engine`, `jobs` — what an engine says, and the table of jobs: who may hold the
  repository, what ends a run, and how often progress is reported;
- `pipeline` — a backup from its archive to the catalogue, archive names, local
  backups into the spool and as filesystem snapshots;
- `offline`, `snapshot`, `reachability`, `preflight`, `schedule` — when a backup
  runs, and what protects changes while the destination is away;
- `restore`, `service`, `background`, `notify`, `daemon` — what clients ask for and
  hear, settings, health, and the order in which the daemon starts;
- `demo` — a scripted history, and the pictures in it.

A long operation is a state machine. It hands out an order, such as "read the next
item", and is handed a report on it. `app/` carries the orders out: it asks the
bus, the disk and the engine, and puts what they answer into the library's terms.

The laws that hold across several operations are the public proof functions beside
them. What is taken on trust from `std` and from the `toml` crate is marked
`external_body` or `assume_specification`, with a comment that says what is claimed.
