# agent-id

A portable identity registry for coding-agent sessions: each stable harness
session ID gets a permanent, human-readable name such as
`Spring Oak of Darkwood`, stored in a durable registry directory.

The rules of the registry are written in Verus and proved against their
contracts; the command-line program around them reads and writes the
registry's files.

## Layout

- `src/` — the verified library.
  - `text.rs`: whitespace, ASCII case, trimming, splitting and decimal
    rendering over `Seq<char>` models.
  - `hashing.rs`: SHA-256 (through `sha2`) and the indices derived from a
    digest.
  - `naming.rs`: session IDs, name components, slugs, canonical names and the
    slugs a lookup searches; the laws that a registered name is found by its
    canonical name and by its slug.
  - `names.rs`: the bundled first names, family names and realms.
  - `registry.rs`: assignments, the registry's layout, name allocation,
    claims, lookup plans, and where the session and realm come from.
  - `discovery.rs`: which assignments discovery lists and in which order,
    listing lines, and pruning.
  - `annotation.rs`: summaries, lifecycle states, working directories and
    extension metadata recorded on an assignment.
  - `activity.rs`, `timestamp.rs`, `cli.rs`, `prime.rs`, `error.rs`.
- `tests/` — tests of the library.
- `app/` — the `agent-id` program: `clap` parsing, the registry's files
  (atomic claims by hard link, atomic replacement by rename), JSON through
  `serde`, and output.
