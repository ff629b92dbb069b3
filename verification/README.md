# storm

The core of the Storm messaging client, written in Verus with contracts that
are proved.

- `src/command.rs` — the command language of the prompt (`parse_cmd`).
- `src/session.rs` — what the command line does with each line, before and
  after login, given the user's profile.
- `src/profile.rs` — the in-memory profile: groups (a `bimap`), contacts and
  shared groups (a `bisetmap`).
- `src/connector.rs` — the bookkeeping of peers being connected to, and the
  worker's hand-back queue.
- `src/transport.rs` — a device's key pair, roles and stream numbers of
  transport connections, and the root key agreement.
- `src/rendezvous.rs` — the onion services two peers derive from their
  shared stream key.
- `src/tor.rs` — Tor's configuration, its output, and control commands.
- `src/text.rs` — character-level text functions with exact models.
- `src/frontend.rs`, `src/stub.rs` — the mobile front end's entry points over
  a registry of accounts and their groups, and a sync client that accepts
  everything.

`app/` holds the program around the library: reading the terminal, the
SQLite database, the Tor process and the network.
