# p2p_chat

A local peer-to-peer messenger with end-to-end encryption: peers find each
other on the LAN (mDNS) or are dialed by address, exchange key bundles, set up
Olm sessions (vodozemac) and send texts and files through them.

Layout:

- `src/` — the verified library (Verus). The engine is a state machine: each
  handler takes one event and returns the effects to carry out (events for the
  interface, wire messages, payloads to encode or decode, files to read or
  save). Alongside it: chunking and reassembly of files, the parsers of
  addresses and commands, the paths of the data directory, the terminal
  interface state, its key handling and what its screens show, and the
  headless line protocol. Each public function has a contract; laws that
  relate several calls are public proof functions (`law_*`).
- `app/` — the program around it: command line, files, the libp2p swarm, the
  terminal (ratatui, crossterm), serialisation (MessagePack, CBOR, TOML).
- `tests/` — tests of the library, with the real outside crates linked.
