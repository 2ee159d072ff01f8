# small_apps

Verified cores of five small programs, with the programs themselves.

- `src/` — the library, verified with Verus:
  - `blockchain`: proof-of-work chain (block headers as JSON, SHA-256,
    least-nonce mining, chain linkage), with `clock` for the mining time and
    `text` for hexadecimal, decimal and JSON string helpers;
  - `snake`, `game`, `draw`: the grid snake game's rules;
  - `sniffer`: the port scanner's command line, port sharing and ordering;
  - `chat`: the fixed-size message frames of the chat server and client.
- `tests/` — tests of the library.
- `app/` — the programs: `blockchain`, `chat-server`, `chat-client`,
  `sniffer <ip> [threads]` and `snake`, which do the terminal, network and
  window work and hold the floating-point values.
