# zeta9

A peer-to-peer relay network over UDP. A hub hands out relays; clients that
can be reached from outside serve as relays; every client sends what its
user types through a relay. Messages are signed with Ed25519, peers are
named by the SHA-256 digest of their verifying key, and each node keeps its
peers and messages in SQLite.

## Layout

- `src/` — the library, verified with Verus:
  - `text.rs`, `addr.rs`, `addr_parse.rs`: decimal and clock text, trimming,
    socket addresses and their text form (written and read back, with the
    proof that the text of an address reads back as the address);
  - `types.rs`: messages, peers, NAT types and the role a client takes;
  - `crypto.rs`: keys, signatures, peer identifiers and hex text;
  - `counter.rs`, `channel.rs`, `ack.rs`: message identifiers, one-shot
    signal channels and acknowledgement waits;
  - `peers.rs`: the table of known peers;
  - `node.rs`: what a relay and the hub do with each message;
  - `client.rs`: routing of received messages, typed lines, and the steps
    of finding a relay;
  - `records.rs`: the stored form of payloads and peers;
  - `display.rs`: the one-line text of a message;
  - `keys.rs`: the node's Lightning identity.
- `app/` — the program: sockets, STUN, SQLite, the command line and the
  task loops that carry out what the library decides.
- `tests/` — tests of the library.
