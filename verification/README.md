# fulmen

Wire-level primitives, packets and connection logic of the Minecraft: Java Edition
protocol, written in Verus and proved against their contracts.

- `src/protocol/`: VarInts, big-endian numbers, booleans, UUIDs and length-prefixed
  strings (`varint`, `codec`), the `[length][id][body]` framing and the `Packet` trait
  (`packet`), and the handshake, status and login packets. Readers take `&mut &[u8]`,
  writers append to a `Vec<u8>`; every reader is specified by a parse function over byte
  sequences and every writer by an encoding function, and the roundtrip of each is proved.
- `src/net/`: framing with optional zlib compression (`framing`), offline-mode UUIDs
  (`offline`), and the decisions of the login, configuration and status conversations
  (`connection`, `status`).
- `app/`: the sockets, threads and clock around them (`Connection`, `ping`).
- `tests/`: tests of the library on concrete values.
