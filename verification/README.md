# mserver

The protocol side of a small Minecraft server, verified with Verus.

`src/` is the library:

- `leb` — signed LEB128 (`leb128` crate) and the byte count of unsigned LEB128
  (`varint-simd` crate), with their specifications and the proof that reading
  back a written number gives the number.
- `mserialize` — the `MSerialize` trait: big-endian integers, booleans,
  length-prefixed strings, vectors (concatenation) and options.
- `varint`, `mstring`, `muuid` — the protocol's `VarInt`, `MString` and `Muuid`.
- `mpacket` — packet framing (`Packet::new`, `Packet::send_packet`) and reading
  fields from a packet body through a cursor; proofs that frames, strings,
  big-endian numbers and UUIDs read back as written.
- `client` — the connection state (`Client`, `StateClient`, `ClientInfo`) and
  the table that picks the handler for a packet.
- `handlers` — one function per packet handler, `Client::process_packet`, and
  the proof that a connection only moves along the protocol's state changes.

`app/` is the server program: sockets, the client loop, the status JSON
(`serde_json`), and entering play (`bevy_ecs` world, floating-point position).
