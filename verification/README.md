# readonly

A radar for a game client, in three programs: a reader that inspects the
game's memory (it only reads) and sends the current map and the players to
a relay server; the relay, which forwards what the authenticated reader
sends to every connected WebSocket viewer; and a probe that prints the
game's process id.

`src/` is the verified library (Verus): the decisions and computations of
the three programs, with their contracts. Parsing the overview's numbers as
`f32` stays outside it, since the library holds no floating point.

- `cstring` — decoding the NUL-terminated map name read from memory.
- `memory` — finding a loaded module among the process's memory regions;
  address arithmetic from module bases and entity pointers.
- `signatures` — the memory offsets used.
- `player` — team names, IEEE-754 equality of positions held as `f32` bit
  patterns, assembling a player.
- `overview` — the overview file's location and the fields read from it.
- `radar_map` — turning the radar image (DDS) upright and encoding it as
  JPEG, Base64 encoding and cutting the text into chunks small enough for
  WebSocket frames, with the proof that the chunks rejoin into the encoded
  image.
- `radar` — the reader's loop decisions: waiting for the process, waiting
  for a running game, when to send the map again.
- `relay` — the relay's state machine (authentication, WebSocket clients,
  forwarding), with its laws.
- `protocol` — the messages sent, and their order in each round.

`app/` holds the programs' I/O around the library: process and memory
access, file reads, float parsing, JSON, the network and timers. `cargo run` starts the reader; `server` and `pid` as
first argument start the relay and the probe.
