# chatserver

A small chat system: a server that keeps a registry of connected clients and
chat rooms, and a terminal client that shows the chat and lets its user type.
Both speak one binary wire format.

The library under `src/` holds the logic, with contracts proved by Verus:

- `common`: the wire format. Every value has an encoding (`PacketCodec`),
  packets are framed by their length, and a reader cuts the bytes of a
  connection into packets. Reading an encoding gives the value back.
- `server`: the registry of clients and rooms and the answers the server gives
  to requests; an older framing of client messages, kept beside it.
- `client`: the terminal geometry, the widgets that lay out and draw styled
  text, the connection handler's state, the chat's screen state, and the
  commands a redraw sends to the terminal.

`app/` is the program around the library: sockets, tasks, the terminal through
crossterm, and the command line. `tests/` runs the library on concrete values.
