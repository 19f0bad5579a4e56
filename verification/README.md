# p2psocial

The verified core of a small peer-to-peer social node.

- `src/` is the library, checked by Verus: the wire events (`events`,
  `message`, `peer`), the newline framing of the byte stream and its reader
  (`pipe`), the reactions of a connection handler (`handler`), the receive loop
  of a connection (`connection`), the node's identity and start-up choice
  (`identity`), and a printable rendering of raw bytes (`escape`).
- `app/` is the program around it: the network endpoint, the async read and
  write loops, JSON (de)serialisation of the events and the command line.
- `tests/` runs the library on concrete inputs.
