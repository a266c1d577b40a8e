# snifake

The verified core of Snifake, a local forwarder that defeats SNI-based
filtering: for each connection it dials, it watches its own TCP handshake,
injects a fake TLS ClientHello carrying an innocuous SNI with a sequence
number just before the server's receive window, and relays the real stream
only once the server has acknowledged ISN+1 — proof that the fake was
ignored by the server but seen by any middlebox on the path.

- `src/` is the library, proved with Verus: packet parsing and building
  (`netpkt`, `checksum`), the kernel packet filter (`filter`) and the BPF
  batch format (`bpf`), the ClientHello (`hello`), the sniffer's decisions
  and connection table (`sniffer`), input validation (`validate`), the
  engine's command loop (`engine`), and the GUI's bookkeeping (`profiles`,
  `logbuf`, `engine_host`, `tray`, `auth`, `elevate`, `autostart`).
- `tests/` runs the library on concrete values.
- `app/` is the engine program around it: sockets, packet capture and
  injection, threads, randomness from the OS, the JSON encoding, and the
  GUI process's file and process handling.
