# smolnet

The verified core of a small TCP/IP stack, written in Verus.

- `src/iface`: multicast group membership of an interface, the IGMP and MLD reports that it
  owes, and the laws that hold across joins, leaves, queries and egress passes.
- `src/tcp`: dynamic socket buffers charged to a shared memory pool, the SACK scoreboard, and
  the congestion controllers.
- `src/storage`: the ring buffer and the range assembler.
- `src/phy`: the records that packet filter devices hand out, and the decisions of the hosted
  device drivers.
- `src/wire`, `src/time.rs`, `src/rand.rs`, `src/config.rs`: addresses, messages, clock types,
  the generator and the table sizes.
- `app`: what talks to the operating system, and the floating-point curve of CUBIC.
- `tests`: tests of the library from outside.

Functions whose names start with `law_` state what holds of the library as a whole.
