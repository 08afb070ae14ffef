# luoda

The networking decisions of a remote-desktop peer, written in Rust and proved
with Verus: how it finds other peers on the local network, how it stays
registered with rendezvous servers, and how it answers requests for a
connection.

`src/` is the verified library. It holds no sockets, timers or settings: it
takes what happened as plain values and says what to do.

- `text`, `addr`, `addr_text`, `addr_laws`: text, internet addresses, their
  grammar, and proofs that what is written is read back.
- `adapter`, `lan_peer`: network adapters and known peers.
- `direct_access`: which local address to announce, and which hosts to try for
  a peer.
- `sweep`, `lan`, `replies`, `discovery_laws`, `wake`: discovery on the local
  network and wake-up datagrams.
- `direct_server`: the listener for direct connections and its port mapping.
- `rendezvous_transport`, `registration`, `rendezvous_mediator`: registering
  over UDP and TCP, and what a server's messages ask for.
- `hole_punching`: the way to a peer, directly, through routers or through a
  relay.

`app/` runs the decisions: sockets, threads, timers, and the interfaces through
which the rest of the program gives settings, message encoding and connections.

Times are nanoseconds of a clock that does not go back, unless said otherwise.
