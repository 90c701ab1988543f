# seqex

The Sequential Exchange Protocol, or SEQEX: a lightweight, peer-to-peer transport protocol in which
every packet is received exactly once, SeqCst packets are received in order, and every packet can be
replied to.

- `src/` is the protocol, written in Verus. What each function does is stated in its contract, and
  what the protocol guarantees is stated and proved in `src/laws.rs`, `src/one_peer.rs`,
  `src/sync/laws.rs`, `src/sync/talk.rs`, `src/task/laws.rs` and `src/task/talk.rs`.
- `app/` puts the library to work: mutexes and condition variables around `sync`, tokio around
  `task`, and files, threads and clocks around the two small applications.
- `tests/` runs the library on concrete values, with wires that lose, duplicate and reorder packets.

Verus believes this about other people's code without proof: that `T::from` of a `T` returns its
argument, that `tokio::sync::oneshot::Sender::send` hands its message over or not, and that
`rand_core::OsRng` returns some number. Each of these stands in `src/` with a comment. Whoever
implements `TransportLayer` or `TokioLayer` is believed to do as those traits say.
