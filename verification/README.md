# pubsub

A small publish/subscribe broker with a line protocol, written in Verus.

- `src/cmd_parse/` parses a line of the protocol (`PUB`, `SUB`, `UNSUB`,
  `PSUB`, `PUNSUB`, `PUBSUB CHANS`, `PUBSUB NUMSUB`) into a `Command`; the
  parser is proved equal to `spec_parse`, a specification over character
  sequences, and `text.rs` holds the specifications of trimming, splitting and
  whitespace that it rests on.
- `src/broker/` keeps the channels and their subscribers; every operation is
  specified over `BrokerModel`, a map from channel names to sets of client ids.
- `src/table.rs` and `src/queue.rs` declare the `dashmap` collections and the
  `tokio` queues that the broker uses, with the contracts of the calls made
  into them.
- `src/server.rs` decides what the server does with one line from a client.
- `app/` is the TCP server: it reads frames, sends the messages of a publish
  concurrently, and writes answers back.
