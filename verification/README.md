# dag_sync

The decisions behind data dissemination in a DAG-based consensus node, written in Rust and verified
with Verus.

- `header_waiter`: which headers and proposals wait for what, whom to ask for what is missing, which
  requests to repeat and which waits to call off. `waiter_model` holds its states and transitions,
  `waiter_laws` what holds of all of them.
- `helper`: how the request of another authority is answered from the store, step by step.
  `helper_laws` states what the whole answer is.
- `batch_maker`: how client transactions become batches, whom a batch goes to while an asynchronous
  network is simulated, and what is sent when that is over. `asynchrony` holds whom the simulated
  effects keep a node from, `partition` the two sides of one, `batch_laws` what holds of the batches.
- `primary_connector`: where the digests of batches go.
- `committee`, `digest_map`, `order`, `store_keys`, `encoding`, `numbers`, `types`: what these share.

Two functions of `encoding` are not verified but only described: they call `bincode::serialize` and
the SHA-512 of `ed25519_dalek`.

`app/` runs the tasks: it owns the channels, timers, the storage and the network, asks the library
what to do, and does it. The storage and the network themselves are traits in `app/ports.rs`.
