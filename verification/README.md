# libp2p_dandelion

A modified Dandelion protocol for private broadcasting in a peer-to-peer network. A message first
travels along a stem, from one peer to the next, and then, at a moment that chance decides, turns
to fluff and spreads to many.

The library under `src/` is verified with Verus. It holds what a node keeps and decides:

- `pending`, `dandelion`: the messages that wait, and which of them are due
- `spread`, `selection`, `propagation`: how many peers a message goes to, and which
- `codec`, `message`: the records in the store and their bytes, by `bincode`
- `validation`: what is reported and published from the queue
- `connect`, `address`: an attempt to connect, step by step
- `command`: the lines that a user types
- `peer`, `message_id`, `bytes`: identifiers, topics and byte strings
- `node`: all of it as one node
- `laws`: what holds of the node as a whole

Calls into `libp2p`, `bincode`, `rand` and the hasher of the standard library stand in functions
marked `#[verifier::external_body]`. Their contracts are believed, not proved; the comment above
each says what it claims.

`app/` is the program around the library: the swarm, the store, the clock, standard input, and the
draw of a floating-point number that decides between stem and fluff.
