# storage_node

The rules by which a node of a peer-to-peer file store answers its clients and its peers.

A client uploads the metadata of an entry, signed with a secp256k1 key, and then the files of the
entry. The node keeps each file under the hash of its content and stores the entry in a Kademlia
DHT. A client that signs a location gets the items of an entry there, or its files.

- `src/` decides: it is verified with Verus. `put`, `get` and `download` say what to do with each
  message of a call; `event_loop` says what to do with each event of the network; `location` and
  `resolve` read locations; `keys` and `request` check keys, signatures and metadata.
- `app/` acts: it runs the gRPC service and the event loop, touches the disk and the network, and
  does what `src/` says.
- `tests/` runs the library with the real crates.

What is trusted is what the wrappers in `keys`, `request` and `location` say of the crates
`secp256k1`, `tonic` and `libp2p`; each says it in its doc comment.
