# vsock_packet

Vsock packets on top of virtio descriptor chains, verified with Verus.

- `src/` is the library. `VsockPacket` is the packet; `from_tx_virtq_head` and
  `from_rx_virtq_head` take one from a descriptor chain over memory-mapped guest memory, and
  `commit_hdr` and `commit_buf` write one back.
- A `GuestChain`, a `Translator` and a `GuestWriter` stand between a packet and the guest. For the
  proofs they keep a log of what goes through them, and keep what they give access to private to
  `src/guest.rs`.
- The taking apart of a chain is done by `TxAssembly` and `RxAssembly`, which ask for one thing at
  a time (a descriptor, some bytes of guest memory) and work with any source of answers.
- `src/outcome.rs` says in one piece what a chain amounts to; `src/tx_laws.rs` and
  `src/rx_laws.rs` prove that the assemblies find just that.
- What is taken on trust of byteorder, virtio-queue and vm-memory is in `src/le.rs` and
  `src/guest.rs`, above the function that makes the call.
- `app/` runs the assemblies on guest memory of any kind.
