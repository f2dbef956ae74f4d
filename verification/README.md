# holo

The packets and the state of routing protocols, in Rust that is verified by
[Verus](https://github.com/verus-lang/verus): what the functions do is stated in
their contracts, and proved.

- `src/isis/packet`: IS-IS PDUs and their TLVs. What is sent is received
  (`pdu::lemma_pdu_parse_wire`), a packet that lost its end is refused, the
  checksum of an encoded LSP is valid, and TLVs are split and chunked without
  loss.
- `src/isis/instance`, `src/isis/southbound`: when an IS-IS instance starts and
  stops, when LSPs are originated, and how it follows the interfaces of the
  system. The instance asks for what has to happen elsewhere by way of `Action`
  and `Event` values.
- `src/igmp`, `src/ldp`, `src/rip`: the IGMP instance, LDP interfaces, and the
  routes that RIP hands to the system.
- `src/utils`: buffers, addresses, ordered sets of networks, clocks, and the
  messages on the bus.
- `app`: channels, tasks and sockets around the library, and the types in which
  PDUs are stored.
- `tests`: the library at work on concrete values.

What is taken for granted of other crates stands in `utils/buf.rs` (`bytes`),
`utils/net.rs` (`ipnetwork`), `utils/clock.rs` (`chrono` and the standard
library's clock) and `isis/packet/checksum.rs` (`fletcher`), with a comment on
each claim.
