# tcp

A TCP (RFC 9293) codec, verified with Verus: the fixed header, options,
whole segments, the IPv6 pseudo-header and the RFC 1071 checksum, with
`make` and `check` for IPv6 segments.

Layout of `src/`:

- `wire.rs`: big-endian numbers as byte strings (`be_value`, `be_bytes`) and
  the readers and writers the codecs share.
- `ones_complement.rs`: `checksum` and `Checksum`, specified by the sum of the
  16-bit words and its end-around-carry fold.
- `header.rs`: `Header` and its 20 bytes (`header_bytes`, `header_of`).
- `option.rs` and `option/`: the kind/length/data framing and one module per
  option kind.
- `segment.rs`: header, options and payload together.
- `v6.rs` and `v6/segment.rs`: the IPv6 pseudo-header, `make` and `check`.

Each function's contract states its result over these specifications; the
`lemma_*` proof functions state the round trips between readers and writers,
that a segment built by `make` passes `check` and parses back, and that a
checksum appended to its data verifies.
