# sapling_components

Verified encoding and decoding of the Sapling parts of Zcash transactions, written in
Verus.

- `src/sapling.rs`: spend and output descriptions, their fields, and their v4 and v5
  encodings; every field is checked as the consensus rules ask (value commitments are
  canonical Jubjub points not of small order, anchors and note commitments are canonical
  field elements, validating keys are canonical Jubjub points).
- `src/bundle.rs`: the Sapling components of v4 transactions and the Sapling bundle of v5
  transactions, with the round-trip and canonical-encoding laws.
- `src/encoding.rs`: fixed-size fields, CompactSize prefixes (through `zcash_encoding`) and
  sequences of items.
- `src/amount.rs`: value balances in `-MAX_MONEY..=MAX_MONEY`.
- `src/curves.rs`: value commitments, validating keys, note commitments and field
  elements, each a type whose invariant is the check made through `jubjub` or
  `bls12_381` when it is built.
- `src/fees.rs`: the single-output change strategy for the standard fee rules.
- `app/`: `std::io` adapters and the conversion of errors to `io::Error`.
