# charter

The Steward's Charter invariants as a Verus-verified Rust library.

- `src/scar.rs`: the append-only, hash-chained scar log (record, heal, open
  wounds, chain verification) and its laws: recording keeps the chain valid,
  healing closes exactly the healed wound, a forged link or a tampered log
  exhibits a BLAKE3 collision.
- `src/canonical.rs`: the canonical bytes a content id hashes (compact JSON of
  `(parent, scar)`), with the proof that distinct links have distinct bytes.
- `src/digest.rs`: the trusted BLAKE3 calls and the hex text of a digest.
- `src/refusal.rs`: declinable decisions; a refusal is recorded as a scar.
- `src/novice.rs`: fresh-eyes review of consequential decisions.
- `src/tether.rs`: trust-modulated autonomy; high stakes always defer.
- `src/reach.rs`: the boundary where the system defers to human intent.
- `app/`: serde/thiserror copies of the record types and the JSON load/store
  of a scar log.
- `tests/`: executable tests of the library.
