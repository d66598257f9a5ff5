# eddsa

EdDSA signatures over the Jubjub curve (`ark-ed-on-bls12-381`), verified with
Verus.

- `src/bytes.rs`: byte strings as integers, the clamping rule and its range.
- `src/field.rs`: scalar and base field elements as canonical bytes, and the
  `ark-ff`, `ark-serialize` and `num-bigint` calls on them.
- `src/curve.rs`: affine points, the curve equation, and the `ark-ec` group
  operations.
- `src/hash.rs`: BLAKE3 key expansion.
- `src/keys.rs`: keys, signing, verification and the compressed encodings.
- `src/laws.rs`: properties of the scheme as a whole.
- `app/`: the Poseidon challenge hash, generic key generation, zeroizing key
  bytes and `eyre` errors.

The challenge `c = H(tag, R, Pk, m)` is computed by the caller from
`challenge_input`, and passed to `sign` and `verify`.
