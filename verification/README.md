# Solana ML-DSA

ML-DSA-44 signature verification (FIPS 204) for Solana programs, written in
Verus: the verification pipeline, its modular arithmetic, transforms,
encodings and samplers carry contracts that Verus proves against the
standard's definitions.

| Encoding | Bytes |
|---|---:|
| Public key | 1,312 |
| Prepared key | 20,544 |
| Signature | 2,420 |

## Layout

- `src/` — the verified library.
  - `ml_dsa_44.rs`: keys, signatures, prepared keys and the verification
    entry points (`verify`, `verify_with_context`, `verify_internal`,
    `verify_mu`), each stated exactly over the standard's verdict; the
    samplers read their XOF stream until it completes them, as far as one
    buffer (`isize::MAX` bytes) reaches.
  - `poly.rs`, `ntt.rs`, `reduce.rs`, `rounding.rs`, `codec.rs`,
    `sample.rs`: polynomial arithmetic (Plantard reduction, NTT and its
    inverse), `Decompose`/`UseHint`, hint and bit-packing codecs,
    `RejNTTPoly` and `SampleInBall`.
  - `shake.rs`: the calls into `sha3` (SHAKE128/256 and TurboSHAKE128/256),
    the only trusted code.
  - `laws.rs`: properties that relate operations, chiefly that a prepared
    key gives the same verdict as the public key it was prepared from.
- `tests/` — unit and differential tests (against `fips204` and PQClean).
- `app/` — an example Solana program that registers a key in prepared form
  and verifies signatures against it.

`verify` uses an empty context; `verify_with_context` accepts a context of
at most 255 bytes and otherwise returns `Error::ContextTooLong`. With
`TURBO = true` SHAKE is replaced by TurboSHAKE (domain `0x1f`); that variant
is not FIPS 204.
