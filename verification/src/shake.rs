//! The extendable-output functions of FIPS 202 that ML-DSA hashes with:
//! SHAKE128/256, and TurboSHAKE128/256 with domain byte `0x1f` for the
//! `TURBO` variant, from the `sha3` crate.
use vstd::prelude::*;
use sha3::digest::{ExtendableOutput, Update};

verus! {

/// The first `len` bytes of `SHAKE128(input)` (FIPS 202).
pub uninterp spec fn shake128(input: Seq<u8>, len: nat) -> Seq<u8>;

/// The first `len` bytes of `SHAKE256(input)` (FIPS 202).
pub uninterp spec fn shake256(input: Seq<u8>, len: nat) -> Seq<u8>;

/// The first `len` bytes of `TurboSHAKE128(input, 0x1f)` (RFC 9861).
pub uninterp spec fn turboshake128(input: Seq<u8>, len: nat) -> Seq<u8>;

/// The first `len` bytes of `TurboSHAKE256(input, 0x1f)` (RFC 9861).
pub uninterp spec fn turboshake256(input: Seq<u8>, len: nat) -> Seq<u8>;

/// `H128` of the variant: SHAKE128, or TurboSHAKE128 when `turbo`.
pub open spec fn xof128(turbo: bool, input: Seq<u8>, len: nat) -> Seq<u8> {
    if turbo { turboshake128(input, len) } else { shake128(input, len) }
}

/// `H` of the variant: SHAKE256, or TurboSHAKE256 when `turbo`.
pub open spec fn xof256(turbo: bool, input: Seq<u8>, len: nat) -> Seq<u8> {
    if turbo { turboshake256(input, len) } else { shake256(input, len) }
}

/// `sha3::Shake128::digest_xof`: the first `len` output bytes of SHAKE128
/// on `input`, for a buffer `vec!` can allocate. Trusted to be `shake128(input, len)`, and to be a prefix of
/// every longer output and to have every shorter output as its prefix, as
/// an extendable-output function does (FIPS 202 §6.2).
#[verifier::external_body]
fn shake128_xof(input: &[u8], len: usize) -> (out: Vec<u8>)
    requires
        len <= isize::MAX,
    ensures
        out@ == shake128(input@, len as nat),
        out@.len() == len,
        forall|m: nat| m <= len ==> #[trigger] shake128(input@, m) == out@.subrange(0, m as int),
        forall|n: nat| n >= len ==> out@ == #[trigger] shake128(input@, n).subrange(0, len as int),
        forall|n: nat| n >= len ==> #[trigger] shake128(input@, n).len() == n >= out@.len(),
{
    let mut out = vec![0u8; len];
    sha3::Shake128::digest_xof(input, &mut out);
    out
}

/// `sha3::Shake256::digest_xof`: the first `len` output bytes of SHAKE256
/// on `input`, trusted as for `shake128_xof`.
#[verifier::external_body]
fn shake256_xof(input: &[u8], len: usize) -> (out: Vec<u8>)
    requires
        len <= isize::MAX,
    ensures
        out@ == shake256(input@, len as nat),
        out@.len() == len,
        forall|m: nat| m <= len ==> #[trigger] shake256(input@, m) == out@.subrange(0, m as int),
        forall|n: nat| n >= len ==> out@ == #[trigger] shake256(input@, n).subrange(0, len as int),
        forall|n: nat| n >= len ==> #[trigger] shake256(input@, n).len() == n >= out@.len(),
{
    let mut out = vec![0u8; len];
    sha3::Shake256::digest_xof(input, &mut out);
    out
}

/// `sha3::TurboShake128` with domain byte `0x1f`: `update(input)`, then
/// `finalize_xof_into` a `len`-byte buffer. Trusted as for `shake128_xof`.
#[verifier::external_body]
fn turboshake128_xof(input: &[u8], len: usize) -> (out: Vec<u8>)
    requires
        len <= isize::MAX,
    ensures
        out@ == turboshake128(input@, len as nat),
        out@.len() == len,
        forall|m: nat| m <= len ==> #[trigger] turboshake128(input@, m) == out@.subrange(0, m as int),
        forall|n: nat| n >= len ==> out@ == #[trigger] turboshake128(input@, n).subrange(0, len as int),
        forall|n: nat| n >= len ==> #[trigger] turboshake128(input@, n).len() == n >= out@.len(),
{
    let mut out = vec![0u8; len];
    let mut h = sha3::TurboShake128::from_core(sha3::TurboShake128Core::new(0x1f));
    h.update(input);
    h.finalize_xof_into(&mut out);
    out
}

/// `sha3::TurboShake256` with domain byte `0x1f`, as `turboshake128_xof`.
#[verifier::external_body]
fn turboshake256_xof(input: &[u8], len: usize) -> (out: Vec<u8>)
    requires
        len <= isize::MAX,
    ensures
        out@ == turboshake256(input@, len as nat),
        out@.len() == len,
        forall|m: nat| m <= len ==> #[trigger] turboshake256(input@, m) == out@.subrange(0, m as int),
        forall|n: nat| n >= len ==> out@ == #[trigger] turboshake256(input@, n).subrange(0, len as int),
        forall|n: nat| n >= len ==> #[trigger] turboshake256(input@, n).len() == n >= out@.len(),
{
    let mut out = vec![0u8; len];
    let mut h = sha3::TurboShake256::from_core(sha3::TurboShake256Core::new(0x1f));
    h.update(input);
    h.finalize_xof_into(&mut out);
    out
}

/// `len` bytes of `H128` of the variant on `input`.
pub fn h128<const TURBO: bool>(input: &[u8], len: usize) -> (out: Vec<u8>)
    requires
        len <= isize::MAX,
    ensures
        out@ == xof128(TURBO, input@, len as nat),
        out@.len() == len,
        forall|m: nat| m <= len ==> #[trigger] xof128(TURBO, input@, m) == out@.subrange(0, m as int),
        forall|n: nat| n >= len ==> out@ == #[trigger] xof128(TURBO, input@, n).subrange(0, len as int),
        forall|n: nat| n >= len ==> #[trigger] xof128(TURBO, input@, n).len() == n >= out@.len(),
{
    if TURBO {
        turboshake128_xof(input, len)
    } else {
        shake128_xof(input, len)
    }
}

/// `len` bytes of `H` of the variant on `input`.
pub fn h256<const TURBO: bool>(input: &[u8], len: usize) -> (out: Vec<u8>)
    requires
        len <= isize::MAX,
    ensures
        out@ == xof256(TURBO, input@, len as nat),
        out@.len() == len,
        forall|m: nat| m <= len ==> #[trigger] xof256(TURBO, input@, m) == out@.subrange(0, m as int),
        forall|n: nat| n >= len ==> out@ == #[trigger] xof256(TURBO, input@, n).subrange(0, len as int),
        forall|n: nat| n >= len ==> #[trigger] xof256(TURBO, input@, n).len() == n >= out@.len(),
{
    if TURBO {
        turboshake256_xof(input, len)
    } else {
        shake256_xof(input, len)
    }
}

/// Appends `s` to `v`.
pub fn append(v: &mut Vec<u8>, s: &[u8])
    ensures
        final(v)@ == old(v)@ + s@,
{
    let mut i: usize = 0;
    while i < s.len()
        invariant
            i <= s.len(),
            v@ == old(v)@ + s@.subrange(0, i as int),
        decreases s.len() - i,
    {
        v.push(s[i]);
        i += 1;
        proof {
            assert(s@.subrange(0, i as int) == s@.subrange(0, i - 1) .push(s@[i - 1]));
        }
    }
    assert(s@.subrange(0, s@.len() as int) == s@);
}

} // verus!
