//! Hint decoding (FIPS 204 Algorithm 21): the checks that make the encoding
//! unique, then a bitmap per polynomial.
use vstd::prelude::*;
use crate::params::{K, OMEGA, POLYVECH_PACKEDBYTES};

verus! {

/// The count that opens polynomial `i`'s index list: the previous count,
/// or 0 for the first polynomial.
pub open spec fn hint_start(h: Seq<u8>, i: int) -> int {
    if i == 0 { 0 } else { h[80 + i - 1] as int }
}

/// Polynomial `i`'s indices strictly increase.
pub open spec fn segment_increasing(h: Seq<u8>, i: int) -> bool {
    forall|j: int| hint_start(h, i) < j < h[80 + i] ==> #[trigger] h[j - 1] < h[j]
}

/// FIPS 204 Algorithm 21's conditions on an 84-byte hint block: the counts
/// `h[80..84]` never decrease and stay at most `ω = 80`, each polynomial's
/// indices strictly increase, and the unused index bytes are zero.
pub open spec fn hints_well_formed(h: Seq<u8>) -> bool {
    &&& forall|i: int| 0 <= i < 4 ==> hint_start(h, i) <= #[trigger] h[80 + i] <= 80
    &&& forall|i: int| 0 <= i < 4 ==> #[trigger] segment_increasing(h, i)
    &&& forall|j: int| h[83] <= j < 80 ==> #[trigger] h[j] == 0
}

/// Validates the 84-byte hint block and returns the cumulative index counts
/// per polynomial, or `None` for a malformed encoding.
pub fn hint_counts(hints: &[u8; POLYVECH_PACKEDBYTES]) -> (r: Option<[u8; K]>)
    ensures
        r is Some <==> hints_well_formed(hints@),
        r matches Some(c) ==> c@ == hints@.subrange(80, 84),
{
    let mut counts = [0u8; K];
    let mut k = 0usize;
    let mut i = 0usize;
    while i < K
        invariant
            0 <= i <= 4,
            k == hint_start(hints@, i as int),
            hints@.len() == 84,
            forall|i2: int| 0 <= i2 < i ==> hint_start(hints@, i2) <= #[trigger] hints@[80 + i2] <= 80,
            forall|i2: int| 0 <= i2 < i ==> #[trigger] segment_increasing(hints@, i2),
            forall|i2: int| 0 <= i2 < i ==> #[trigger] counts@[i2] == hints@[80 + i2],
            counts@.len() == 4,
        decreases K - i,
    {
        let end = hints[OMEGA + i] as usize;
        if end < k || end > OMEGA {
            assert(!(hint_start(hints@, i as int) <= hints@[80 + i as int] <= 80));
            return None;
        }
        let mut j = k;
        while j < end
            invariant
                k <= j <= end <= 80,
                hints@.len() == 84,
                i < 4,
                k == hint_start(hints@, i as int),
                end == hints@[80 + i as int],
                forall|j2: int| k < j2 < j ==> #[trigger] hints@[j2 - 1] < hints@[j2],
            decreases end - j,
        {
            if j > k && hints[j] <= hints[j - 1] {
                assert(!hints_well_formed(hints@)) by {
                    assert(hint_start(hints@, i as int) < j < hints@[80 + i as int]);
                    assert(!(hints@[j - 1] < hints@[j as int]));
                    assert(!segment_increasing(hints@, i as int));
                }
                return None;
            }
            j += 1;
        }
        counts[i] = end as u8;
        k = end;
        i += 1;
        assert(segment_increasing(hints@, i - 1));
    }
    assert(k == hints@[83]);
    assert(k <= 80) by {
        assert(hint_start(hints@, 3) <= hints@[80 + 3int] <= 80);
    }
    let mut p = k;
    while p < OMEGA
        invariant
            k <= p <= 80,
            k == hints@[83],
            hints@.len() == 84,
            forall|j: int| k <= j < p ==> #[trigger] hints@[j] == 0,
        decreases OMEGA - p,
    {
        if hints[p] != 0 {
            return None;
        }
        p += 1;
    }
    assert forall|t: int| 0 <= t < 4 implies counts@[t] == hints@.subrange(80, 84)[t] by {
        assert(counts@[t] == hints@[80 + t]);
    }
    assert(counts@ =~= hints@.subrange(80, 84));
    Some(counts)
}

/// Bit `k` of a 256-bit map held in four little-endian words.
pub open spec fn bit_set(bits: Seq<u64>, k: int) -> bool {
    (bits[k / 64] >> ((k % 64) as u64)) & 1 == 1
}

/// Setting bit `n` of a word leaves the others.
proof fn lemma_set_bit(w: u64, n: u64, m: u64)
    requires
        n < 64,
        m < 64,
    ensures
        ((w | (1u64 << n)) >> m) & 1 == 1 <==> (m == n || (w >> m) & 1 == 1),
{
    assert(((w | (1u64 << n)) >> m) & 1 == 1 <==> (m == n || (w >> m) & 1 == 1)) by (bit_vector)
        requires n < 64, m < 64;
}

/// The hint bits of polynomial `i` as a 256-bit map: bit `k` is set exactly
/// when `k` is among the indices `h[start..counts[i]]` of that polynomial.
pub fn hint_bitmap(hints: &[u8; POLYVECH_PACKEDBYTES], counts: &[u8; K], i: usize) -> (bits: [u64; 4])
    requires
        i < 4,
        (if i == 0 { 0 } else { counts[i - 1] as int }) <= counts[i as int] <= 84,
    ensures
        forall|k: int| 0 <= k < 256 ==> (bit_set(bits@, k) <==> exists|j: int|
            (if i == 0 { 0 } else { counts[i - 1] as int }) <= j < counts[i as int] && #[trigger] hints@[j] == k),
{
    let start: usize = if i == 0 { 0 } else { counts[i - 1] as usize };
    let end = counts[i] as usize;
    let mut bits = [0u64; 4];
    proof {
        assert forall|k: int| 0 <= k < 256 implies !bit_set(bits@, k) by {
            let w = bits@[k / 64];
            assert(w == 0);
            let m = (k % 64) as u64;
            assert((0u64 >> m) & 1 == 0) by (bit_vector);
        }
    }
    let mut j = start;
    while j < end
        invariant
            start <= j <= end <= 84,
            forall|k: int| 0 <= k < 256 ==> (bit_set(bits@, k) <==> exists|j2: int|
                start <= j2 < j && #[trigger] hints@[j2] == k),
        decreases end - j,
    {
        let idx = hints[j];
        let ghost old_bits = bits@;
        let word = (idx / 64) as usize;
        let n = (idx % 64) as u64;
        bits[word] = bits[word] | (1u64 << n);
        proof {
            assert forall|k: int| 0 <= k < 256 implies (bit_set(bits@, k) <==> exists|j2: int|
                start <= j2 < j + 1 && #[trigger] hints@[j2] == k) by {
                let m = (k % 64) as u64;
                let old_has = exists|j2: int| start <= j2 < j && #[trigger] hints@[j2] == k;
                assert(bit_set(old_bits, k) <==> old_has);
                if k / 64 == word as int {
                    lemma_set_bit(old_bits[word as int], n, m);
                    assert(bit_set(bits@, k) <==> (m == n || bit_set(old_bits, k)));
                    assert(m == n <==> k == idx);
                } else {
                    assert(bits@[k / 64] == old_bits[k / 64]);
                    assert(k != idx);
                }
                assert(bit_set(bits@, k) <==> (k == idx || old_has));
                if bit_set(bits@, k) {
                    if k == idx {
                        assert(hints@[j as int] == k);
                    } else {
                        let j2 = choose|j2: int| start <= j2 < j && #[trigger] hints@[j2] == k;
                        assert(start <= j2 < j + 1 && hints@[j2] == k);
                    }
                } else {
                    if exists|j2: int| start <= j2 < j + 1 && #[trigger] hints@[j2] == k {
                        let j2 = choose|j2: int| start <= j2 < j + 1 && #[trigger] hints@[j2] == k;
                        if j2 == j {
                            assert(k == idx);
                        } else {
                            assert(old_has);
                        }
                    }
                }
            }
        }
        j += 1;
    }
    bits
}

} // verus!
