//! Sampling from an XOF stream: `RejNTTPoly` (FIPS 204 Algorithm 30) and
//! `SampleInBall` (Algorithm 29), as functions of the stream's bytes.
use vstd::prelude::*;
use crate::params::Q;

verus! {

/// The longest prefix of an XOF stream that can be read into one buffer:
/// `isize::MAX` bytes. The samplers read the stream this far at most; a
/// prefix of this length holds what `RejNTTPoly` and `SampleInBall` need
/// with overwhelming probability (each needs a few blocks), and once a
/// prefix completes sampling every longer one gives the same result.
pub open spec fn stream_limit() -> nat {
    isize::MAX as nat
}

/// The 23-bit candidate from the three bytes at `pos` (FIPS 204
/// Algorithm 14, `CoeffFromThreeBytes`, before its bound check).
pub open spec fn rej_candidate(s: Seq<u8>, pos: int) -> int {
    (s[pos] + 256 * s[pos + 1] + 65536 * s[pos + 2]) % 8388608
}

/// `RejNTTPoly` from position `pos` with the coefficients `acc` accepted so
/// far: candidates below `Q` are accepted until there are 256 of them or
/// the stream ends.
pub open spec fn rej_sample(s: Seq<u8>, pos: int, acc: Seq<int>) -> Seq<int>
    decreases s.len() - pos,
{
    if acc.len() >= 256 || pos < 0 || pos + 3 > s.len() {
        acc
    } else {
        let t = rej_candidate(s, pos);
        rej_sample(s, pos + 3, if t < Q { acc.push(t) } else { acc })
    }
}

/// The coefficients `RejNTTPoly` accepts from a stream.
pub open spec fn rej_ntt(s: Seq<u8>) -> Seq<int> {
    rej_sample(s, 0, Seq::empty())
}

/// Sampling only ever accepts standard representatives, at most 256.
pub proof fn lemma_rej_sample_range(s: Seq<u8>, pos: int, acc: Seq<int>)
    requires
        acc.len() <= 256,
        forall|k: int| 0 <= k < acc.len() ==> 0 <= #[trigger] acc[k] < Q,
    ensures
        rej_sample(s, pos, acc).len() <= 256,
        acc.len() <= rej_sample(s, pos, acc).len(),
        forall|k: int| 0 <= k < acc.len() ==> #[trigger] rej_sample(s, pos, acc)[k] == acc[k],
        forall|k: int| 0 <= k < rej_sample(s, pos, acc).len() ==> 0 <= #[trigger] rej_sample(s, pos, acc)[k] < Q,
    decreases s.len() - pos,
{
    if acc.len() >= 256 || pos < 0 || pos + 3 > s.len() {
    } else {
        let t = rej_candidate(s, pos);
        let acc2 = if t < Q { acc.push(t) } else { acc };
        lemma_rej_sample_range(s, pos + 3, acc2);
    }
}

/// Once sampling completes on a stream, a longer stream with the same
/// prefix gives the same coefficients: the result does not depend on how
/// far the stream was read.
pub proof fn lemma_rej_sample_prefix(s1: Seq<u8>, s2: Seq<u8>, pos: int, acc: Seq<int>)
    requires
        s1.len() <= s2.len(),
        forall|i: int| 0 <= i < s1.len() ==> #[trigger] s1[i] == s2[i],
        rej_sample(s1, pos, acc).len() >= 256,
    ensures
        rej_sample(s2, pos, acc) == rej_sample(s1, pos, acc),
    decreases s1.len() - pos,
{
    if acc.len() >= 256 || pos < 0 {
    } else if pos + 3 > s1.len() {
    } else {
        let t = rej_candidate(s1, pos);
        assert(rej_candidate(s2, pos) == t);
        let acc2 = if t < Q { acc.push(t) } else { acc };
        lemma_rej_sample_prefix(s1, s2, pos + 3, acc2);
    }
}

/// `rej_ntt` on a prefix that completes is `rej_ntt` on the whole.
pub proof fn lemma_rej_ntt_prefix(short: Seq<u8>, long: Seq<u8>)
    requires
        short.len() <= long.len(),
        short == long.subrange(0, short.len() as int),
        rej_ntt(short).len() >= 256,
    ensures
        rej_ntt(long) == rej_ntt(short),
{
    assert forall|i: int| 0 <= i < short.len() implies #[trigger] short[i] == long[i] by {
        assert(short[i] == long.subrange(0, short.len() as int)[i]);
    }
    lemma_rej_sample_prefix(short, long, 0, Seq::empty());
}

/// Sign bit `j` of `SampleInBall`: bit `j` of the stream's first eight
/// bytes read as a little-endian integer.
pub open spec fn sign_bit(s: Seq<u8>, j: int) -> int {
    ((s[j / 8] >> ((j % 8) as u8)) & 1u8) as int
}

/// `SampleInBall` from coefficient `i` and stream position `pos`, with the
/// coefficients `c` set so far: a byte `b ≤ i` moves `c[b]` to `c[i]` and
/// puts the next sign at `c[b]`; larger bytes are skipped.
pub open spec fn ball_from(s: Seq<u8>, i: int, pos: int, c: Seq<int>) -> Seq<int>
    decreases 256 - i, s.len() - pos,
{
    if i >= 256 || i < 0 || pos >= s.len() || pos < 0 {
        c
    } else if s[pos] > i {
        ball_from(s, i, pos + 1, c)
    } else {
        let b = s[pos] as int;
        ball_from(s, i + 1, pos + 1, c.update(i, c[b]).update(b, 1 - 2 * sign_bit(s, i - 217)))
    }
}

/// How far `SampleInBall` gets: the coefficient index it stops at.
pub open spec fn ball_reach(s: Seq<u8>, i: int, pos: int) -> int
    decreases 256 - i, s.len() - pos,
{
    if i >= 256 || i < 0 || pos >= s.len() || pos < 0 {
        i
    } else if s[pos] > i {
        ball_reach(s, i, pos + 1)
    } else {
        ball_reach(s, i + 1, pos + 1)
    }
}

/// `SampleInBall` (FIPS 204 Algorithm 29, `τ = 39`) on a stream: signs
/// from its first eight bytes, positions from the bytes after them.
pub open spec fn sample_in_ball(s: Seq<u8>) -> Seq<int> {
    ball_from(s, 217, 8, Seq::new(256, |k: int| 0int))
}

/// `SampleInBall` keeps every coefficient in `{−1, 0, 1}`.
pub proof fn lemma_ball_range(s: Seq<u8>, i: int, pos: int, c: Seq<int>)
    requires
        c.len() == 256,
        forall|k: int| 0 <= k < 256 ==> -1 <= #[trigger] c[k] <= 1,
        i >= 217 || i >= 256,
    ensures
        ball_from(s, i, pos, c).len() == 256,
        forall|k: int| 0 <= k < 256 ==> -1 <= #[trigger] ball_from(s, i, pos, c)[k] <= 1,
    decreases 256 - i, s.len() - pos,
{
    if i >= 256 || i < 0 || pos >= s.len() || pos < 0 {
    } else if s[pos] > i {
        lemma_ball_range(s, i, pos + 1, c);
    } else {
        let b = s[pos] as int;
        let j = i - 217;
        assert(0 <= sign_bit(s, j) <= 1) by {
            let x = s[j / 8];
            let sh = (j % 8) as u8;
            assert((x >> sh) & 1u8 <= 1u8) by (bit_vector);
        }
        lemma_ball_range(s, i + 1, pos + 1, c.update(i, c[b]).update(b, 1 - 2 * sign_bit(s, j)));
    }
}

/// Once `SampleInBall` completes on a stream, a longer stream with the same
/// prefix gives the same coefficients.
pub proof fn lemma_ball_prefix(s1: Seq<u8>, s2: Seq<u8>, i: int, pos: int, c: Seq<int>)
    requires
        s1.len() <= s2.len(),
        s1.len() >= 8,
        i >= 217,
        forall|t: int| 0 <= t < s1.len() ==> #[trigger] s1[t] == s2[t],
        ball_reach(s1, i, pos) >= 256,
    ensures
        ball_from(s2, i, pos, c) == ball_from(s1, i, pos, c),
        ball_reach(s2, i, pos) >= 256,
    decreases 256 - i, s1.len() - pos,
{
    if i >= 256 || i < 0 || pos < 0 {
    } else if pos >= s1.len() {
    } else if s1[pos] > i {
        lemma_ball_prefix(s1, s2, i, pos + 1, c);
    } else {
        let b = s1[pos] as int;
        let j = i - 217;
        assert(sign_bit(s1, j) == sign_bit(s2, j));
        lemma_ball_prefix(s1, s2, i + 1, pos + 1, c.update(i, c[b]).update(b, 1 - 2 * sign_bit(s1, j)));
    }
}

/// `sample_in_ball` on a prefix that completes is `sample_in_ball` on the
/// whole, which completes too.
pub proof fn lemma_sample_in_ball_prefix(short: Seq<u8>, long: Seq<u8>)
    requires
        short.len() <= long.len(),
        short == long.subrange(0, short.len() as int),
        ball_reach(short, 217, 8) >= 256,
    ensures
        sample_in_ball(long) == sample_in_ball(short),
        ball_reach(long, 217, 8) >= 256,
{
    assert forall|i: int| 0 <= i < short.len() implies #[trigger] short[i] == long[i] by {
        assert(short[i] == long.subrange(0, short.len() as int)[i]);
    }
    if short.len() < 8 {
        assert(ball_reach(short, 217, 8) == 217);
    }
    lemma_ball_prefix(short, long, 217, 8, Seq::new(256, |k: int| 0int));
}

/// `SampleInBall` never goes past the last coefficient.
pub proof fn lemma_ball_reach_bound(s: Seq<u8>, i: int, pos: int)
    requires
        i <= 256,
    ensures
        i <= ball_reach(s, i, pos) <= 256,
    decreases 256 - i, s.len() - pos,
{
    if i >= 256 || i < 0 || pos >= s.len() || pos < 0 {
    } else if s[pos] > i {
        lemma_ball_reach_bound(s, i, pos + 1);
    } else {
        lemma_ball_reach_bound(s, i + 1, pos + 1);
    }
}

/// How many of the first `n` coefficients are nonzero.
pub open spec fn nonzero_count(c: Seq<int>, n: int) -> int
    decreases n,
{
    if n <= 0 {
        0
    } else {
        nonzero_count(c, n - 1) + if c[n - 1] != 0 { 1int } else { 0int }
    }
}

/// Setting one coefficient changes the count by what it replaced.
pub proof fn lemma_nonzero_count_update(c: Seq<int>, p: int, v: int, n: int)
    requires
        0 <= p < c.len(),
        n <= c.len(),
    ensures
        nonzero_count(c.update(p, v), n) == nonzero_count(c, n) + if p < n {
            (if v != 0 { 1int } else { 0int }) - (if c[p] != 0 { 1int } else { 0int })
        } else {
            0int
        },
    decreases n,
{
    if n > 0 {
        lemma_nonzero_count_update(c, p, v, n - 1);
    }
}

/// No coefficient of the zero polynomial is nonzero.
pub proof fn lemma_nonzero_count_zero(c: Seq<int>, n: int)
    requires
        n <= c.len(),
        forall|k: int| 0 <= k < n ==> #[trigger] c[k] == 0,
    ensures
        nonzero_count(c, n) == 0,
    decreases n,
{
    if n > 0 {
        lemma_nonzero_count_zero(c, n - 1);
    }
}

/// Each coefficient `SampleInBall` places adds one nonzero coefficient:
/// from the zero polynomial at `i = 217`, the count is how far it reached
/// less 217, so `τ = 39` when it completes.
pub proof fn lemma_ball_count(s: Seq<u8>, i: int, pos: int, c: Seq<int>)
    requires
        c.len() == 256,
        217 <= i <= 256,
        forall|k: int| i <= k < 256 ==> #[trigger] c[k] == 0,
        nonzero_count(c, 256) == i - 217,
    ensures
        nonzero_count(ball_from(s, i, pos, c), 256) == ball_reach(s, i, pos) - 217,
    decreases 256 - i, s.len() - pos,
{
    if i >= 256 || i < 0 || pos >= s.len() || pos < 0 {
    } else if s[pos] > i {
        lemma_ball_count(s, i, pos + 1, c);
    } else {
        let b = s[pos] as int;
        let j = i - 217;
        assert(0 <= sign_bit(s, j) <= 1) by {
            let x = s[j / 8];
            let sh = (j % 8) as u8;
            assert((x >> sh) & 1u8 <= 1u8) by (bit_vector);
        }
        let v = 1 - 2 * sign_bit(s, j);
        let c1 = c.update(i, c[b]);
        let c2 = c1.update(b, v);
        lemma_nonzero_count_update(c, i, c[b], 256);
        lemma_nonzero_count_update(c1, b, v, 256);
        assert(c[i] == 0);
        if b == i {
            assert(c1 =~= c);
        }
        assert forall|k: int| i + 1 <= k < 256 implies #[trigger] c2[k] == 0 by {
            assert(c[k] == 0);
        }
        lemma_ball_count(s, i + 1, pos + 1, c2);
    }
}

} // verus!
