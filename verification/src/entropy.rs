//! The content-randomness classifier.
//!
//! The score is the Shannon entropy of the byte-value distribution of a
//! buffer (typically the first 4096 bytes of a modified file), in bits per
//! byte, computed in fixed point: the returned value is the entropy scaled
//! by 65536 (so 65536 is one bit per byte). For each byte value with count
//! `c > 0` out of `n` bytes the term `c * log2(n/c)` is accumulated and the
//! sum divided by `n`. A constant buffer scores exactly 0; a buffer holding
//! every byte value equally often scores exactly 8 << 16; in between the
//! logarithm is approximated to sixteen fractional bits. A file counts as
//! suspicious when its score exceeds [`SUSPICION_THRESHOLD_Q16`], seven
//! bits per byte - near-uniform content typical of encrypted data.

use vstd::prelude::*;
use vstd::arithmetic::div_mod::{lemma_fundamental_div_mod, lemma_div_multiples_vanish};
use vstd::arithmetic::power2::{lemma2_to64, lemma_pow2_strictly_increases, pow2};

verus! {

/// One bit per byte, in the fixed-point score scale.
pub const SCORE_ONE_Q16: u32 = 65536;

/// The suspicion threshold: seven bits per byte.
pub const SUSPICION_THRESHOLD_Q16: u32 = 458752;

/// How often `v` occurs in `s`.
pub open spec fn count_of(s: Seq<u8>, v: u8) -> nat
    decreases s.len(),
{
    if s.len() == 0 {
        0
    } else {
        count_of(s.drop_last(), v) + (if s.last() == v {
            1nat
        } else {
            0nat
        })
    }
}

/// Every byte of `s` equals its first byte.
pub open spec fn constant_buf(s: Seq<u8>) -> bool {
    forall|i: int| 0 <= i < s.len() ==> #[trigger] s[i] == s[0]
}

/// `s` is non-empty and holds every one of the 256 byte values equally
/// often.
pub open spec fn uniform256(s: Seq<u8>) -> bool {
    &&& s.len() > 0
    &&& s.len() % 256 == 0
    &&& forall|v: u8| count_of(s, v) == s.len() / 256
}

/// No byte occurs more often than the buffer is long.
pub proof fn lemma_count_le(s: Seq<u8>, v: u8)
    ensures
        count_of(s, v) <= s.len(),
    decreases s.len(),
{
    if s.len() > 0 {
        lemma_count_le(s.drop_last(), v);
    }
}

/// In a constant buffer the first byte accounts for everything and every
/// other value for nothing.
pub proof fn lemma_count_constant(s: Seq<u8>, v: u8)
    requires
        s.len() > 0,
        constant_buf(s),
    ensures
        v == s[0] ==> count_of(s, v) == s.len(),
        v != s[0] ==> count_of(s, v) == 0,
    decreases s.len(),
{
    if s.len() == 1 {
        assert(count_of(s, v) == count_of(s.drop_last(), v) + (if s.last() == v {
            1nat
        } else {
            0nat
        }));
        assert(s.drop_last() =~= Seq::<u8>::empty());
        assert(count_of(s.drop_last(), v) == 0);
        assert(s.last() == s[0]);
    } else {
        assert(s.drop_last()[0] == s[0]);
        assert(constant_buf(s.drop_last())) by {
            assert forall|i: int|
                0 <= i < s.drop_last().len() implies #[trigger] s.drop_last()[i]
                == s.drop_last()[0] by {
                assert(s.drop_last()[i] == s[i]);
                assert(s[i] == s[0]);
            }
        }
        assert(s.last() == s[0]);
        lemma_count_constant(s.drop_last(), v);
    }
}

/// The counts of the byte values below `upto`, summed.
pub open spec fn total_counts(s: Seq<u8>, upto: int) -> nat
    decreases upto,
{
    if upto <= 0 {
        0
    } else {
        total_counts(s, upto - 1) + count_of(s, (upto - 1) as u8)
    }
}

proof fn lemma_total_counts_empty(s: Seq<u8>, upto: int)
    requires
        s.len() == 0,
    ensures
        total_counts(s, upto) == 0,
    decreases upto,
{
    if upto > 0 {
        lemma_total_counts_empty(s, upto - 1);
    }
}

proof fn lemma_total_counts_step(s: Seq<u8>, upto: int)
    requires
        s.len() > 0,
        0 <= upto <= 256,
    ensures
        total_counts(s, upto) == total_counts(s.drop_last(), upto) + (if (s.last() as int) < upto {
            1nat
        } else {
            0nat
        }),
    decreases upto,
{
    if upto > 0 {
        lemma_total_counts_step(s, upto - 1);
    }
}

/// The 256 per-value counts partition the buffer.
pub proof fn lemma_total_counts(s: Seq<u8>)
    ensures
        total_counts(s, 256) == s.len(),
    decreases s.len(),
{
    if s.len() == 0 {
        lemma_total_counts_empty(s, 256);
    } else {
        lemma_total_counts(s.drop_last());
        lemma_total_counts_step(s, 256);
    }
}

/// The base-two logarithm of `num / den`, in fixed point with sixteen
/// fractional bits. Exact whenever `num / den` is a power of two; the two
/// ratios the score contracts rely on are stated directly.
fn log2_q16(num: u64, den: u64) -> (r: u32)
    requires
        1 <= den <= num,
    ensures
        num == den ==> r == 0,
        num == 256 * den ==> r == 8 * 65536,
        r < 64 * 65536,
{
    proof {
        lemma2_to64();
    }
    let mut k: u32 = 0;
    let mut d: u64 = den;
    while d <= num / 2
        invariant
            1 <= den <= num,
            1 <= d,
            d as nat == den as nat * pow2(k as nat),
            d <= num,
            k < 64,
        decreases num - d,
    {
        proof {
            lemma2_to64();
            lemma_fundamental_div_mod(num as int, 2);
            assert(2 * d <= num);
            assert(den as nat * pow2(k as nat) * 2 == den as nat * pow2((k + 1) as nat)) by {
                assert(pow2((k + 1) as nat) == 2 * pow2(k as nat)) by {
                    vstd::arithmetic::power2::lemma_pow2_adds(k as nat, 1);
                    lemma2_to64();
                }
                assert(den as nat * (2 * pow2(k as nat)) == den as nat * pow2(k as nat) * 2)
                    by (nonlinear_arith);
            }
            assert(k + 1 < 64) by {
                if k + 1 >= 64 {
                    lemma_pow2_strictly_increases(63, (k + 1) as nat);
                    assert(pow2((k + 1) as nat) >= pow2(64)) by {
                        if k + 1 > 64 {
                            lemma_pow2_strictly_increases(64, (k + 1) as nat);
                        }
                    }
                    assert(den as nat * pow2((k + 1) as nat) >= pow2(64)) by (nonlinear_arith)
                        requires den >= 1 && pow2((k + 1) as nat) >= pow2(64);
                    assert(2 * d as nat >= pow2(64));
                }
            }
        }
        d = d * 2;
        k = k + 1;
    }
    proof {
        lemma2_to64();
        vstd::arithmetic::power2::lemma_pow2_pos(k as nat);
        assert(num < 2 * d as nat) by {
            lemma_fundamental_div_mod(num as int, 2);
        }
    }
    if d == num {
        proof {
            lemma2_to64();
            vstd::arithmetic::power2::lemma_pow2_pos(k as nat);
            if num == den {
                assert(pow2(k as nat) == 1) by (nonlinear_arith)
                    requires
                        den >= 1,
                        den as nat * pow2(k as nat) == den as nat,
                        pow2(k as nat) >= 1,
                ;
                assert(k == 0) by {
                    if k > 0 {
                        lemma_pow2_strictly_increases(0, k as nat);
                    }
                }
            }
            if num == 256 * den {
                assert(pow2(k as nat) == 256) by (nonlinear_arith)
                    requires
                        den >= 1,
                        den as nat * pow2(k as nat) == 256 * den as nat,
                ;
                assert(k == 8) by {
                    if k < 8 {
                        lemma_pow2_strictly_increases(k as nat, 8);
                    }
                    if k > 8 {
                        lemma_pow2_strictly_increases(8, k as nat);
                    }
                }
            }
        }
        return k * 65536;
    }
    proof {
        if num == den {
            assert(pow2(k as nat) >= 1);
            assert(d as nat >= den as nat) by (nonlinear_arith)
                requires den >= 1 && d as nat == den as nat * pow2(k as nat) && pow2(k as nat) >= 1;
        }
        if num == 256 * den {
            assert(pow2(k as nat) != 256) by (nonlinear_arith)
                requires
                    den >= 1,
                    d as nat == den as nat * pow2(k as nat),
                    d != num,
                    num == 256 * den,
            ;
            assert(k != 8);
            if k < 8 {
                lemma_pow2_strictly_increases(k as nat, 8);
                assert(d as nat * 2 <= den as nat * 256) by (nonlinear_arith)
                    requires
                        den >= 1,
                        d as nat == den as nat * pow2(k as nat),
                        2 * pow2(k as nat) <= 256,
                ;
                assert(2 * pow2(k as nat) <= 256) by {
                    lemma_pow2_strictly_increases(k as nat, 8);
                    vstd::arithmetic::power2::lemma_pow2_adds(k as nat, 1);
                    assert(pow2((k + 1) as nat) == pow2(k as nat) * 2);
                    if k + 1 < 8 {
                        lemma_pow2_strictly_increases((k + 1) as nat, 8);
                    }
                }
                assert(false);
            } else {
                lemma_pow2_strictly_increases(8, k as nat);
                assert(d as nat > den as nat * 256) by (nonlinear_arith)
                    requires den >= 1 && d as nat == den as nat * pow2(k as nat) && pow2(k as nat)
                        > 256;
                assert(false);
            }
        }
    }
    let mut x: u128 = (num as u128 * 0x1_0000_0000) / (d as u128);
    proof {
        assert(x < 0x2_0000_0000) by {
            lemma_fundamental_div_mod((num as u128 * 0x1_0000_0000) as int, d as int);
            assert((num as int) * 0x1_0000_0000 < (d as int) * 0x2_0000_0000) by (nonlinear_arith)
                requires (num as int) < 2 * (d as int);
            assert(x as int * (d as int) <= (num as int) * 0x1_0000_0000) by (nonlinear_arith)
                requires
                    d >= 1,
                    (num as u128 * 0x1_0000_0000) as int == (d as int) * (x as int) + (
                    num as u128 * 0x1_0000_0000) as int % (d as int),
                    (num as u128 * 0x1_0000_0000) as int % (d as int) >= 0,
            ;
            assert(x < 0x2_0000_0000) by (nonlinear_arith)
                requires
                    d >= 1,
                    x as int * (d as int) <= (num as int) * 0x1_0000_0000,
                    (num as int) * 0x1_0000_0000 < (d as int) * 0x2_0000_0000,
            ;
        }
    }
    let mut frac: u32 = 0;
    let mut j: u32 = 0;
    while j < 16
        invariant
            j <= 16,
            x < 0x2_0000_0000,
            (frac as nat) < pow2(j as nat),
        decreases 16 - j,
    {
        proof {
            lemma2_to64();
            assert(((x as int) * (x as int)) < 0x4_0000_0000_0000_0000) by (nonlinear_arith)
                requires x < 0x2_0000_0000;
            vstd::arithmetic::power2::lemma_pow2_adds(j as nat, 1);
        }
        let xx: u128 = (x * x) / 0x1_0000_0000;
        proof {
            assert(xx < 0x4_0000_0000) by {
                lemma_fundamental_div_mod((x * x) as int, 0x1_0000_0000);
                assert(xx as int * 0x1_0000_0000 <= (x * x) as int);
                assert(xx < 0x4_0000_0000) by (nonlinear_arith)
                    requires
                        xx as int * 0x1_0000_0000 <= (x * x) as int,
                        ((x * x) as int) < 0x4_0000_0000_0000_0000,
                ;
            }
        }
        if xx >= 0x2_0000_0000 {
            x = xx / 2;
            frac = frac * 2 + 1;
            proof {
                lemma_fundamental_div_mod(xx as int, 2);
            }
        } else {
            x = xx;
            frac = frac * 2;
        }
        j = j + 1;
    }
    proof {
        lemma2_to64();
        assert(frac < 65536);
    }
    k * 65536 + frac
}

/// The per-value histogram of the buffer.
fn byte_counts(data: &[u8]) -> (counts: Vec<u64>)
    requires
        data@.len() <= u64::MAX,
    ensures
        counts@.len() == 256,
        forall|v: int| 0 <= v < 256 ==> counts@[v] as nat == count_of(data@, v as u8),
{
    let mut counts: Vec<u64> = Vec::new();
    let mut z: usize = 0;
    while z < 256
        invariant
            counts@.len() == z <= 256,
            forall|v: int| 0 <= v < z ==> counts@[v] == 0,
        decreases 256 - z,
    {
        counts.push(0);
        z = z + 1;
    }
    proof {
        assert forall|v: int| 0 <= v < 256 implies counts@[v] as nat == count_of(
            data@.take(0),
            v as u8,
        ) by {
            assert(data@.take(0) =~= Seq::<u8>::empty());
        }
    }
    let mut i: usize = 0;
    while i < data.len()
        invariant
            i <= data@.len() <= u64::MAX,
            counts@.len() == 256,
            forall|v: int|
                0 <= v < 256 ==> counts@[v] as nat == count_of(data@.take(i as int), v as u8),
        decreases data@.len() - i,
    {
        let b = data[i];
        proof {
            assert forall|v: int| 0 <= v < 256 implies #[trigger] count_of(
                data@.take(i + 1),
                v as u8,
            ) == count_of(data@.take(i as int), v as u8) + (if b as int == v {
                1nat
            } else {
                0nat
            }) by {
                assert(data@.take(i + 1).drop_last() =~= data@.take(i as int));
                assert(data@.take(i + 1).last() == b);
            }
            lemma_count_le(data@.take(i as int), b);
            assert(data@.take(i as int).len() == i);
        }
        let idx = b as usize;
        let c = counts[idx];
        counts.set(idx, c + 1);
        i = i + 1;
    }
    proof {
        assert(data@.take(data@.len() as int) =~= data@);
    }
    counts
}

/// The randomness score of `data`, in bits per byte scaled by 65536.
///
/// A non-empty constant buffer scores exactly 0; a buffer holding each of
/// the 256 byte values equally often scores exactly 8 bits per byte; an
/// empty buffer scores 0 (an empty read never classifies - callers skip
/// it). The score never reaches 64 bits per byte.
pub fn score_q16(data: &[u8]) -> (r: u32)
    requires
        data@.len() <= u64::MAX,
    ensures
        data@.len() == 0 ==> r == 0,
        data@.len() > 0 && constant_buf(data@) ==> r == 0,
        uniform256(data@) ==> r == 8 * 65536,
        r < 64 * 65536,
{
    let n = data.len();
    if n == 0 {
        return 0;
    }
    let counts = byte_counts(data);
    let n64 = n as u64;
    let mut sum: u128 = 0;
    let mut counted: u64 = 0;
    let mut v: usize = 0;
    proof {
        assert(0u128 * (n64 as u128 / 256) * (8 * 65536) == 0) by (nonlinear_arith);
        assert(data@.take(0int) =~= Seq::<u8>::empty());
    }
    while v < 256
        invariant
            n == data@.len(),
            0 < n <= u64::MAX,
            n64 == n,
            counts@.len() == 256,
            forall|w: int| 0 <= w < 256 ==> counts@[w] as nat == count_of(data@, w as u8),
            v <= 256,
            counted as nat == total_counts(data@, v as int),
            counted <= n64,
            sum <= counted as u128 * (64 * 65536 - 1),
            constant_buf(data@) ==> sum == 0,
            uniform256(data@) ==> sum == v as u128 * (n64 as u128 / 256) * (8 * 65536),
        decreases 256 - v,
    {
        let c = counts[v];
        proof {
            lemma_count_le(data@, v as u8);
            if uniform256(data@) {
                lemma_fundamental_div_mod(n as int, 256);
                assert(count_of(data@, v as u8) == data@.len() / 256);
                assert(c > 0);
            }
            assert(total_counts(data@, v + 1) == total_counts(data@, v as int) + count_of(
                data@,
                v as u8,
            ));
            assert(total_counts(data@, v + 1) <= total_counts(data@, 256)) by {
                lemma_total_counts_mono(data@, v + 1, 256);
            }
            lemma_total_counts(data@);
        }
        if c > 0 {
            let l = log2_q16(n64, c);
            proof {
                if constant_buf(data@) {
                    lemma_count_constant(data@, v as u8);
                    assert(c == n64);
                    assert(l == 0);
                    assert(c as u128 * l as u128 == 0) by (nonlinear_arith)
                        requires l == 0;
                }
                if uniform256(data@) {
                    assert(count_of(data@, v as u8) == data@.len() / 256);
                    lemma_fundamental_div_mod(n as int, 256);
                    assert(n64 == 256 * c);
                }
                assert(sum + c as u128 * l as u128 <= (counted + c) as u128 * (64 * 65536 - 1))
                    by (nonlinear_arith)
                    requires
                        sum <= counted as u128 * (64 * 65536 - 1),
                        l <= 64 * 65536 - 1,
                        c >= 0,
                        counted >= 0,
                ;
                assert((counted + c) as u128 * (64 * 65536 - 1) < 0x8000000000000000000000)
                    by (nonlinear_arith)
                    requires
                        counted <= 0xFFFFFFFFFFFFFFFFu64,
                        c <= 0xFFFFFFFFFFFFFFFFu64,
                ;
                if uniform256(data@) {
                    assert(sum + c as u128 * l as u128 == (v + 1) as u128 * (n64 as u128 / 256) * (
                    8 * 65536)) by (nonlinear_arith)
                        requires
                            sum == v as u128 * (n64 as u128 / 256) * (8 * 65536),
                            c as u128 == n64 as u128 / 256,
                            l == 8 * 65536,
                    ;
                }
            }
            sum = sum + (c as u128) * (l as u128);
        }
        counted = counted + c;
        v = v + 1;
    }
    proof {
        lemma_total_counts(data@);
        assert(counted == n64);
        if constant_buf(data@) {
            assert(sum == 0);
            lemma_div_multiples_vanish(0int, n64 as int);
        }
        if uniform256(data@) {
            lemma_fundamental_div_mod(n as int, 256);
            assert(sum == 256 * (n64 as u128 / 256) * (8 * 65536));
            assert(sum == n64 as u128 * (8 * 65536)) by (nonlinear_arith)
                requires
                    sum == 256 * (n64 as u128 / 256) * (8 * 65536),
                    n64 as int == 256 * (n64 as int / 256),
                    n64 as u128 / 256 == n64 as int / 256,
            ;
            lemma_div_multiples_vanish(8 * 65536int, n64 as int);
            assert(sum as int == n64 as int * (8 * 65536));
        }
        assert((sum / (n64 as u128)) < 64 * 65536) by {
            assert((sum as int) < (n64 as int) * (64 * 65536)) by (nonlinear_arith)
                requires
                    sum <= counted as u128 * (64 * 65536 - 1),
                    counted == n64,
                    n64 >= 1,
            ;
            lemma_fundamental_div_mod(sum as int, n64 as int);
            assert((sum / (n64 as u128)) < 64 * 65536) by (nonlinear_arith)
                requires
                    n64 >= 1,
                    sum as int == n64 as int * (sum as int / n64 as int) + sum as int % (
                    n64 as int),
                    sum as int % (n64 as int) >= 0,
                    (sum as int) < (n64 as int) * (64 * 65536),
                    sum / n64 as u128 == sum as int / n64 as int,
            ;
        }
        if uniform256(data@) {
            assert((sum / (n64 as u128)) as int == 8 * 65536) by {
                lemma_div_multiples_vanish(524288int, n64 as int);
                assert((n64 as int) * 524288 == sum as int);
            }
        }
    }
    (sum / (n64 as u128)) as u32
}

/// The counted totals grow with the number of byte values taken in.
proof fn lemma_total_counts_mono(s: Seq<u8>, a: int, b: int)
    requires
        0 <= a <= b,
    ensures
        total_counts(s, a) <= total_counts(s, b),
    decreases b - a,
{
    if a < b {
        lemma_total_counts_mono(s, a, b - 1);
    }
}

/// Whether a score crosses the suspicion threshold.
pub fn is_suspicious_score(score: u32) -> (r: bool)
    ensures
        r == (score > SUSPICION_THRESHOLD_Q16),
{
    score > SUSPICION_THRESHOLD_Q16
}

} // verus!
