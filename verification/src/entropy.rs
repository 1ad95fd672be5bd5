//! Entropy Analyzer: measures the Shannon entropy of a byte buffer's
//! value distribution over the 8-bit alphabet, in log base 2.
//!
//! Entropy is a real-valued quantity; this library computes it in binary
//! fixed point, in units of `2^-16` bits (`ENTROPY_SCALE` units equal one
//! bit). The analyzer builds a frequency count for each of the 256
//! possible byte values, then sums `count * (log2(len) - log2(count))`
//! over the values present and divides by the buffer length, which is the
//! sum `-p * log2(p)` over the distribution scaled by `ENTROPY_SCALE`.
//! Logarithms are truncated to 16 fractional bits. The empty buffer has
//! entropy 0 by definition.

use vstd::prelude::*;
use vstd::arithmetic::power2::{
    pow2, lemma_pow2_adds, lemma_pow2_pos, lemma_pow2_strictly_increases, lemma2_to64,
    lemma2_to64_rest,
};
use vstd::arithmetic::div_mod::{
    lemma_div_is_ordered, lemma_div_multiples_vanish, lemma_multiply_divide_lt,
    lemma_fundamental_div_mod,
};
use vstd::arithmetic::mul::lemma_mul_inequality;

verus! {

broadcast use
    vstd::seq_lib::group_to_multiset_ensures,
    vstd::multiset::group_multiset_axioms,
;

/// Number of fixed-point units in one bit of entropy.
pub const ENTROPY_SCALE: u64 = 65536;

/// How often the byte value `b` occurs in `data`.
pub open spec fn count_byte(data: Seq<u8>, b: u8) -> nat {
    data.to_multiset().count(b)
}

/// `floor(log2(x))` for `x >= 1`; 0 for `x == 0`.
pub open spec fn floor_log2(x: nat) -> nat
    decreases x,
{
    if x < 2 {
        0
    } else {
        1 + floor_log2(x / 2)
    }
}

/// The mantissa of `x` with 32 fractional bits: `x / 2^floor_log2(x)`,
/// a fixed-point value in `[1, 2)`.
pub open spec fn initial_mantissa(x: nat) -> nat {
    (x * 0x1_0000_0000) / pow2(floor_log2(x))
}

/// One step of the fraction-bit recurrence: square the mantissa and
/// renormalize it into `[1, 2)`.
pub open spec fn mantissa_step(m: nat) -> nat {
    let s = (m * m) / 0x1_0000_0000;
    if s >= 0x2_0000_0000 {
        s / 2
    } else {
        s
    }
}

/// The fraction bit produced by one step: 1 when the squared mantissa
/// reaches 2, else 0.
pub open spec fn mantissa_bit(m: nat) -> nat {
    if (m * m) / 0x1_0000_0000 >= 0x2_0000_0000 {
        1
    } else {
        0
    }
}

/// The mantissa after `k` steps of the recurrence.
pub open spec fn mantissa_iter(m: nat, k: nat) -> nat
    decreases k,
{
    if k == 0 {
        m
    } else {
        mantissa_step(mantissa_iter(m, (k - 1) as nat))
    }
}

/// The first `k` fraction bits of `log2` of a mantissa, as an integer.
pub open spec fn fraction_bits(m: nat, k: nat) -> nat
    decreases k,
{
    if k == 0 {
        0
    } else {
        2 * fraction_bits(m, (k - 1) as nat) + mantissa_bit(mantissa_iter(m, (k - 1) as nat))
    }
}

/// `log2(x)` in units of `2^-16`, truncated: the integer part is
/// `floor_log2(x)` and the 16 fraction bits come from repeated squaring
/// of the mantissa. Defined as 0 for `x == 0`.
pub open spec fn log2_fixed(x: nat) -> nat {
    if x == 0 {
        0
    } else {
        floor_log2(x) * 65536 + fraction_bits(initial_mantissa(x), 16)
    }
}

/// The contribution of one byte value to the entropy sum:
/// `count * (log2(len) - log2(count))`, clipped at zero. For a count no
/// larger than the length the difference is nonnegative; the clip only
/// keeps the function total over all arguments.
pub open spec fn entropy_term(c: nat, n: nat) -> nat {
    if c == 0 {
        0
    } else if log2_fixed(n) >= log2_fixed(c) {
        c * (log2_fixed(n) - log2_fixed(c)) as nat
    } else {
        0
    }
}

/// The entropy sum over the byte values below `k`.
pub open spec fn entropy_sum(data: Seq<u8>, k: nat) -> nat
    decreases k,
{
    if k == 0 {
        0
    } else {
        entropy_sum(data, (k - 1) as nat) + entropy_term(
            count_byte(data, (k - 1) as u8),
            data.len(),
        )
    }
}

/// Shannon entropy of `data`'s byte-value distribution in units of
/// `2^-16` bits; 0 for the empty buffer.
pub open spec fn entropy_of(data: Seq<u8>) -> nat {
    if data.len() == 0 {
        0
    } else {
        entropy_sum(data, 256) / data.len()
    }
}

/// `2^floor_log2(x) <= x < 2^(floor_log2(x) + 1)` for `x >= 1`.
proof fn lemma_floor_log2_bounds(x: nat)
    requires
        x >= 1,
    ensures
        pow2(floor_log2(x)) <= x,
        x < pow2(floor_log2(x) + 1),
    decreases x,
{
    lemma2_to64();
    if x < 2 {
    } else {
        lemma_floor_log2_bounds(x / 2);
        let i = floor_log2(x / 2);
        lemma_pow2_adds(i, 1);
        lemma_pow2_adds(i + 1, 1);
        lemma_fundamental_div_mod(x as int, 2);
    }
}

/// `floor_log2` stays below 64 for values that fit in 64 bits.
proof fn lemma_floor_log2_le_63(x: nat)
    requires
        1 <= x <= u64::MAX,
    ensures
        floor_log2(x) <= 63,
{
    lemma_floor_log2_bounds(x);
    if floor_log2(x) > 63 {
        lemma2_to64_rest();
        if floor_log2(x) > 64 {
            lemma_pow2_strictly_increases(64, floor_log2(x));
        }
    }
}

/// The initial mantissa of a 64-bit value lies in `[1, 2)` as a
/// fixed-point number with 32 fractional bits.
proof fn lemma_initial_mantissa_range(x: nat)
    requires
        1 <= x <= u64::MAX,
    ensures
        0x1_0000_0000 <= initial_mantissa(x) < 0x2_0000_0000,
{
    lemma_floor_log2_bounds(x);
    let i = floor_log2(x);
    let p = pow2(i);
    lemma_pow2_pos(i);
    // lower bound: x >= p, so x * 2^32 >= p * 2^32, whose quotient by p is 2^32
    lemma_mul_inequality(p as int, x as int, 0x1_0000_0000);
    lemma_div_is_ordered((p * 0x1_0000_0000) as int, (x * 0x1_0000_0000) as int, p as int);
    lemma_div_multiples_vanish(0x1_0000_0000, p as int);
    // upper bound: x < 2 * p, so x * 2^32 < p * 2^33
    lemma_pow2_adds(i, 1);
    lemma2_to64();
    assert(x < 2 * p);
    assert(x * 0x1_0000_0000 < (p as int) * 0x2_0000_0000) by (nonlinear_arith)
        requires
            x < 2 * p,
    ;
    lemma_multiply_divide_lt((x * 0x1_0000_0000) as int, p as int, 0x2_0000_0000);
}

/// Squaring a mantissa in `[1, 2)` and renormalizing keeps it in `[1, 2)`.
proof fn lemma_mantissa_step_range(m: nat)
    requires
        0x1_0000_0000 <= m < 0x2_0000_0000,
    ensures
        m * m < 0x4_0000_0000_0000_0000,
        0x1_0000_0000 <= (m * m) / 0x1_0000_0000 < 0x4_0000_0000,
        0x1_0000_0000 <= mantissa_step(m) < 0x2_0000_0000,
{
    assert(m * m < 0x4_0000_0000_0000_0000) by (nonlinear_arith)
        requires m < 0x2_0000_0000;
    assert(m * m >= 0x1_0000_0000_0000_0000) by (nonlinear_arith)
        requires m >= 0x1_0000_0000;
    lemma_div_is_ordered(0x1_0000_0000_0000_0000, (m * m) as int, 0x1_0000_0000);
    lemma_div_multiples_vanish(0x1_0000_0000, 0x1_0000_0000);
    lemma_multiply_divide_lt((m * m) as int, 0x1_0000_0000, 0x4_0000_0000);
    let s = (m * m) / 0x1_0000_0000;
    if s >= 0x2_0000_0000 {
        lemma_div_is_ordered(0x2_0000_0000, s as int, 2);
        assert(mantissa_step(m) < 0x2_0000_0000) by {
            lemma_fundamental_div_mod(s as int, 2);
        }
    }
}

/// Fraction-bit accumulators stay below `2^k`.
proof fn lemma_fraction_bits_bound(m: nat, k: nat)
    ensures
        fraction_bits(m, k) < pow2(k),
    decreases k,
{
    if k == 0 {
        lemma2_to64();
    } else {
        lemma_fraction_bits_bound(m, (k - 1) as nat);
        lemma_pow2_adds((k - 1) as nat, 1);
        lemma2_to64();
    }
}

/// Exact floor of `log2` of a positive 64-bit value.
fn floor_log2_u64(x: u64) -> (r: u64)
    requires
        x >= 1,
    ensures
        r == floor_log2(x as nat),
        r <= 63,
{
    proof {
        lemma_floor_log2_le_63(x as nat);
    }
    let mut y: u64 = x;
    let mut r: u64 = 0;
    while y >= 2
        invariant
            y >= 1,
            floor_log2(x as nat) == r + floor_log2(y as nat),
            r <= floor_log2(x as nat) <= 63,
        decreases y,
    {
        proof {
            lemma_fundamental_div_mod(y as int, 2);
        }
        y = y / 2;
        r = r + 1;
    }
    r
}

/// `2^e` for an exponent below 64.
fn pow2_u64(e: u64) -> (r: u64)
    requires
        e <= 63,
    ensures
        r == pow2(e as nat),
{
    let mut r: u64 = 1;
    let mut j: u64 = 0;
    proof {
        lemma2_to64();
    }
    while j < e
        invariant
            j <= e <= 63,
            r == pow2(j as nat),
        decreases e - j,
    {
        proof {
            lemma_pow2_strictly_increases(j as nat, 63);
            lemma2_to64_rest();
            lemma_pow2_adds(j as nat, 1);
            lemma2_to64();
        }
        r = r * 2;
        j = j + 1;
    }
    r
}

/// `log2(x)` in units of `2^-16`, truncated to 16 fraction bits.
fn log2_fixed_u64(x: u64) -> (r: u64)
    requires
        x >= 1,
    ensures
        r == log2_fixed(x as nat),
        r < 0x40_0000,
{
    let ip: u64 = floor_log2_u64(x);
    let pw: u64 = pow2_u64(ip);
    proof {
        assert((x as nat) * 0x1_0000_0000 < 0x1_0000_0000_0000_0000_0000_0000) by (nonlinear_arith)
            requires x <= 0xffff_ffff_ffff_ffffu64;
        lemma_pow2_pos(ip as nat);
        lemma_initial_mantissa_range(x as nat);
    }
    let mut m: u128 = ((x as u128) * 0x1_0000_0000) / (pw as u128);
    let ghost m0: nat = m as nat;
    proof {
        assert(m0 == initial_mantissa(x as nat));
    }
    let mut acc: u64 = 0;
    let mut k: u64 = 0;
    proof {
        lemma2_to64();
    }
    while k < 16
        invariant
            k <= 16,
            0x1_0000_0000 <= m < 0x2_0000_0000,
            m as nat == mantissa_iter(m0, k as nat),
            acc == fraction_bits(m0, k as nat),
            acc < pow2(k as nat),
        decreases 16 - k,
    {
        proof {
            lemma_mantissa_step_range(m as nat);
            lemma_fraction_bits_bound(m0, k as nat);
            lemma_pow2_strictly_increases(k as nat, 16);
            lemma2_to64();
        }
        let s: u128 = (m * m) / 0x1_0000_0000;
        if s >= 0x2_0000_0000 {
            m = s / 2;
            acc = 2 * acc + 1;
        } else {
            m = s;
            acc = 2 * acc;
        }
        k = k + 1;
        proof {
            lemma_pow2_adds((k - 1) as nat, 1);
        }
    }
    proof {
        lemma2_to64();
        assert(acc < 65536);
    }
    ip * 65536 + acc
}

/// Frequency count of each of the 256 byte values in `data`.
pub fn byte_counts(data: &Vec<u8>) -> (counts: Vec<u64>)
    ensures
        counts@.len() == 256,
        forall|b: int| 0 <= b < 256 ==> counts@[b] as nat == count_byte(data@, b as u8),
        forall|b: int| 0 <= b < 256 ==> counts@[b] <= data@.len(),
{
    broadcast use vstd::seq_lib::group_to_multiset_ensures;
    broadcast use vstd::multiset::group_multiset_axioms;

    let mut counts: Vec<u64> = Vec::new();
    let mut z: usize = 0;
    while z < 256
        invariant
            counts@.len() == z <= 256,
            forall|b: int| 0 <= b < z ==> counts@[b] == 0,
        decreases 256 - z,
    {
        counts.push(0);
        z = z + 1;
    }
    proof {
        assert forall|b: u8| count_byte(data@.take(0), b) == 0 by {
            assert(!data@.take(0).contains(b));
        }
    }
    let mut i: usize = 0;
    while i < data.len()
        invariant
            counts@.len() == 256,
            i <= data@.len(),
            forall|b: int| 0 <= b < 256 ==> counts@[b] as nat == count_byte(
                data@.take(i as int),
                b as u8,
            ),
            forall|b: int| 0 <= b < 256 ==> counts@[b] <= i,
        decreases data@.len() - i,
    {
        let v = data[i];
        let ghost prev = data@.take(i as int);
        proof {
            assert(data@.take(i + 1) =~= prev.push(data@[i as int]));
            assert(prev.push(data@[i as int]).to_multiset() =~= prev.to_multiset().insert(
                data@[i as int],
            ));
        }
        let c = counts[v as usize];
        counts[v as usize] = c + 1;
        i = i + 1;
    }
    proof {
        assert(data@.take(data@.len() as int) =~= data@);
    }
    counts
}

/// Shannon entropy of `data` in units of `2^-16` bits.
pub fn shannon_entropy(data: &Vec<u8>) -> (e: u64)
    ensures
        e as nat == entropy_of(data@),
        e <= 0x4000_0000,
{
    if data.len() == 0 {
        return 0;
    }
    let counts = byte_counts(data);
    let n: u64 = data.len() as u64;
    let ln: u64 = log2_fixed_u64(n);
    let mut sum: u128 = 0;
    let mut b: usize = 0;
    while b < 256
        invariant
            b <= 256,
            counts@.len() == 256,
            1 <= n == data@.len(),
            ln == log2_fixed(n as nat),
            ln < 0x40_0000,
            forall|j: int| 0 <= j < 256 ==> counts@[j] as nat == count_byte(data@, j as u8),
            forall|j: int| 0 <= j < 256 ==> counts@[j] <= n,
            sum as nat == entropy_sum(data@, b as nat),
            sum as nat <= (b as nat) * ((n as nat) * 0x40_0000),
        decreases 256 - b,
    {
        let c: u64 = counts[b];
        let ghost cnt: nat = count_byte(data@, b as u8);
        proof {
            assert(cnt == counts@[b as int] as nat);
        }
        let ghost term: nat = entropy_term(cnt, data@.len());
        proof {
            assert(term <= (n as nat) * 0x40_0000) by {
                if cnt > 0 && log2_fixed(n as nat) >= log2_fixed(cnt) {
                    let d = (log2_fixed(n as nat) - log2_fixed(cnt)) as nat;
                    assert(d <= 0x40_0000);
                    lemma_mul_inequality(cnt as int, n as int, d as int);
                    lemma_mul_inequality(d as int, 0x40_0000, n as int);
                    assert((n as nat) * d == d * (n as nat)) by (nonlinear_arith);
                    assert(0x40_0000 * (n as nat) == (n as nat) * 0x40_0000) by (nonlinear_arith);
                }
            }
            assert((b as nat) * ((n as nat) * 0x40_0000) + (n as nat) * 0x40_0000 == ((b
                + 1) as nat) * ((n as nat) * 0x40_0000)) by (nonlinear_arith);
            assert(((b + 1) as nat) * ((n as nat) * 0x40_0000) < 0x1_0000_0000_0000_0000_0000_0000)
                by (nonlinear_arith)
                requires
                    b < 256,
                    n <= 0xffff_ffff_ffff_ffffu64,
            ;
            assert(entropy_sum(data@, (b + 1) as nat) == entropy_sum(data@, b as nat) + term);
        }
        if c > 0 {
            let lc: u64 = log2_fixed_u64(c);
            if ln > lc {
                let d: u64 = ln - lc;
                proof {
                    assert((c as u128) * (d as u128) == term);
                }
                sum = sum + (c as u128) * (d as u128);
            } else {
                proof {
                    if ln >= lc {
                        assert((log2_fixed(n as nat) - log2_fixed(cnt)) as nat == 0);
                        assert(cnt * ((log2_fixed(n as nat) - log2_fixed(cnt)) as nat) == 0)
                            by (nonlinear_arith)
                            requires
                                (log2_fixed(n as nat) - log2_fixed(cnt)) as nat == 0,
                        ;
                    }
                    assert(term == 0);
                }
            }
        }
        b = b + 1;
    }
    proof {
        assert(sum as nat <= (n as nat) * 0x4000_0000) by (nonlinear_arith)
            requires
                sum as nat <= 256 * ((n as nat) * 0x40_0000),
        ;
        lemma_div_is_ordered(sum as int, ((n as nat) * 0x4000_0000) as int, n as int);
        lemma_div_multiples_vanish(0x4000_0000, n as int);
    }
    (sum / (n as u128)) as u64
}

/// Law: a nonempty buffer of one repeated byte value has entropy exactly 0.
pub proof fn lemma_entropy_single_value(data: Seq<u8>, v: u8)
    requires
        data.len() > 0,
        forall|i: int| 0 <= i < data.len() ==> data[i] == v,
    ensures
        entropy_of(data) == 0,
{
    lemma_count_constant(data, v);
    lemma_entropy_sum_uniform(data, v, 256);
}

/// Occurrence counts of a buffer holding one repeated value.
proof fn lemma_count_constant(data: Seq<u8>, v: u8)
    requires
        forall|i: int| 0 <= i < data.len() ==> data[i] == v,
    ensures
        count_byte(data, v) == data.len(),
        forall|b: u8| b != v ==> count_byte(data, b) == 0,
    decreases data.len(),
{
    broadcast use vstd::seq_lib::group_to_multiset_ensures;
    broadcast use vstd::multiset::group_multiset_axioms;

    if data.len() == 0 {
        assert forall|b: u8| count_byte(data, b) == 0 by {
            assert(!data.contains(b));
        }
    } else {
        let rest = data.drop_last();
        lemma_count_constant(rest, v);
        assert(data =~= rest.push(data.last()));
        assert(rest.push(data.last()).to_multiset() =~= rest.to_multiset().insert(data.last()));
    }
}

/// Every partial entropy sum of a single-valued buffer is 0.
proof fn lemma_entropy_sum_uniform(data: Seq<u8>, v: u8, k: nat)
    requires
        k <= 256,
        data.len() > 0,
        count_byte(data, v) == data.len(),
        forall|b: u8| b != v ==> count_byte(data, b) == 0,
    ensures
        entropy_sum(data, k) == 0,
    decreases k,
{
    if k > 0 {
        lemma_entropy_sum_uniform(data, v, (k - 1) as nat);
        let b = (k - 1) as u8;
        if b == v {
            lemma_entropy_term_self(data.len());
        } else {
            assert(entropy_term(count_byte(data, b), data.len()) == 0);
        }
    }
}

/// A value that makes up the whole buffer contributes nothing:
/// `log2(n) - log2(n) == 0`.
proof fn lemma_entropy_term_self(n: nat)
    ensures
        entropy_term(n, n) == 0,
{
    if n > 0 {
        assert((log2_fixed(n) - log2_fixed(n)) as nat == 0);
        assert(n * ((log2_fixed(n) - log2_fixed(n)) as nat) == 0) by (nonlinear_arith)
            requires
                (log2_fixed(n) - log2_fixed(n)) as nat == 0,
        ;
    }
}

/// Law: entropy is invariant under permutation of the buffer; it depends
/// only on the byte-value frequency distribution.
pub proof fn lemma_entropy_permutation(a: Seq<u8>, b: Seq<u8>)
    requires
        a.to_multiset() == b.to_multiset(),
    ensures
        entropy_of(a) == entropy_of(b),
{
    a.to_multiset_ensures();
    b.to_multiset_ensures();
    assert(a.len() == b.len());
    lemma_entropy_sum_permutation(a, b, 256);
}

/// Partial entropy sums agree on buffers with equal distributions.
proof fn lemma_entropy_sum_permutation(a: Seq<u8>, b: Seq<u8>, k: nat)
    requires
        a.to_multiset() == b.to_multiset(),
        a.len() == b.len(),
    ensures
        entropy_sum(a, k) == entropy_sum(b, k),
    decreases k,
{
    if k > 0 {
        lemma_entropy_sum_permutation(a, b, (k - 1) as nat);
    }
}

} // verus!
