//! Fixed-point arithmetic helpers.
//!
//! A sample is an `i64` in thousandths: `1000` stands for `1.0`.  Gamma
//! exponents use a finer grid of millionths so that the stretch
//! heuristic is exact.  The transcendental pieces (powers with a
//! fractional exponent, the exposure factor) are deterministic integer
//! approximations whose range and fixed points are stated exactly.

use vstd::prelude::*;

verus! {

/// One unit of intensity: samples are stored in thousandths.
pub const SCALE: i64 = 1000;

/// A sample clamped into the displayable range `[0, SCALE]`.
pub open spec fn spec_clamp_unit(x: int) -> int {
    if x < 0 {
        0
    } else if x > SCALE {
        SCALE as int
    } else {
        x
    }
}

/// Clamps a sample into `[0, SCALE]`.
pub fn clamp_unit(x: i64) -> (r: i64)
    ensures
        r == spec_clamp_unit(x as int),
{
    if x < 0 {
        0
    } else if x > SCALE {
        SCALE
    } else {
        x
    }
}

/// Floor division of a signed numerator by a positive denominator.
/// Equals the mathematical `n / d` (which rounds toward minus
/// infinity for a positive divisor).
pub fn floor_div_i128(n: i128, d: i128) -> (r: i128)
    requires
        0 < d,
        -0x2000_0000_0000_0000_0000_0000_0000_0000 <= n
            <= 0x2000_0000_0000_0000_0000_0000_0000_0000,
        d <= 0x2000_0000_0000_0000_0000_0000_0000_0000,
    ensures
        r == n as int / d as int,
{
    if n >= 0 {
        n / d
    } else {
        let m = -n;
        let q = (m + d - 1) / d;
        proof {
            lemma_neg_ceil_is_floor(m as int, d as int);
        }
        -q
    }
}

/// For a positive divisor, negating the ceiling of `m / d` gives the
/// floor of `(-m) / d`.
proof fn lemma_neg_ceil_is_floor(m: int, d: int)
    requires
        m > 0,
        d > 0,
    ensures
        -((m + d - 1) / d) == (-m) / d,
{
    let q = (m + d - 1) / d;
    let rem = (m + d - 1) % d;
    vstd::arithmetic::div_mod::lemma_fundamental_div_mod(m + d - 1, d);
    assert(m + d - 1 == d * q + rem);
    assert((-m) == d * (-q) + (d - 1 - rem)) by (nonlinear_arith)
        requires
            m + d - 1 == d * q + rem,
    ;
    vstd::arithmetic::div_mod::lemma_fundamental_div_mod_converse(-m, d, -q, d - 1 - rem);
}

/// Floor division for `i64` operands, through the wider helper.
pub fn floor_div_i64(n: i64, d: i64) -> (r: i64)
    requires
        0 < d,
    ensures
        r == n as int / d as int,
{
    let q = floor_div_i128(n as i128, d as i128);
    proof {
        let ni = n as int;
        let di = d as int;
        if ni >= 0 {
            vstd::arithmetic::div_mod::lemma_div_nonincreasing(ni, di);
            vstd::arithmetic::div_mod::lemma_div_pos_is_pos(ni, di);
        } else {
            vstd::arithmetic::div_mod::lemma_fundamental_div_mod(ni, di);
            vstd::arithmetic::div_mod::lemma_mod_bound(ni, di);
            assert(ni / di >= ni) by (nonlinear_arith)
                requires
                    di >= 1,
                    ni < 0,
                    ni == di * (ni / di) + ni % di,
                    0 <= ni % di < di,
            ;
            assert(ni / di <= 0) by (nonlinear_arith)
                requires
                    di >= 1,
                    ni < 0,
                    ni == di * (ni / di) + ni % di,
                    0 <= ni % di < di,
            ;
        }
    }
    q as i64
}

/// The quotient of a division by a positive divisor never grows in
/// magnitude.
pub proof fn lemma_div_mag(n: int, d: int)
    requires
        1 <= d,
    ensures
        n >= 0 ==> 0 <= n / d <= n,
        n < 0 ==> n <= n / d <= 0,
{
    if n >= 0 {
        vstd::arithmetic::div_mod::lemma_div_nonincreasing(n, d);
        vstd::arithmetic::div_mod::lemma_div_pos_is_pos(n, d);
    } else {
        vstd::arithmetic::div_mod::lemma_fundamental_div_mod(n, d);
        vstd::arithmetic::div_mod::lemma_mod_bound(n, d);
        assert(n <= n / d && n / d <= 0) by (nonlinear_arith)
            requires
                d >= 1,
                n < 0,
                n == d * (n / d) + n % d,
                0 <= n % d < d,
        ;
    }
}

/// The integer square root: the unique nonnegative `r` with
/// `r * r <= n < (r + 1) * (r + 1)`.
pub open spec fn spec_isqrt(n: int) -> int
    recommends
        n >= 0,
{
    choose|r: int| 0 <= r && #[trigger] (r * r) <= n && n < (r + 1) * (r + 1)
}

/// A value with the root's two bounds is the root.
proof fn lemma_isqrt_unique(n: int, r: int)
    requires
        0 <= r,
        r * r <= n,
        n < (r + 1) * (r + 1),
    ensures
        spec_isqrt(n) == r,
{
    let c = spec_isqrt(n);
    assert(0 <= c && c * c <= n && n < (c + 1) * (c + 1));
    if c < r {
        assert((c + 1) * (c + 1) <= r * r) by (nonlinear_arith)
            requires
                0 <= c,
                c < r,
        ;
    }
    if r < c {
        assert((r + 1) * (r + 1) <= c * c) by (nonlinear_arith)
            requires
                0 <= r,
                r < c,
        ;
    }
}

/// Every nonnegative integer has an integer square root.
proof fn lemma_isqrt_exists(n: int)
    requires
        n >= 0,
    ensures
        0 <= spec_isqrt(n),
        spec_isqrt(n) * spec_isqrt(n) <= n,
        n < (spec_isqrt(n) + 1) * (spec_isqrt(n) + 1),
    decreases n,
{
    if n == 0 {
        lemma_isqrt_unique(0, 0);
    } else {
        lemma_isqrt_exists(n - 1);
        let r = spec_isqrt(n - 1);
        if n < (r + 1) * (r + 1) {
            lemma_isqrt_unique(n, r);
        } else {
            assert(n == (r + 1) * (r + 1));
            assert((r + 1) * (r + 1) < (r + 2) * (r + 2)) by (nonlinear_arith)
                requires
                    0 <= r,
            ;
            lemma_isqrt_unique(n, r + 1);
        }
    }
}

/// A larger radicand has a root at least as large.
proof fn lemma_isqrt_mono(m: int, n: int)
    requires
        0 <= m <= n,
    ensures
        spec_isqrt(m) <= spec_isqrt(n),
{
    lemma_isqrt_exists(m);
    lemma_isqrt_exists(n);
    let a = spec_isqrt(m);
    let b = spec_isqrt(n);
    if b < a {
        assert((b + 1) * (b + 1) <= a * a) by (nonlinear_arith)
            requires
                0 <= b,
                b < a,
        ;
    }
}

/// Integer square root of a value no larger than four million.
pub fn isqrt(n: u64) -> (r: u64)
    requires
        n <= 4_000_000,
    ensures
        r * r <= n,
        n < (r + 1) * (r + 1),
        r <= 2000,
        r as int == spec_isqrt(n as int),
{
    let mut lo: u64 = 0;
    let mut hi: u64 = 2001;
    proof {
        assert((2001u64 * 2001) as int > 4_000_000int) by (nonlinear_arith);
    }
    while hi - lo > 1
        invariant
            lo < hi <= 2001,
            lo * lo <= n,
            n < hi * hi,
        decreases hi - lo,
    {
        let mid = lo + (hi - lo) / 2;
        assert(lo < mid < hi);
        proof {
            assert(mid * mid <= 2001 * 2001) by (nonlinear_arith)
                requires
                    mid <= 2001,
            ;
        }
        if mid * mid <= n {
            lo = mid;
        } else {
            hi = mid;
        }
    }
    proof {
        lemma_isqrt_unique(n as int, lo as int);
    }
    lo
}

/// `x` raised to the `k`-th power, in thousandths, by repeated
/// multiplication with truncating division.
pub open spec fn spec_pow_int(x: int, k: nat) -> int
    decreases k,
{
    if k == 0 {
        1000
    } else {
        spec_pow_int(x, (k - 1) as nat) * x / 1000
    }
}

/// The square-root chain after `j` of its twenty steps: the running
/// root of `x`, and the running product over the set binary digits
/// of the fractional exponent.
pub open spec fn spec_pow_frac(x: int, bits: int, j: nat) -> (int, int)
    recommends
        j <= 20,
    decreases j,
{
    if j == 0 {
        (x, 1000)
    } else {
        let prev = spec_pow_frac(x, bits, (j - 1) as nat);
        let s = spec_isqrt(prev.0 * 1000);
        if (bits / (vstd::arithmetic::power2::pow2((20 - j) as nat) as int)) % 2 == 1 {
            (s, prev.1 * s / 1000)
        } else {
            (s, prev.1)
        }
    }
}

/// The deterministic fixed-point power `x^(e / 1_000_000)` in
/// thousandths: the whole part of the exponent by repeated
/// multiplication, the fractional part by the twenty-digit
/// square-root chain, with truncating division throughout.
pub open spec fn spec_fixed_pow(x: int, e: int) -> int {
    let k = e / 1_000_000;
    let f = e % 1_000_000;
    let bits = f * 1_048_576 / 1_000_000;
    spec_pow_int(x, k as nat) * spec_pow_frac(x, bits, 20).1 / 1000
}

/// Raises a sample in `[0, SCALE]` to a positive exponent given in
/// millionths, by repeated multiplication for the whole part and a
/// square-root chain over twenty binary digits for the fractional
/// part.  The result is again in `[0, SCALE]`; an input of exactly
/// `SCALE` (that is, 1.0) is a fixed point.
pub fn fixed_pow(x: i64, e_micro: u64) -> (r: i64)
    requires
        0 <= x <= SCALE,
        1 <= e_micro <= 200_000_000,
    ensures
        0 <= r <= SCALE,
        r as int == spec_fixed_pow(x as int, e_micro as int),
{
    let xu = x as u64;
    let k = e_micro / 1_000_000;
    let f = e_micro % 1_000_000;

    let mut r1: u64 = 1000;
    let mut i: u64 = 0;
    while i < k
        invariant
            xu == x,
            0 <= x <= 1000,
            i <= k,
            r1 <= 1000,
            r1 as int == spec_pow_int(x as int, i as nat),
        decreases k - i,
    {
        proof {
            assert(r1 * xu <= 1_000_000) by (nonlinear_arith)
                requires
                    r1 <= 1000,
                    xu <= 1000,
            ;
            assert(spec_pow_int(x as int, (i + 1) as nat) == spec_pow_int(x as int, i as nat) * (
            x as int) / 1000);
        }
        r1 = r1 * xu / 1000;
        i = i + 1;
    }

    // Binary digits of the fractional exponent, on a grid of 2^-20.
    let bits: u64 = f * 1_048_576 / 1_000_000;
    let mut s: u64 = xu;
    let mut r2: u64 = 1000;
    let mut j: u64 = 0;
    while j < 20
        invariant
            xu == x,
            0 <= x <= 1000,
            s <= 1000,
            r2 <= 1000,
            j <= 20,
            bits <= 1_048_575,
            s as int == spec_pow_frac(x as int, bits as int, j as nat).0,
            r2 as int == spec_pow_frac(x as int, bits as int, j as nat).1,
        decreases 20 - j,
    {
        let sq = isqrt(s * 1000);
        proof {
            assert(sq <= 1000) by (nonlinear_arith)
                requires
                    sq * sq <= 1_000_000,
            ;
        }
        let sh: u64 = 19 - j;
        proof {
            vstd::bits::lemma_u64_shr_is_div(bits, sh);
            vstd::arithmetic::power2::lemma_pow2_pos(sh as nat);
            assert(((bits >> sh) & 1) == ((bits >> sh) % 2)) by (bit_vector);
            assert((20 - ((j + 1) as nat)) == sh as nat);
        }
        let ghost prev = spec_pow_frac(x as int, bits as int, j as nat);
        let ghost next = spec_pow_frac(x as int, bits as int, (j + 1) as nat);
        proof {
            assert(next == {
                let sn = spec_isqrt(prev.0 * 1000);
                if (bits as int / (vstd::arithmetic::power2::pow2(sh as nat) as int)) % 2 == 1 {
                    (sn, prev.1 * sn / 1000)
                } else {
                    (sn, prev.1)
                }
            });
        }
        s = sq;
        if (bits >> sh) & 1 == 1 {
            proof {
                assert(r2 * s <= 1_000_000) by (nonlinear_arith)
                    requires
                        r2 <= 1000,
                        s <= 1000,
                ;
            }
            r2 = r2 * s / 1000;
        }
        j = j + 1;
    }

    proof {
        assert(r1 * r2 <= 1_000_000) by (nonlinear_arith)
            requires
                r1 <= 1000,
                r2 <= 1000,
        ;
    }
    let r = r1 * r2 / 1000;
    r as i64
}


/// The repeated-multiplication power stays in `[0, 1000]`, keeps
/// full scale fixed, and annihilates zero once the exponent is
/// positive.
proof fn lemma_pow_int_props(x: int, k: nat)
    requires
        0 <= x <= 1000,
    ensures
        0 <= spec_pow_int(x, k) <= 1000,
        x == 1000 ==> spec_pow_int(x, k) == 1000,
        x == 0 && k >= 1 ==> spec_pow_int(x, k) == 0,
    decreases k,
{
    if k == 0 {
    } else {
        lemma_pow_int_props(x, (k - 1) as nat);
        let p = spec_pow_int(x, (k - 1) as nat);
        assert(0 <= p * x <= 1_000_000) by (nonlinear_arith)
            requires
                0 <= p <= 1000,
                0 <= x <= 1000,
        ;
        vstd::arithmetic::div_mod::lemma_div_pos_is_pos(p * x, 1000);
        vstd::arithmetic::div_mod::lemma_div_is_ordered(p * x, 1_000_000, 1000);
    }
}

/// The square-root chain stays in `[0, 1000]` on both components and
/// keeps full scale fixed.
proof fn lemma_pow_frac_props(x: int, bits: int, j: nat)
    requires
        0 <= x <= 1000,
        j <= 20,
    ensures
        0 <= spec_pow_frac(x, bits, j).0 <= 1000,
        0 <= spec_pow_frac(x, bits, j).1 <= 1000,
        x == 1000 ==> spec_pow_frac(x, bits, j).0 == 1000 && spec_pow_frac(x, bits, j).1 == 1000,
    decreases j,
{
    if j == 0 {
    } else {
        lemma_pow_frac_props(x, bits, (j - 1) as nat);
        let prev = spec_pow_frac(x, bits, (j - 1) as nat);
        assert(0 <= prev.0 * 1000 <= 1_000_000);
        lemma_isqrt_exists(prev.0 * 1000);
        let s = spec_isqrt(prev.0 * 1000);
        assert(s <= 1000) by (nonlinear_arith)
            requires
                s * s <= 1_000_000,
                0 <= s,
        ;
        if prev.0 == 1000 {
            assert(1000 * 1000 <= 1_000_000 < 1001 * 1001) by (nonlinear_arith);
            lemma_isqrt_unique(1_000_000, 1000);
        }
        assert(0 <= prev.1 * s <= 1_000_000) by (nonlinear_arith)
            requires
                0 <= prev.1 <= 1000,
                0 <= s <= 1000,
        ;
        vstd::arithmetic::div_mod::lemma_div_pos_is_pos(prev.1 * s, 1000);
        vstd::arithmetic::div_mod::lemma_div_is_ordered(prev.1 * s, 1_000_000, 1000);
    }
}

/// Full scale is a fixed point of the power: `1.0^e == 1.0`.
pub proof fn lemma_fixed_pow_one(e: int)
    requires
        1 <= e <= 200_000_000,
    ensures
        spec_fixed_pow(1000, e) == 1000,
{
    let k = e / 1_000_000;
    let f = e % 1_000_000;
    let bits = f * 1_048_576 / 1_000_000;
    vstd::arithmetic::div_mod::lemma_div_pos_is_pos(e, 1_000_000);
    lemma_pow_int_props(1000, k as nat);
    lemma_pow_frac_props(1000, bits, 20);
}

/// Once the chain has processed a set leading digit, zero stays
/// zero through every remaining step.
proof fn lemma_pow_frac_zero(bits: int, j: nat)
    requires
        1 <= j <= 20,
        0 <= bits,
        (bits / (vstd::arithmetic::power2::pow2(19) as int)) % 2 == 1,
    ensures
        spec_pow_frac(0, bits, j).0 == 0,
        spec_pow_frac(0, bits, j).1 == 0,
    decreases j,
{
    lemma_isqrt_unique(0, 0);
    if j == 1 {
        assert((20 - j) as nat == 19nat);
    } else {
        lemma_pow_frac_zero(bits, (j - 1) as nat);
    }
}

/// Zero is a fixed point of the power for every exponent the stretch
/// uses: the whole part annihilates it, or failing that the leading
/// digit of the fractional part does.
pub proof fn lemma_fixed_pow_zero(e: int)
    requires
        666_666 <= e <= 200_000_000,
    ensures
        spec_fixed_pow(0, e) == 0,
{
    let k = e / 1_000_000;
    let f = e % 1_000_000;
    let bits = f * 1_048_576 / 1_000_000;
    vstd::arithmetic::div_mod::lemma_div_pos_is_pos(e, 1_000_000);
    lemma_pow_int_props(0, k as nat);
    lemma_pow_frac_props(0, bits, 20);
    if k >= 1 {
        assert(spec_pow_int(0, k as nat) == 0);
    } else {
        vstd::arithmetic::div_mod::lemma_fundamental_div_mod(e, 1_000_000);
        assert(f == e);
        assert(f * 1_048_576 >= 524_288 * 1_000_000);
        vstd::arithmetic::div_mod::lemma_fundamental_div_mod(f * 1_048_576, 1_000_000);
        vstd::arithmetic::div_mod::lemma_mod_bound(f * 1_048_576, 1_000_000);
        assert(bits >= 524_288) by (nonlinear_arith)
            requires
                f * 1_048_576 >= 524_288 * 1_000_000,
                f * 1_048_576 == 1_000_000 * bits + (f * 1_048_576) % 1_000_000,
                0 <= (f * 1_048_576) % 1_000_000 < 1_000_000,
        ;
        assert(f <= 999_999);
        assert(bits <= 1_048_575) by (nonlinear_arith)
            requires
                f <= 999_999,
                f * 1_048_576 == 1_000_000 * bits + (f * 1_048_576) % 1_000_000,
                0 <= (f * 1_048_576) % 1_000_000 < 1_000_000,
        ;
        vstd::arithmetic::power2::lemma2_to64();
        assert(vstd::arithmetic::power2::pow2(19) == 524_288);
        vstd::arithmetic::div_mod::lemma_fundamental_div_mod(bits, 524_288);
        vstd::arithmetic::div_mod::lemma_mod_bound(bits, 524_288);
        assert(bits / 524_288 == 1) by (nonlinear_arith)
            requires
                524_288 <= bits <= 1_048_575,
                bits == 524_288 * (bits / 524_288) + bits % 524_288,
                0 <= bits % 524_288 < 524_288,
        ;
        lemma_pow_frac_zero(bits, 20);
        assert(spec_pow_frac(0, bits, 20).1 == 0);
    }
}

/// The repeated-multiplication power is monotone in its base.
proof fn lemma_pow_int_mono(a: int, b: int, k: nat)
    requires
        0 <= a <= b <= 1000,
    ensures
        spec_pow_int(a, k) <= spec_pow_int(b, k),
    decreases k,
{
    if k > 0 {
        lemma_pow_int_mono(a, b, (k - 1) as nat);
        lemma_pow_int_props(a, (k - 1) as nat);
        lemma_pow_int_props(b, (k - 1) as nat);
        let pa = spec_pow_int(a, (k - 1) as nat);
        let pb = spec_pow_int(b, (k - 1) as nat);
        assert(pa * a <= pb * b) by (nonlinear_arith)
            requires
                0 <= pa <= pb,
                0 <= a <= b,
        ;
        vstd::arithmetic::div_mod::lemma_div_is_ordered(pa * a, pb * b, 1000);
    }
}

/// The square-root chain is monotone in its base, on both
/// components.
proof fn lemma_pow_frac_mono(a: int, b: int, bits: int, j: nat)
    requires
        0 <= a <= b <= 1000,
        j <= 20,
    ensures
        spec_pow_frac(a, bits, j).0 <= spec_pow_frac(b, bits, j).0,
        spec_pow_frac(a, bits, j).1 <= spec_pow_frac(b, bits, j).1,
    decreases j,
{
    if j > 0 {
        lemma_pow_frac_mono(a, b, bits, (j - 1) as nat);
        lemma_pow_frac_props(a, bits, (j - 1) as nat);
        lemma_pow_frac_props(b, bits, (j - 1) as nat);
        let pa = spec_pow_frac(a, bits, (j - 1) as nat);
        let pb = spec_pow_frac(b, bits, (j - 1) as nat);
        lemma_isqrt_mono(pa.0 * 1000, pb.0 * 1000);
        lemma_isqrt_exists(pa.0 * 1000);
        lemma_isqrt_exists(pb.0 * 1000);
        let sa = spec_isqrt(pa.0 * 1000);
        let sb = spec_isqrt(pb.0 * 1000);
        assert(sa <= 1000 && sb <= 1000) by (nonlinear_arith)
            requires
                0 <= sa,
                0 <= sb,
                sa * sa <= pa.0 * 1000,
                sb * sb <= pb.0 * 1000,
                pa.0 <= 1000,
                pb.0 <= 1000,
        ;
        assert(pa.1 * sa <= pb.1 * sb) by (nonlinear_arith)
            requires
                0 <= pa.1 <= pb.1,
                0 <= sa <= sb,
        ;
        vstd::arithmetic::div_mod::lemma_div_is_ordered(pa.1 * sa, pb.1 * sb, 1000);
    }
}

/// The fixed-point power is monotone nondecreasing in its base.
pub proof fn lemma_fixed_pow_mono(a: int, b: int, e: int)
    requires
        0 <= a <= b <= 1000,
        1 <= e <= 200_000_000,
    ensures
        spec_fixed_pow(a, e) <= spec_fixed_pow(b, e),
{
    let k = e / 1_000_000;
    let f = e % 1_000_000;
    let bits = f * 1_048_576 / 1_000_000;
    vstd::arithmetic::div_mod::lemma_div_pos_is_pos(e, 1_000_000);
    lemma_pow_int_mono(a, b, k as nat);
    lemma_pow_int_props(a, k as nat);
    lemma_pow_int_props(b, k as nat);
    lemma_pow_frac_mono(a, b, bits, 20);
    lemma_pow_frac_props(a, bits, 20);
    lemma_pow_frac_props(b, bits, 20);
    let pa = spec_pow_int(a, k as nat);
    let pb = spec_pow_int(b, k as nat);
    let qa = spec_pow_frac(a, bits, 20).1;
    let qb = spec_pow_frac(b, bits, 20).1;
    assert(pa * qa <= pb * qb) by (nonlinear_arith)
        requires
            0 <= pa <= pb,
            0 <= qa <= qb,
    ;
    vstd::arithmetic::div_mod::lemma_div_is_ordered(pa * qa, pb * qb, 1000);
}

/// The exposure factor `2^(e / 1000)` in thousandths, approximated
/// piecewise linearly between consecutive whole stops.  Exact at
/// whole stops: `spec_exp2_milli(0) == 1000`, `spec_exp2_milli(1000)
/// == 2000`, `spec_exp2_milli(-1000) == 500`.
pub open spec fn spec_exp2_milli(e: int) -> int
    recommends
        -4000 <= e <= 4000,
{
    let k = e / 1000;
    let f = e % 1000;
    let factor = 1000 + f;
    if k == 4 {
        16000
    } else if k == 3 {
        8 * factor
    } else if k == 2 {
        4 * factor
    } else if k == 1 {
        2 * factor
    } else if k == 0 {
        factor
    } else if k == -1 {
        factor / 2
    } else if k == -2 {
        factor / 4
    } else if k == -3 {
        factor / 8
    } else {
        factor / 16
    }
}

/// Computes the exposure factor `2^(e / 1000)` in thousandths.
pub fn exp2_milli(e: i64) -> (r: i64)
    requires
        -4000 <= e <= 4000,
    ensures
        r == spec_exp2_milli(e as int),
        62 <= r <= 16000,
        e == 0 ==> r == 1000,
{
    let (k, f) = if e >= 0 {
        (e / 1000, e % 1000)
    } else {
        let m = -e;
        let km = m / 1000;
        let fm = m % 1000;
        if fm == 0 {
            (-km, 0i64)
        } else {
            proof {
                vstd::arithmetic::div_mod::lemma_fundamental_div_mod(m as int, 1000);
                vstd::arithmetic::div_mod::lemma_fundamental_div_mod_converse(
                    e as int,
                    1000,
                    -km - 1,
                    1000 - fm,
                );
            }
            (-km - 1, 1000 - fm)
        }
    };
    let factor = 1000 + f;
    if k == 4 {
        16000
    } else if k == 3 {
        8 * factor
    } else if k == 2 {
        4 * factor
    } else if k == 1 {
        2 * factor
    } else if k == 0 {
        factor
    } else if k == -1 {
        factor / 2
    } else if k == -2 {
        factor / 4
    } else if k == -3 {
        factor / 8
    } else {
        factor / 16
    }
}

} // verus!
