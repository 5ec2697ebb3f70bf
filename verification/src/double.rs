//! What double-precision arithmetic makes of a few whole-number questions,
//! answered with integers.

use vstd::prelude::*;

verus! {

/// 2^53: from here on a double no longer holds every whole number.
pub const EXACT: u128 = 9_007_199_254_740_992;

/// 2^52
pub const SCALE: u128 = 4_503_599_627_370_496;

/// The double nearest to 1.1, in units of 2^-52.
pub const ONE_POINT_ONE: u128 = 4_953_959_590_107_546;

/// The distance between neighbouring 53-bit numbers around `x`.
pub open spec fn ulp(x: nat) -> nat
    decreases x,
{
    if x < EXACT {
        1
    } else {
        2 * ulp(x / 2)
    }
}

/// `x` rounded to 53 significant bits, to the nearest, ties to the even one.
pub open spec fn round53(x: nat) -> nat {
    let u = ulp(x);
    let q = x / u;
    let r = x % u;
    if 2 * r > u || (2 * r == u && q % 2 == 1) {
        (q + 1) * u
    } else {
        q * u
    }
}

/// `tokens * 1.1 + 2048.0` on doubles, in units of 2^-52.
pub open spec fn padded(tokens: u64) -> nat {
    round53(round53(round53(tokens as nat) * ONE_POINT_ONE as nat) + 2048 * SCALE as nat)
}

proof fn lemma_ulp(x: nat)
    ensures
        ulp(x) >= 1,
        x < EXACT ==> ulp(x) == 1,
        x >= EXACT ==> ulp(x) * 0x10_0000_0000_0000 <= x,
        x < ulp(x) * EXACT,
    decreases x,
{
    if x >= EXACT {
        lemma_ulp(x / 2);
        let h = ulp(x / 2);
        if x / 2 < EXACT {
            assert(h == 1);
        }
        assert((2 * h) * 0x10_0000_0000_0000 == 2 * (h * 0x10_0000_0000_0000));
        assert((2 * h) * EXACT == 2 * (h * EXACT));
    }
}

proof fn lemma_ulp_double(x: nat, u: nat)
    requires
        u >= 1,
        x / u >= EXACT,
        ulp(x) == u * ulp(x / u),
    ensures
        ulp(x) == (2 * u) * ulp(x / (2 * u)),
        x / (2 * u) == x / u / 2,
{
    assert(x / (u * 2) == (x / u) / 2) by {
        vstd::arithmetic::div_mod::lemma_div_denominator(x as int, u as int, 2);
    }
    assert(u * 2 == 2 * u);
    let q = x / u;
    assert(ulp(q) == 2 * ulp(q / 2));
    assert(u * (2 * ulp(q / 2)) == (2 * u) * ulp(q / 2)) by (nonlinear_arith);
}

proof fn lemma_round_bound(x: nat)
    ensures
        round53(x) <= x + x,
        round53(x) <= x + ulp(x),
{
    lemma_ulp(x);
    let u = ulp(x);
    vstd::arithmetic::div_mod::lemma_fundamental_div_mod(x as int, u as int);
    assert((x / u + 1) * u == u * (x / u) + u) by (nonlinear_arith)
        requires
            u >= 1,
    ;
    assert((x / u) * u == u * (x / u)) by (nonlinear_arith);
    if x < EXACT {
        assert(x % 1 == 0);
        assert(round53(x) == x);
    }
}

fn round(x: u128) -> (r: u128)
    requires
        x < 0x4000_0000_0000_0000_0000_0000_0000_0000,
    ensures
        r == round53(x as nat),
        r <= 2 * x,
{
    let mut u: u128 = 1;
    assert(x / 1 == x);
    while x / u >= EXACT
        invariant
            u >= 1,
            x < 0x4000_0000_0000_0000_0000_0000_0000_0000,
            ulp(x as nat) == u as nat * ulp((x / u) as nat),
        decreases x / u,
    {
        proof {
            lemma_ulp_double(x as nat, u as nat);
            vstd::arithmetic::div_mod::lemma_fundamental_div_mod(x as int, u as int);
            assert(u * (x / u) >= u * EXACT) by (nonlinear_arith)
                requires
                    x / u >= EXACT,
                    u >= 1,
            ;
        }
        u = 2 * u;
    }
    proof {
        lemma_ulp((x / u) as nat);
        lemma_round_bound(x as nat);
        lemma_ulp(x as nat);
        assert(ulp(x as nat) == u) by (nonlinear_arith)
            requires
                ulp(x as nat) == u as nat * ulp((x / u) as nat),
                ulp((x / u) as nat) == 1,
        ;
        assert(u <= x || x < EXACT);
        vstd::arithmetic::div_mod::lemma_fundamental_div_mod(x as int, u as int);
        assert((x / u + 1) * u == u * (x / u) + u) by (nonlinear_arith)
            requires
                u >= 1,
        ;
        assert((x / u) * u == u * (x / u)) by (nonlinear_arith);
    }
    let q = x / u;
    let r = x % u;
    if 2 * r > u || (2 * r == u && q % 2 == 1) {
        (q + 1) * u
    } else {
        q * u
    }
}

/// Whether a context window of `context` tokens is at least
/// `tokens * 1.1 + 2048.0`, reckoned on doubles. `context` itself must be a
/// whole number that a double holds.
pub fn context_fits(context: u64, tokens: u64) -> (b: bool)
    ensures
        b == (context * SCALE >= padded(tokens)),
{
    let t = round(tokens as u128);
    assert(t <= 2 * u64::MAX);
    assert(t * ONE_POINT_ONE <= 2 * u64::MAX * ONE_POINT_ONE) by (nonlinear_arith)
        requires
            t <= 2 * u64::MAX,
    ;
    let p = round(t * ONE_POINT_ONE);
    let s = round(p + 2048 * SCALE);
    assert(context * SCALE <= u64::MAX * SCALE) by (nonlinear_arith)
        requires
            context <= u64::MAX,
    ;
    context as u128 * SCALE >= s
}

/// `n` halved `k` times.
pub open spec fn halved(n: nat, k: nat) -> nat
    decreases k,
{
    if k == 0 {
        n
    } else {
        halved(n / 2, (k - 1) as nat)
    }
}

/// `n` doubled `k` times.
pub open spec fn doubled(n: nat, k: nat) -> nat
    decreases k,
{
    if k == 0 {
        n
    } else {
        doubled(2 * n, (k - 1) as nat)
    }
}

/// The whole part of the double with these bits, cut off at the range of `u64`.
/// A double that is negative or no number counts as zero.
pub open spec fn whole(bits: u64) -> nat {
    let negative = bits >= 0x8000_0000_0000_0000;
    let exponent = (bits / SCALE as u64) % 2048;
    let fraction = bits % SCALE as u64;
    let mantissa = (SCALE + fraction) as nat;
    if negative || exponent < 1023 || (exponent == 2047 && fraction != 0) {
        0
    } else if exponent >= 1087 {
        u64::MAX as nat
    } else if exponent >= 1075 {
        doubled(mantissa, (exponent - 1075) as nat)
    } else {
        halved(mantissa, (1075 - exponent) as nat)
    }
}

/// A double with exponent field `e` is the mantissa times 2^(e - 1075).
pub fn whole_of(bits: u64) -> (n: u64)
    ensures
        n == whole(bits),
{
    let scale: u64 = 4_503_599_627_370_496;
    let negative = bits >= 0x8000_0000_0000_0000;
    let exponent: u64 = (bits / scale) % 2048;
    let fraction: u64 = bits % scale;
    let mantissa: u64 = scale + fraction;
    if negative || exponent < 1023 || (exponent == 2047 && fraction != 0) {
        0
    } else if exponent >= 1087 {
        u64::MAX
    } else if exponent >= 1075 {
        let mut n: u64 = mantissa;
        let mut k: u64 = exponent - 1075;
        let ghost mut cap: int = 0x20_0000_0000_0000;
        proof {
            reveal_with_fuel(doubled, 12);
        }
        while k > 0
            invariant
                k <= 11,
                n < cap,
                cap >= 1,
                doubled(cap as nat, k as nat) <= 0x1_0000_0000_0000_0000,
                doubled(n as nat, k as nat) == doubled(mantissa as nat, (exponent - 1075) as nat),
            decreases k,
        {
            proof {
                lemma_doubled_grows((2 * cap) as nat, (k - 1) as nat);
                cap = 2 * cap;
            }
            n = 2 * n;
            k -= 1;
        }
        n
    } else {
        let mut n: u64 = mantissa;
        let mut k: u64 = 1075 - exponent;
        while k > 0
            invariant
                halved(n as nat, k as nat) == halved(mantissa as nat, (1075 - exponent) as nat),
            decreases k,
        {
            n = n / 2;
            k -= 1;
        }
        n
    }
}

proof fn lemma_doubled_grows(n: nat, k: nat)
    ensures
        doubled(n, k) >= n,
    decreases k,
{
    if k > 0 {
        lemma_doubled_grows(2 * n, (k - 1) as nat);
    }
}

} // verus!
