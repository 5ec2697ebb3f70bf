//! Doubles, as far as a limit or a status goes by them.

use crate::double::{doubled, halved, padded, round53, ulp, whole, EXACT, ONE_POINT_ONE, SCALE};
use crate::router::power;
use vstd::prelude::*;

verus! {

/// Halving so often divides by that power of two, and leaves out the rest.
pub proof fn halving_divides(n: nat, k: nat)
    ensures
        halved(n, k) * power(k) <= n,
        n < (halved(n, k) + 1) * power(k),
    decreases k,
{
    if k > 0 {
        let h = halved(n, k) as int;
        let p = power((k - 1) as nat) as int;
        halving_divides(n / 2, (k - 1) as nat);
        assert(h * (2 * p) == 2 * (h * p)) by (nonlinear_arith);
        assert((h + 1) * (2 * p) == 2 * ((h + 1) * p)) by (nonlinear_arith);
    } else {
        assert(power(0) == 1);
        assert(n * 1 == n && (n + 1) * 1 == n + 1) by (nonlinear_arith);
    }
}

/// Doubling so often multiplies by that power of two.
pub proof fn doubling_multiplies(n: nat, k: nat)
    ensures
        doubled(n, k) == n * power(k),
    decreases k,
{
    if k > 0 {
        let p = power((k - 1) as nat) as int;
        doubling_multiplies(2 * n, (k - 1) as nat);
        assert((2 * n) * p == n * (2 * p)) by (nonlinear_arith);
    } else {
        assert(n * power(0) == n) by (nonlinear_arith)
            requires
                power(0) == 1,
        ;
    }
}

/// The whole part of a double that is one or more: its 53 bits, shifted by its exponent.
/// Less than one, and anything negative, is none.
pub proof fn whole_parts_of_doubles(bits: u64, exponent: nat, fraction: nat)
    requires
        fraction < 4_503_599_627_370_496,
        exponent <= 2047,
        bits == exponent * 4_503_599_627_370_496 + fraction,
    ensures
        exponent < 1023 ==> whole(bits) == 0,
        1023 <= exponent < 1075 ==> {
            let shift = power((1075 - exponent) as nat);
            &&& whole(bits) * shift <= 4_503_599_627_370_496 + fraction
            &&& 4_503_599_627_370_496 + fraction < (whole(bits) + 1) * shift
        },
        1075 <= exponent < 1087 ==> whole(bits) == (4_503_599_627_370_496 + fraction) * power((exponent - 1075) as nat),
        1087 <= exponent < 2047 ==> whole(bits) == u64::MAX,
{
    assert(bits / 4_503_599_627_370_496 == exponent) by (nonlinear_arith)
        requires
            bits == exponent * 4_503_599_627_370_496 + fraction,
            fraction < 4_503_599_627_370_496,
    ;
    assert(bits % 4_503_599_627_370_496 == fraction) by (nonlinear_arith)
        requires
            bits == exponent * 4_503_599_627_370_496 + fraction,
            fraction < 4_503_599_627_370_496,
    ;
    let m = (4_503_599_627_370_496 + fraction) as nat;
    if 1023 <= exponent < 1075 {
        halving_divides(m, (1075 - exponent) as nat);
    } else if 1075 <= exponent < 1087 {
        doubling_multiplies(m, (exponent - 1075) as nat);
    }
}

proof fn lemma_ulp(x: nat)
    requires
        x >= 4_503_599_627_370_496,
    ensures
        ulp(x) >= 1,
        ulp(x) * 4_503_599_627_370_496 <= x,
    decreases x,
{
    if x >= EXACT {
        lemma_ulp(x / 2);
    }
}

/// Rounding to 53 bits keeps what has no more, and is off by less than one part in
/// 2^52 of any other.
pub proof fn rounding_is_close(x: nat)
    ensures
        x < 9_007_199_254_740_992 ==> round53(x) == x,
        (round53(x) - x) * 4_503_599_627_370_496 <= x,
        (x - round53(x)) * 4_503_599_627_370_496 <= x,
{
    if x < EXACT {
        let u = ulp(x);
        assert(u == 1);
        assert(x / u == x && x % u == 0 && x * u == x) by (nonlinear_arith)
            requires
                u == 1,
        ;
    } else {
        lemma_ulp(x);
        let u = ulp(x) as int;
        let q = x as int / u;
        let r = x as int % u;
        assert(x == q * u + r && 0 <= r < u) by (nonlinear_arith)
            requires
                u >= 1,
                q == x as int / u,
                r == x as int % u,
                x >= 0,
        ;
        assert((q + 1) * u == q * u + u) by (nonlinear_arith);
    }
}

/// A model fits a prompt where its context holds the prompt, a tenth more, and 2048 tokens
/// to spare; within a hundredth of the prompt either way.
pub proof fn prompts_have_room_to_spare(context: u64, tokens: u64)
    ensures
        context * SCALE >= padded(tokens) ==> 100 * context >= 109 * tokens + 204_700,
        100 * context >= 111 * tokens + 204_900 ==> context * SCALE >= padded(tokens),
{
    let t = tokens as nat;
    let s = SCALE as int;
    let a = round53(t) as int;
    rounding_is_close(t);
    let b0 = (a * ONE_POINT_ONE) as nat;
    assert(b0 >= 0 && a >= 0);
    let b = round53(b0) as int;
    rounding_is_close(b0);
    let c0 = (b + 2048 * SCALE) as nat;
    let c = round53(c0) as int;
    rounding_is_close(c0);
    assert(padded(tokens) == c);
}

} // verus!
