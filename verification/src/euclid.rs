//! The GCD engine: what a greatest common divisor is, and Euclid's way to it.

use vstd::arithmetic::div_mod::{
    lemma_fundamental_div_mod, lemma_mod_multiples_vanish, lemma_mod_pos_bound, lemma_mod_self_0,
    lemma_small_mod,
};
use vstd::prelude::*;

verus! {

/// `d` is a positive integer that divides both `n` and `m` without remainder.
pub open spec fn is_common_divisor(d: int, n: int, m: int) -> bool {
    d > 0 && n % d == 0 && m % d == 0
}

/// `g` is a common divisor of `n` and `m`, and no common divisor is larger.
pub open spec fn is_gcd(n: int, m: int, g: int) -> bool {
    &&& is_common_divisor(g, n, m)
    &&& forall|d: int| #[trigger] is_common_divisor(d, n, m) ==> d <= g
}

/// The greatest common divisor of `n` and `m`. It is meaningful where
/// both are positive: `gcd_is_greatest_common_divisor` shows that the pair
/// then has a greatest common divisor, and `gcd_is_unique` that it has one only.
pub open spec fn gcd_of(n: int, m: int) -> int {
    choose|g: int| is_gcd(n, m, g)
}

/// The common divisors of `a` and `b` are those of `a` and `b % a`.
pub proof fn remainder_keeps_common_divisors(d: int, a: int, b: int)
    requires
        a > 0,
        b >= 0,
    ensures
        is_common_divisor(d, a, b) <==> is_common_divisor(d, a, b % a),
{
    if d > 0 && a % d == 0 {
        let q = b / a;
        let k = a / d;
        lemma_fundamental_div_mod(b, a);
        lemma_fundamental_div_mod(a, d);
        assert(b == (d * k) * q + b % a);
        assert((d * k) * q == d * (k * q)) by (nonlinear_arith);
        lemma_mod_multiples_vanish(k * q, b % a, d);
    }
}

/// The common divisors of a positive `n` and zero are the divisors of `n`,
/// and `n` is the greatest of them.
pub proof fn gcd_with_zero(n: int)
    requires
        n > 0,
    ensures
        is_gcd(n, 0, n),
        forall|d: int| #[trigger] is_common_divisor(d, n, 0) <==> d > 0 && n % d == 0,
{
    assert forall|d: int| #[trigger] is_common_divisor(d, n, 0) <==> d > 0 && n % d == 0 by {
        if d > 0 {
            lemma_small_mod(0, d as nat);
        }
    }
    assert forall|d: int| #[trigger] is_common_divisor(d, n, 0) implies d <= n by {
        if d > n {
            lemma_small_mod(n as nat, d as nat);
        }
    }
    lemma_mod_self_0(n);
}

/// Two greatest common divisors of the same pair are the same number.
pub proof fn gcd_is_unique(n: int, m: int, g1: int, g2: int)
    requires
        is_gcd(n, m, g1),
        is_gcd(n, m, g2),
    ensures
        g1 == g2,
{
}

/// A pair with a positive first member has a greatest common divisor, and
/// its divisors are exactly the common divisors of the pair.
proof fn euclid_witness(n: int, m: int) -> (g: int)
    requires
        n > 0,
        m >= 0,
    ensures
        is_gcd(n, m, g),
        forall|d: int| #[trigger] is_common_divisor(d, n, m) <==> d > 0 && g % d == 0,
    decreases m,
{
    if m == 0 {
        gcd_with_zero(n);
        n
    } else {
        lemma_mod_pos_bound(n, m);
        let g = euclid_witness(m, n % m);
        assert forall|d: int| #[trigger]
            is_common_divisor(d, n, m) <==> is_common_divisor(d, m, n % m) by {
            remainder_keeps_common_divisors(d, m, n);
        }
        g
    }
}

/// Every pair of positive integers has a greatest common divisor, and
/// `gcd_of` names it: it divides both evenly and no common divisor is larger.
pub proof fn gcd_is_greatest_common_divisor(n: int, m: int)
    requires
        n > 0,
        m > 0,
    ensures
        is_gcd(n, m, gcd_of(n, m)),
{
    let g = euclid_witness(n, m);
    assert(is_gcd(n, m, g));
}

/// The greatest common divisor of two positive integers is positive and
/// at most the smaller of the two.
pub proof fn gcd_is_at_most_both(n: int, m: int)
    requires
        n > 0,
        m > 0,
    ensures
        0 < gcd_of(n, m) <= n,
        gcd_of(n, m) <= m,
{
    let g = gcd_of(n, m);
    gcd_is_greatest_common_divisor(n, m);
    if g > n {
        lemma_small_mod(n as nat, g as nat);
    }
    if g > m {
        lemma_small_mod(m as nat, g as nat);
    }
}

/// Every common divisor of two positive integers divides their greatest
/// common divisor, and every divisor of it is a common divisor.
pub proof fn gcd_collects_common_divisors(n: int, m: int, d: int)
    requires
        n > 0,
        m > 0,
    ensures
        is_common_divisor(d, n, m) <==> d > 0 && gcd_of(n, m) % d == 0,
{
    let g = euclid_witness(n, m);
    gcd_is_greatest_common_divisor(n, m);
    gcd_is_unique(n, m, g, gcd_of(n, m));
}

/// The order of the two arguments does not matter.
pub proof fn gcd_is_commutative(n: int, m: int)
    requires
        n > 0,
        m > 0,
    ensures
        gcd_of(n, m) == gcd_of(m, n),
{
    gcd_is_greatest_common_divisor(n, m);
    gcd_is_greatest_common_divisor(m, n);
    let g = gcd_of(m, n);
    assert forall|d: int| #[trigger] is_common_divisor(d, n, m) implies d <= g by {
        assert(is_common_divisor(d, m, n));
    }
    gcd_is_unique(n, m, gcd_of(n, m), g);
}

/// A positive integer is its own greatest common divisor with itself.
pub proof fn gcd_of_equal_arguments(n: int)
    requires
        n > 0,
    ensures
        gcd_of(n, n) == n,
{
    gcd_with_zero(n);
    assert forall|d: int| #[trigger] is_common_divisor(d, n, n) implies d <= n by {
        assert(is_common_divisor(d, n, 0));
    }
    gcd_is_greatest_common_divisor(n, n);
    gcd_is_unique(n, n, n, gcd_of(n, n));
}

/// Computes the greatest common divisor of two positive integers by
/// repeated remainders: the smaller of the two divides the larger, the
/// remainder takes the larger one's place, and when nothing remains the
/// divisor is the answer. The answer depends on the two numbers alone, and
/// not on their order.
pub fn gcd(n: u64, m: u64) -> (g: u64)
    requires
        n != 0,
        m != 0,
    ensures
        g == gcd_of(n as int, m as int),
        is_gcd(n as int, m as int, g as int),
        0 < g <= n,
        g <= m,
{
    let mut a: u64 = n;
    let mut b: u64 = m;
    while b != 0
        invariant
            a > 0,
            forall|d: int| #[trigger]
                is_common_divisor(d, n as int, m as int) <==> is_common_divisor(
                    d,
                    a as int,
                    b as int,
                ),
        decreases b,
    {
        if b < a {
            let t: u64 = b;
            b = a;
            a = t;
        }
        proof {
            assert forall|d: int| #[trigger]
                is_common_divisor(d, n as int, m as int) <==> is_common_divisor(
                    d,
                    a as int,
                    (b % a) as int,
                ) by {
                remainder_keeps_common_divisors(d, a as int, b as int);
            }
        }
        b = b % a;
    }
    proof {
        gcd_with_zero(a as int);
        assert(is_common_divisor(a as int, n as int, m as int));
        gcd_is_greatest_common_divisor(n as int, m as int);
        gcd_is_unique(n as int, m as int, a as int, gcd_of(n as int, m as int));
        gcd_is_at_most_both(n as int, m as int);
    }
    a
}

} // verus!
