//! Greatest common divisor of two positive integers by Euclid's algorithm.
use vstd::arithmetic::div_mod::{lemma_fundamental_div_mod, lemma_mod_multiples_vanish};
use vstd::prelude::*;

verus! {

/// `d` is a positive number that leaves no remainder when dividing `x`.
pub open spec fn divides(d: int, x: int) -> bool {
    d > 0 && x % d == 0
}

/// `g` divides both `a` and `b`, and no common divisor of them exceeds it.
pub open spec fn is_gcd(a: int, b: int, g: int) -> bool {
    &&& divides(g, a)
    &&& divides(g, b)
    &&& forall|d: int| #[trigger] divides(d, a) && divides(d, b) ==> d <= g
}

/// The greatest common divisor, by the recurrence gcd(a, 0) = a,
/// gcd(a, b) = gcd(b, a mod b).
pub open spec fn gcd_spec(a: nat, b: nat) -> nat
    decreases b,
{
    if b == 0 {
        a
    } else {
        gcd_spec(b, a % b)
    }
}

/// For a positive `n` and a positive divisor `d` of `n`, `d` divides `m`
/// exactly when it divides `m % n`.
proof fn lemma_divides_mod(d: int, n: int, m: int)
    requires
        divides(d, n),
        n > 0,
    ensures
        divides(d, m) <==> divides(d, m % n),
{
    let q = m / n;
    let j = n / d;
    lemma_fundamental_div_mod(m, n);
    lemma_fundamental_div_mod(n, d);
    assert(n * q == d * (j * q)) by (nonlinear_arith)
        requires
            n == d * j + 0,
    ;
    lemma_mod_multiples_vanish(j * q, m % n, d);
}

/// Two numbers have the same common divisors as the smaller of them and the
/// remainder of the larger by it.
proof fn lemma_common_divisors_step(n: int, m: int, d: int)
    requires
        n > 0,
    ensures
        divides(d, n) && divides(d, m) <==> divides(d, n) && divides(d, m % n),
{
    if divides(d, n) {
        lemma_divides_mod(d, n, m);
    }
}

/// A positive number that divides another positive number is no larger.
proof fn lemma_divisor_bound(d: int, x: int)
    requires
        divides(d, x),
        x > 0,
    ensures
        d <= x,
{
    lemma_fundamental_div_mod(x, d);
    assert(d <= x) by (nonlinear_arith)
        requires
            x == d * (x / d),
            x > 0,
            d > 0,
    ;
}

/// A pair of numbers has at most one greatest common divisor.
proof fn lemma_gcd_unique(a: int, b: int, g1: int, g2: int)
    requires
        is_gcd(a, b, g1),
        is_gcd(a, b, g2),
    ensures
        g1 == g2,
{
    assert(g1 <= g2);
    assert(g2 <= g1);
}

/// Euclid's recurrence yields the greatest common divisor of two numbers that
/// are not both zero.
pub proof fn lemma_gcd_spec_is_gcd(a: nat, b: nat)
    requires
        a > 0 || b > 0,
    ensures
        is_gcd(a as int, b as int, gcd_spec(a, b) as int),
    decreases b,
{
    if b == 0 {
        assert(divides(a as int, 0));
        assert forall|d: int| #[trigger] divides(d, a as int) && divides(d, b as int) implies d
            <= a by {
            lemma_divisor_bound(d, a as int);
        }
    } else {
        lemma_gcd_spec_is_gcd(b, a % b);
        let g = gcd_spec(b, a % b) as int;
        lemma_divides_mod(g, b as int, a as int);
        assert forall|d: int| #[trigger] divides(d, a as int) && divides(d, b as int) implies d
            <= g by {
            lemma_common_divisors_step(b as int, a as int, d);
        }
    }
}

/// Swapping the arguments does not change the greatest common divisor.
pub proof fn lemma_gcd_commutative(a: nat, b: nat)
    requires
        a > 0,
        b > 0,
    ensures
        gcd_spec(a, b) == gcd_spec(b, a),
{
    lemma_gcd_spec_is_gcd(a, b);
    lemma_gcd_spec_is_gcd(b, a);
    lemma_gcd_unique(a as int, b as int, gcd_spec(a, b) as int, gcd_spec(b, a) as int);
}

/// The greatest common divisor of a positive number with itself is that number.
pub proof fn lemma_gcd_self(a: nat)
    requires
        a > 0,
    ensures
        gcd_spec(a, a) == a,
{
    assert(a % a == 0) by (nonlinear_arith)
        requires
            a > 0,
    ;
    assert(gcd_spec(a, a) == gcd_spec(a, 0));
}

/// The result divides both positive arguments, and every common divisor of
/// them is at most the result.
pub proof fn lemma_gcd_divides_and_is_greatest(a: nat, b: nat)
    requires
        a > 0,
        b > 0,
    ensures
        a % gcd_spec(a, b) == 0,
        b % gcd_spec(a, b) == 0,
        forall|d: int|
            d > 0 && #[trigger] ((a as int) % d) == 0 && (b as int) % d == 0 ==> d <= gcd_spec(a, b),
{
    lemma_gcd_spec_is_gcd(a, b);
    assert forall|d: int| d > 0 && #[trigger] ((a as int) % d) == 0 && (b as int) % d == 0 implies d <= gcd_spec(
        a,
        b,
    ) by {
        assert(divides(d, a as int) && divides(d, b as int));
    }
}

/// Greatest common divisor of two positive integers, by repeatedly replacing
/// the larger of the pair with its remainder by the smaller.
pub fn gcd(n: u64, m: u64) -> (r: u64)
    requires
        n != 0,
        m != 0,
    ensures
        r == gcd_spec(n as nat, m as nat),
        r > 0,
        n % r == 0,
        m % r == 0,
        forall|d: int| d > 0 && #[trigger] ((n as int) % d) == 0 && (m as int) % d == 0 ==> d <= r,
{
    let mut a = n;
    let mut b = m;
    while b != 0
        invariant
            a > 0,
            forall|d: int|
                (#[trigger] divides(d, a as int) && divides(d, b as int)) <==> (divides(
                    d,
                    n as int,
                ) && divides(d, m as int)),
        decreases b,
    {
        if b < a {
            let t = b;
            b = a;
            a = t;
        }
        let ghost before = b;
        b = b % a;
        assert forall|d: int|
            (#[trigger] divides(d, a as int) && divides(d, b as int)) <==> (divides(
                d,
                n as int,
            ) && divides(d, m as int)) by {
            lemma_common_divisors_step(a as int, before as int, d);
        }
    }
    proof {
        assert(divides(a as int, a as int)) by (nonlinear_arith)
            requires
                a > 0,
        ;
        assert(divides(a as int, n as int) && divides(a as int, m as int));
        assert forall|d: int| divides(d, n as int) && divides(d, m as int) implies d <= a by {
            assert(divides(d, a as int));
            lemma_divisor_bound(d, a as int);
        }
        lemma_gcd_spec_is_gcd(n as nat, m as nat);
        lemma_gcd_unique(n as int, m as int, a as int, gcd_spec(n as nat, m as nat) as int);
        assert forall|d: int| d > 0 && #[trigger] ((n as int) % d) == 0 && (m as int) % d == 0 implies d <= a by {
            assert(divides(d, n as int) && divides(d, m as int));
        }
    }
    a
}

} // verus!
