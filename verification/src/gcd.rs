//! Greatest common divisors by Euclid's algorithm, with a full
//! characterization: the result is a common divisor that every common
//! divisor divides.

use vstd::prelude::*;
use vstd::arithmetic::div_mod::{
    lemma_fundamental_div_mod, lemma_mod_multiples_basic, lemma_mod_multiples_vanish,
    lemma_mod_self_0, lemma_small_mod,
};

verus! {

/// `d` divides `n`: `n` is a multiple of `d`.
pub open spec fn divides(d: int, n: int) -> bool
    recommends
        d > 0,
{
    n % d == 0
}

/// Reducing the larger argument modulo the smaller one keeps the set of
/// common divisors: for `d, n > 0`, `d` divides both `n` and `m` exactly
/// when it divides both `n` and `m % n`.
proof fn lemma_common_divisors_mod(d: int, n: int, m: int)
    requires
        d > 0,
        n > 0,
        m >= 0,
    ensures
        (divides(d, n) && divides(d, m)) <==> (divides(d, n) && divides(d, m % n)),
{
    if divides(d, n) {
        lemma_fundamental_div_mod(m, n);
        lemma_fundamental_div_mod(n, d);
        let q = n / d;
        let k = m / n;
        let r = m % n;
        assert(m == d * (q * k) + r) by (nonlinear_arith)
            requires
                n == d * q,
                m == n * k + r,
        ;
        lemma_mod_multiples_vanish(q * k, r, d);
    }
}

/// A positive divisor of a positive number is no larger than it.
proof fn lemma_divides_le(d: int, n: int)
    requires
        d > 0,
        n > 0,
        divides(d, n),
    ensures
        d <= n,
{
    lemma_fundamental_div_mod(n, d);
    let q = n / d;
    assert(q <= 0 ==> d * q <= 0) by (nonlinear_arith)
        requires
            d > 0,
    ;
    assert(q >= 1 ==> d * q >= d) by (nonlinear_arith)
        requires
            d > 0,
    ;
}

/// Divisibility is transitive: if `d` divides `e` and `e` divides `n`,
/// then `d` divides `n`.
proof fn lemma_divides_transitive(d: int, e: int, n: int)
    requires
        d > 0,
        e > 0,
        divides(d, e),
        divides(e, n),
    ensures
        divides(d, n),
{
    lemma_fundamental_div_mod(e, d);
    lemma_fundamental_div_mod(n, e);
    let q = e / d;
    let k = n / e;
    assert(n == (q * k) * d) by (nonlinear_arith)
        requires
            e == d * q,
            n == e * k,
    ;
    lemma_mod_multiples_basic(q * k, d);
}

/// The greatest common divisor of two nonzero numbers: the result divides
/// both arguments, and every common divisor of the arguments divides the
/// result (hence is no larger than it).
pub fn gcd(n: u64, m: u64) -> (g: u64)
    requires
        n != 0,
        m != 0,
    ensures
        g != 0,
        divides(g as int, n as int),
        divides(g as int, m as int),
        forall|d: int|
            1 <= d && divides(d, n as int) && divides(d, m as int) ==> #[trigger] divides(
                d,
                g as int,
            ),
        forall|d: int|
            1 <= d && #[trigger] divides(d, n as int) && divides(d, m as int) ==> d <= g,
{
    let ghost orig_n = n as int;
    let ghost orig_m = m as int;
    let mut n = n;
    let mut m = m;
    while m != 0
        invariant
            n > 0,
            forall|d: int|
                1 <= d ==> ((#[trigger] divides(d, n as int) && divides(d, m as int)) <==> (
                divides(d, orig_n) && divides(d, orig_m))),
        decreases m,
    {
        let ghost en = n as int;
        let ghost em = m as int;
        if m < n {
            let t = m;
            m = n;
            n = t;
        }
        let ghost pre_n = n as int;
        let ghost pre_m = m as int;
        m = m % n;
        proof {
            assert(m as int == pre_m % pre_n);
            assert forall|d: int| 1 <= d implies ((#[trigger] divides(d, n as int) && divides(
                d,
                m as int,
            )) <==> (divides(d, orig_n) && divides(d, orig_m))) by {
                lemma_common_divisors_mod(d, pre_n, pre_m);
                assert((divides(d, en) && divides(d, em)) <==> (divides(d, orig_n) && divides(
                    d,
                    orig_m,
                )));
                assert((divides(d, pre_n) && divides(d, pre_m)) <==> (divides(d, en) && divides(
                    d,
                    em,
                )));
                assert(divides(d, m as int) == divides(d, pre_m % pre_n));
            }
        }
    }
    proof {
        lemma_mod_self_0(n as int);
        lemma_small_mod(0, n as nat);
        assert(divides(n as int, n as int) && divides(n as int, m as int));
        assert forall|d: int|
            1 <= d && #[trigger] divides(d, orig_n) && divides(d, orig_m) implies d <= n by {
            lemma_small_mod(0, d as nat);
            assert(divides(d, n as int));
            lemma_divides_le(d, n as int);
        }
    }
    n
}

/// The greatest common divisor of every element of a nonempty list of
/// nonzero numbers: a positive integer divides the result exactly when it
/// divides every element.
pub fn gcd_all(numbers: &Vec<u64>) -> (g: u64)
    requires
        numbers@.len() >= 1,
        forall|i: int| 0 <= i < numbers@.len() ==> numbers@[i] != 0,
    ensures
        g != 0,
        forall|i: int| 0 <= i < numbers@.len() ==> divides(g as int, #[trigger] numbers@[i] as int),
        forall|d: int|
            1 <= d ==> (#[trigger] divides(d, g as int) <==> (forall|i: int|
                0 <= i < numbers@.len() ==> divides(d, #[trigger] numbers@[i] as int))),
{
    let mut g = numbers[0];
    let mut idx: usize = 1;
    proof {
        lemma_mod_self_0(g as int);
    }
    while idx < numbers.len()
        invariant
            1 <= idx <= numbers@.len(),
            g != 0,
            forall|i: int| 0 <= i < numbers@.len() ==> numbers@[i] != 0,
            forall|d: int|
                1 <= d ==> (#[trigger] divides(d, g as int) <==> (forall|i: int|
                    0 <= i < idx ==> divides(d, #[trigger] numbers@[i] as int))),
        decreases numbers@.len() - idx,
    {
        let x = numbers[idx];
        let g2 = gcd(g, x);
        proof {
            assert forall|d: int| 1 <= d implies (#[trigger] divides(d, g2 as int) <==> (
            forall|i: int| 0 <= i < idx + 1 ==> divides(d, #[trigger] numbers@[i] as int))) by {
                if divides(d, g2 as int) {
                    lemma_divides_transitive(d, g2 as int, g as int);
                    lemma_divides_transitive(d, g2 as int, x as int);
                    assert(forall|i: int|
                        0 <= i < idx ==> divides(d, #[trigger] numbers@[i] as int));
                    assert(numbers@[idx as int] == x);
                } else {
                    if forall|i: int| 0 <= i < idx + 1 ==> divides(d, #[trigger] numbers@[i] as int) {
                        assert(divides(d, g as int));
                        assert(divides(d, x as int));
                        assert(divides(d, g2 as int));
                    }
                }
            }
        }
        g = g2;
        idx = idx + 1;
    }
    proof {
        lemma_mod_self_0(g as int);
        assert(divides(g as int, g as int));
        assert forall|i: int| 0 <= i < numbers@.len() implies divides(
            g as int,
            #[trigger] numbers@[i] as int,
        ) by {
            assert(divides(g as int, g as int));
        }
    }
    g
}

/// The decision made for a pair of submitted numbers: reject a pair with a
/// zero, otherwise compute the greatest common divisor.
pub fn checked_gcd(m: u64, n: u64) -> (r: Option<u64>)
    ensures
        r is Some <==> (m != 0 && n != 0),
        r matches Some(g) ==> g != 0 && divides(g as int, m as int) && divides(g as int, n as int)
            && (forall|d: int|
            1 <= d && divides(d, m as int) && divides(d, n as int) ==> #[trigger] divides(
                d,
                g as int,
            )),
{
    if m == 0 || n == 0 {
        None
    } else {
        Some(gcd(m, n))
    }
}

} // verus!
