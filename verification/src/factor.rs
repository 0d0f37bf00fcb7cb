//! Factoring one integer by trial division.

use vstd::prelude::*;
use crate::arith::{
    all_prime, divides, is_prime_number, lemma_divides_quotient, lemma_divides_trans,
    lemma_multiple_divides, lemma_product_push, nondecreasing, product,
};

verus! {

/// The absolute value of `n`.
pub open spec fn magnitude(n: int) -> int {
    if n < 0 {
        -n
    } else {
        n
    }
}

/// `s` lists the prime factors of `m`, smallest first, each as often as it
/// divides `m`.
pub open spec fn prime_factors_of(s: Seq<i64>, m: int) -> bool {
    &&& all_prime(s)
    &&& nondecreasing(s)
    &&& product(s) == m
}

/// `s` is what a factorizer answers for a number of magnitude `m`, the sign
/// left aside: the number itself where it is 0 or 1, its prime factors in
/// ascending order otherwise.
pub open spec fn magnitude_factors(s: Seq<i64>, m: int) -> bool {
    if m < 2 {
        s.len() == 1 && s[0] == m
    } else {
        prime_factors_of(s, m)
    }
}

/// `s` is the factor sequence of `n`: a leading -1 exactly when `n` is
/// negative, followed by the factors of the magnitude of `n`.
pub open spec fn factorization_of(s: Seq<i64>, n: int) -> bool {
    if n < 0 {
        &&& s.len() >= 1
        &&& s[0] == -1
        &&& magnitude_factors(s.subrange(1, s.len() as int), -n)
    } else {
        magnitude_factors(s, n)
    }
}

/// Something that decomposes an integer into factors.
pub trait Factorizer {
    /// Returns the factor sequence of `number`.
    fn factorize(&self, number: i64) -> (factors: Vec<i64>)
        ensures
            factorization_of(factors@, number as int),
            product(factors@) == number,
    ;
}

/// One division step keeps the factors collected so far a sorted list of
/// primes whose product, times what is left, is the number being factored;
/// and no candidate below `x` divides the quotient either.
proof fn lemma_divide_step(body: Seq<i64>, x: i64, rest: int, whole: int)
    requires
        2 <= x,
        rest >= 1,
        divides(x as int, rest),
        forall|d: int| 2 <= d < x ==> !#[trigger] divides(d, rest),
        all_prime(body),
        nondecreasing(body),
        forall|i: int| 0 <= i < body.len() ==> #[trigger] body[i] <= x,
        product(body) * rest == whole,
    ensures
        1 <= rest / (x as int) < rest,
        all_prime(body.push(x)),
        nondecreasing(body.push(x)),
        product(body.push(x)) * (rest / (x as int)) == whole,
        forall|d: int| 2 <= d < x ==> !#[trigger] divides(d, rest / (x as int)),
{
    let xi = x as int;
    let q = rest / xi;
    lemma_divides_quotient(xi, rest);
    assert(1 <= q < rest) by (nonlinear_arith)
        requires
            rest == xi * q,
            rest >= 1,
            xi >= 2,
    ;
    assert forall|d: int| 2 <= d < xi implies !#[trigger] divides(d, xi) by {
        if divides(d, xi) {
            lemma_divides_trans(d, xi, rest);
        }
    }
    assert(is_prime_number(xi));
    assert forall|d: int| 2 <= d < xi implies !#[trigger] divides(d, q) by {
        if divides(d, q) {
            assert(rest == q * xi) by (nonlinear_arith)
                requires
                    rest == xi * q,
            ;
            lemma_multiple_divides(q, xi);
            if q > 0 {
                lemma_divides_trans(d, q, rest);
            }
        }
    }
    let grown = body.push(x);
    assert forall|i: int| 0 <= i < grown.len() implies is_prime_number(
        #[trigger] grown[i] as int,
    ) by {
        if i < body.len() {
            assert(grown[i] == body[i]);
        }
    }
    assert forall|i: int, j: int| 0 <= i <= j < grown.len() implies grown[i] <= grown[j] by {
        if j < body.len() {
            assert(grown[i] == body[i] && grown[j] == body[j]);
        } else if i < body.len() {
            assert(grown[i] == body[i]);
        }
    }
    lemma_product_push(body, x);
    assert(product(grown) * q == whole) by (nonlinear_arith)
        requires
            product(grown) == product(body) * xi,
            rest == xi * q,
            product(body) * rest == whole,
    ;
}

/// Factors by testing the candidates 2, 3, 4, ... in turn and dividing each
/// out as often as it goes.
pub struct TrialDivision();

impl Factorizer for TrialDivision {
    /// Works on the magnitude as an unsigned integer, so the smallest
    /// integer is factored like any other: -1 and then 63 times 2.
    fn factorize(&self, number: i64) -> (factors: Vec<i64>) {
        let mut factors: Vec<i64> = Vec::new();
        let mut rest: u64 = 0;
        if number < 0 {
            rest = (-(number as i128)) as u64;
            factors.push(-1);
        } else {
            rest = number as u64;
        }
        let ghost lead: int = if number < 0 { 1 } else { 0 };
        let ghost whole: int = magnitude(number as int);
        proof {
            assert(factors@.subrange(lead, lead) =~= Seq::<i64>::empty());
            if number < 0 {
                lemma_product_push(Seq::<i64>::empty(), -1i64);
                assert(factors@ =~= Seq::<i64>::empty().push(-1i64));
            }
        }
        if rest < 2 {
            proof {
                lemma_product_push(factors@, rest as i64);
                assert(product(factors@) * (rest as i64) == number) by (nonlinear_arith)
                    requires
                        rest == 0 || rest == 1,
                        number < 0 ==> product(factors@) == -1 && rest == -number,
                        number >= 0 ==> product(factors@) == 1 && rest == number,
                ;
            }
            factors.push(rest as i64);
            proof {
                let body = factors@.subrange(lead, factors@.len() as int);
                assert(body.len() == 1 && body[0] == rest);
            }
            return factors;
        }
        proof {
            assert(product(factors@) * rest == number) by (nonlinear_arith)
                requires
                    number < 0 ==> product(factors@) == -1 && rest == -number,
                    number >= 0 ==> product(factors@) == 1 && rest == number,
            ;
            assert(product(Seq::<i64>::empty()) * rest == whole) by (nonlinear_arith)
                requires
                    product(Seq::<i64>::empty()) == 1,
                    rest == whole,
            ;
        }
        let mut x: u64 = 2;
        while rest >= x
            invariant
                2 <= x <= i64::MAX,
                1 <= rest <= i64::MAX + 1,
                whole >= 2,
                whole == magnitude(number as int),
                rest <= i64::MAX || x == 2,
                lead == (if number < 0 { 1int } else { 0int }),
                lead <= factors@.len(),
                number < 0 ==> factors@[0] == -1,
                product(factors@) * rest == number,
                product(factors@.subrange(lead, factors@.len() as int)) * rest == whole,
                all_prime(factors@.subrange(lead, factors@.len() as int)),
                nondecreasing(factors@.subrange(lead, factors@.len() as int)),
                forall|i: int|
                    0 <= i < factors@.len() - lead ==> #[trigger] factors@.subrange(
                        lead,
                        factors@.len() as int,
                    )[i] <= x,
                forall|d: int| 2 <= d < x ==> !#[trigger] divides(d, rest as int),
            decreases rest, rest - x,
        {
            let q: u64 = rest / x;
            let r: u64 = rest % x;
            if r == 0 {
                proof {
                    let body = factors@.subrange(lead, factors@.len() as int);
                    lemma_divide_step(body, x as i64, rest as int, whole);
                    lemma_product_push(factors@, x as i64);
                    lemma_divides_quotient(x as int, rest as int);
                    assert(product(factors@.push(x as i64)) * (rest as int / x as int) == number)
                        by (nonlinear_arith)
                        requires
                            product(factors@.push(x as i64)) == product(factors@) * (x as int),
                            rest as int == (x as int) * (rest as int / x as int),
                            product(factors@) * rest == number,
                    ;
                    assert(factors@.push(x as i64).subrange(lead, factors@.len() as int + 1)
                        =~= body.push(x as i64));
                }
                factors.push(x as i64);
                rest = q;
            } else {
                proof {
                    vstd::arithmetic::div_mod::lemma_mod_self_0(x as int);
                }
                x += 1;
            }
        }
        proof {
            if rest >= 2 {
                vstd::arithmetic::div_mod::lemma_mod_self_0(rest as int);
                assert(divides(rest as int, rest as int));
            }
            assert(rest == 1);
            let body = factors@.subrange(lead, factors@.len() as int);
            if number >= 0 {
                assert(body =~= factors@);
            }
        }
        factors
    }
}

} // verus!
