//! A number has one factor sequence only: two ascending sequences of primes
//! with the same product are the same sequence.

use vstd::prelude::*;
use vstd::arithmetic::div_mod::lemma_fundamental_div_mod;
use vstd::arithmetic::div_mod::lemma_mod_bound;
use vstd::arithmetic::div_mod::lemma_small_mod;
use crate::arith::{
    all_prime, divides, is_prime_number, lemma_divides_quotient, lemma_multiple_divides,
    lemma_product_first, nondecreasing, product,
};
use crate::factor::{factorization_of, magnitude_factors};

verus! {

/// A divisor of two numbers divides every combination `x - k * y` of them.
proof fn lemma_divides_combination(d: int, x: int, y: int, k: int)
    requires
        divides(d, x),
        divides(d, y),
    ensures
        divides(d, x - k * y),
{
    lemma_divides_quotient(d, x);
    lemma_divides_quotient(d, y);
    let m = x / d - k * (y / d);
    assert(x - k * y == d * m) by (nonlinear_arith)
        requires
            x == d * (x / d),
            y == d * (y / d),
            m == x / d - k * (y / d),
    ;
    lemma_multiple_divides(d, m);
}

/// A positive number that `d` divides is at least `d`.
proof fn lemma_divisor_at_most(d: int, n: int)
    requires
        divides(d, n),
        n > 0,
    ensures
        d <= n,
{
    if n < d {
        lemma_small_mod(n as nat, d as nat);
    }
}

/// A prime that divides a product of two natural numbers divides one of
/// them.
pub proof fn lemma_prime_divides_factor(p: int, a: int, b: int)
    requires
        is_prime_number(p),
        a >= 0,
        b >= 0,
        divides(p, a * b),
    ensures
        divides(p, a) || divides(p, b),
    decreases a,
{
    if a == 0 {
        assert(0int % p == 0);
    } else if a == 1 {
        assert(a * b == b) by (nonlinear_arith)
            requires
                a == 1,
        ;
    } else if a >= p {
        let r = a % p;
        let q = a / p;
        lemma_fundamental_div_mod(a, p);
        lemma_mod_bound(a, p);
        lemma_multiple_divides(p, b);
        lemma_divides_combination(p, a * b, p * b, q);
        assert(a * b - q * (p * b) == r * b) by (nonlinear_arith)
            requires
                a == p * q + r,
        ;
        lemma_prime_divides_factor(p, r, b);
        if divides(p, r) {
            lemma_divides_quotient(p, r);
            let m = q + r / p;
            assert(a == p * m) by (nonlinear_arith)
                requires
                    a == p * q + r,
                    r == p * (r / p),
                    m == q + r / p,
            ;
            lemma_multiple_divides(p, m);
        }
    } else {
        let r = p % a;
        let q = p / a;
        lemma_fundamental_div_mod(p, a);
        lemma_mod_bound(p, a);
        lemma_multiple_divides(p, b);
        lemma_divides_combination(p, p * b, a * b, q);
        assert(p * b - q * (a * b) == r * b) by (nonlinear_arith)
            requires
                p == a * q + r,
        ;
        lemma_prime_divides_factor(p, r, b);
        if divides(p, r) {
            if r > 0 {
                lemma_divisor_at_most(p, r);
            }
            assert(divides(a, p));
        }
    }
}

/// The product of a sequence of primes is at least 1, and at least 2 where
/// the sequence has an entry.
pub proof fn lemma_product_of_primes_positive(s: Seq<i64>)
    requires
        all_prime(s),
    ensures
        product(s) >= 1,
        s.len() > 0 ==> product(s) >= 2,
    decreases s.len(),
{
    if s.len() > 0 {
        let front = s.drop_last();
        assert forall|i: int| 0 <= i < front.len() implies is_prime_number(
            #[trigger] front[i] as int,
        ) by {
            assert(front[i] == s[i]);
        }
        lemma_product_of_primes_positive(front);
        assert(is_prime_number(s[s.len() - 1] as int));
        assert(product(front) * s.last() >= 2) by (nonlinear_arith)
            requires
                product(front) >= 1,
                s.last() >= 2,
        ;
    }
}

/// A prime that divides the product of a sequence of primes is one of them.
pub proof fn lemma_prime_in_product(p: int, s: Seq<i64>) -> (at: int)
    requires
        is_prime_number(p),
        all_prime(s),
        divides(p, product(s)),
    ensures
        0 <= at < s.len(),
        s[at] == p,
    decreases s.len(),
{
    if s.len() == 0 {
        lemma_divisor_at_most(p, 1);
        0
    } else {
        let front = s.drop_last();
        let last = s.last() as int;
        assert forall|i: int| 0 <= i < front.len() implies is_prime_number(
            #[trigger] front[i] as int,
        ) by {
            assert(front[i] == s[i]);
        }
        assert(is_prime_number(s[s.len() - 1] as int));
        lemma_product_of_primes_positive(front);
        lemma_prime_divides_factor(p, product(front), last);
        if divides(p, last) {
            lemma_divisor_at_most(p, last);
            assert(p == last);
            s.len() - 1
        } else {
            lemma_prime_in_product(p, front)
        }
    }
}

/// Two ascending sequences of primes with the same product are equal.
pub proof fn lemma_prime_factors_unique(s: Seq<i64>, t: Seq<i64>)
    requires
        all_prime(s),
        nondecreasing(s),
        all_prime(t),
        nondecreasing(t),
        product(s) == product(t),
    ensures
        s == t,
    decreases s.len(),
{
    lemma_product_of_primes_positive(s);
    lemma_product_of_primes_positive(t);
    if s.len() == 0 || t.len() == 0 {
        assert(s =~= t);
    } else {
        let p = s.last() as int;
        let q = t.last() as int;
        let s_front = s.drop_last();
        let t_front = t.drop_last();
        assert(is_prime_number(s[s.len() - 1] as int));
        assert(is_prime_number(t[t.len() - 1] as int));
        assert(product(s) == p * product(s_front)) by (nonlinear_arith)
            requires
                product(s) == product(s_front) * p,
        ;
        assert(product(t) == q * product(t_front)) by (nonlinear_arith)
            requires
                product(t) == product(t_front) * q,
        ;
        lemma_multiple_divides(p, product(s_front));
        lemma_multiple_divides(q, product(t_front));
        let i = lemma_prime_in_product(p, t);
        let j = lemma_prime_in_product(q, s);
        assert(t[i] <= t[t.len() - 1]);
        assert(s[j] <= s[s.len() - 1]);
        assert(p == q);
        assert(product(s_front) == product(t_front)) by (nonlinear_arith)
            requires
                p * product(s_front) == p * product(t_front),
                p >= 2,
        ;
        assert forall|i: int| 0 <= i < s_front.len() implies is_prime_number(
            #[trigger] s_front[i] as int,
        ) by {
            assert(s_front[i] == s[i]);
        }
        assert forall|i: int| 0 <= i < t_front.len() implies is_prime_number(
            #[trigger] t_front[i] as int,
        ) by {
            assert(t_front[i] == t[i]);
        }
        assert forall|i: int, j: int| 0 <= i <= j < s_front.len() implies s_front[i]
            <= s_front[j] by {
            assert(s_front[i] == s[i] && s_front[j] == s[j]);
        }
        assert forall|i: int, j: int| 0 <= i <= j < t_front.len() implies t_front[i]
            <= t_front[j] by {
            assert(t_front[i] == t[i] && t_front[j] == t[j]);
        }
        lemma_prime_factors_unique(s_front, t_front);
        assert(s =~= s_front.push(s.last()));
        assert(t =~= t_front.push(t.last()));
    }
}

/// An integer has exactly one factor sequence.
pub proof fn lemma_factorization_unique(s: Seq<i64>, t: Seq<i64>, n: int)
    requires
        factorization_of(s, n),
        factorization_of(t, n),
    ensures
        s == t,
{
    if n < 0 {
        let s_body = s.subrange(1, s.len() as int);
        let t_body = t.subrange(1, t.len() as int);
        if -n >= 2 {
            lemma_prime_factors_unique(s_body, t_body);
        } else {
            assert(s_body =~= t_body);
        }
        assert(s =~= seq![s[0]] + s_body);
        assert(t =~= seq![t[0]] + t_body);
    } else if n >= 2 {
        lemma_prime_factors_unique(s, t);
    } else {
        assert(s =~= t);
    }
}

/// The entries of a factor sequence multiply to the number, sign included.
pub proof fn lemma_factorization_product(s: Seq<i64>, n: int)
    requires
        factorization_of(s, n),
    ensures
        product(s) == n,
{
    if n < 0 {
        let body = s.subrange(1, s.len() as int);
        lemma_product_first(s);
        lemma_magnitude_product(body, -n);
        assert(s[0] * product(body) == n) by (nonlinear_arith)
            requires
                s[0] == -1,
                product(body) == -n,
        ;
    } else {
        lemma_magnitude_product(s, n);
    }
}

/// The factors of a magnitude multiply to it.
proof fn lemma_magnitude_product(s: Seq<i64>, m: int)
    requires
        m >= 0,
        magnitude_factors(s, m),
    ensures
        product(s) == m,
{
    if m < 2 {
        assert(s.drop_last() =~= Seq::<i64>::empty());
        assert(product(s.drop_last()) == 1);
        assert(product(s) == 1 * s.last());
    }
}

} // verus!
