//! Divisibility, primality and products of integer sequences: the vocabulary
//! that the contracts of the sieve and of the factorizer are written in.

use vstd::prelude::*;
use vstd::arithmetic::div_mod::lemma_fundamental_div_mod;
use vstd::arithmetic::div_mod::lemma_mod_multiples_basic;

verus! {

/// `d` is a positive divisor of `n`.
pub open spec fn divides(d: int, n: int) -> bool {
    d > 0 && n % d == 0
}

/// `p` is a prime number: at least 2 and without a divisor strictly between
/// 1 and itself.
pub open spec fn is_prime_number(p: int) -> bool {
    p >= 2 && forall|d: int| 2 <= d < p ==> !#[trigger] divides(d, p)
}

/// The product of the entries of `s`; the empty product is 1.
pub open spec fn product(s: Seq<i64>) -> int
    decreases s.len(),
{
    if s.len() == 0 {
        1
    } else {
        product(s.drop_last()) * s.last()
    }
}

/// Every entry of `s` is a prime number.
pub open spec fn all_prime(s: Seq<i64>) -> bool {
    forall|i: int| 0 <= i < s.len() ==> is_prime_number(#[trigger] s[i] as int)
}

/// The entries of `s` never decrease from left to right.
pub open spec fn nondecreasing(s: Seq<i64>) -> bool {
    forall|i: int, j: int| 0 <= i <= j < s.len() ==> s[i] <= s[j]
}

/// A multiple of `d`, written as such, is divisible by `d`.
pub proof fn lemma_multiple_divides(d: int, k: int)
    requires
        d > 0,
    ensures
        divides(d, d * k),
{
    lemma_mod_multiples_basic(k, d);
    assert(k * d == d * k) by (nonlinear_arith);
}

/// A number that `d` divides is `d` times its quotient by `d`.
pub proof fn lemma_divides_quotient(d: int, n: int)
    requires
        divides(d, n),
    ensures
        n == d * (n / d),
{
    lemma_fundamental_div_mod(n, d);
}

/// Divisibility is transitive.
pub proof fn lemma_divides_trans(a: int, b: int, c: int)
    requires
        divides(a, b),
        divides(b, c),
    ensures
        divides(a, c),
{
    lemma_divides_quotient(a, b);
    lemma_divides_quotient(b, c);
    let k = (b / a) * (c / b);
    assert(c == a * k) by (nonlinear_arith)
        requires
            b == a * (b / a),
            c == b * (c / b),
            k == (b / a) * (c / b),
    ;
    lemma_multiple_divides(a, k);
}

/// Appending one entry multiplies the product by it.
pub proof fn lemma_product_push(s: Seq<i64>, x: i64)
    ensures
        product(s.push(x)) == product(s) * x,
{
    assert(s.push(x).drop_last() =~= s);
}

/// The product of a sequence is its first entry times the product of the
/// rest.
pub proof fn lemma_product_first(s: Seq<i64>)
    requires
        s.len() > 0,
    ensures
        product(s) == s[0] * product(s.subrange(1, s.len() as int)),
    decreases s.len(),
{
    let tail = s.subrange(1, s.len() as int);
    if s.len() == 1 {
        assert(s.drop_last() =~= Seq::<i64>::empty());
        assert(tail =~= Seq::<i64>::empty());
        assert(product(s.drop_last()) == 1);
        assert(product(tail) == 1);
    } else {
        let front = s.drop_last();
        lemma_product_first(front);
        assert(front.subrange(1, front.len() as int) =~= tail.drop_last());
        assert(tail.last() == s.last());
        assert(front[0] == s[0]);
        assert(product(s) == s[0] * product(tail)) by (nonlinear_arith)
            requires
                product(s) == product(front) * s.last(),
                product(front) == s[0] * product(tail.drop_last()),
                product(tail) == product(tail.drop_last()) * s.last(),
        ;
    }
}

} // verus!
