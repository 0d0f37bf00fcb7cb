//! What a bounded sieve marks: the products of two factors taken from
//! `[2, limit)`, the table of factor pairs they come from, and the proof that
//! the two describe the same set.

use vstd::prelude::*;
use vstd::arithmetic::div_mod::lemma_fundamental_div_mod;
use vstd::arithmetic::div_mod::lemma_fundamental_div_mod_converse;
use vstd::arithmetic::div_mod::lemma_mod_bound;
use crate::arith::{divides, is_prime_number, lemma_multiple_divides};

verus! {

/// Both `a` and `b` lie in `[2, limit)`.
pub open spec fn within(limit: int, a: int, b: int) -> bool {
    2 <= a < limit && 2 <= b < limit
}

/// `n` is the product of two integers of `[2, limit)`.
pub open spec fn composite_below(limit: int, n: int) -> bool {
    exists|a: int, b: int| #[trigger] within(limit, a, b) && a * b == n
}

/// The table that a sieve with this limit holds once built: exactly the
/// products of two integers of `[2, limit)`, each marked `true`.
pub open spec fn composite_marks(limit: int) -> Map<i64, bool> {
    Map::new(|n: i64| composite_below(limit, n as int), |n: i64| true)
}

/// How many integers `[2, limit)` holds.
pub open spec fn side(limit: int) -> int {
    if limit > 2 {
        limit - 2
    } else {
        0
    }
}

/// The bytes that one factor pair takes in memory.
pub open spec fn pair_bytes() -> int {
    16
}

/// A sieve of this limit can be built on this machine: the list of all its
/// factor pairs stays within the largest allocation there is.
pub open spec fn buildable(limit: int) -> bool {
    side(limit) * side(limit) * pair_bytes() <= isize::MAX
}

/// All pairs of integers of `[2, limit)`, the first component varying
/// slowest: (2, 2), (2, 3), ..., (2, limit - 1), (3, 2), ...
pub open spec fn pair_table(limit: int) -> Seq<(i64, i64)> {
    Seq::new(
        (side(limit) * side(limit)) as nat,
        |k: int| ((2 + k / side(limit)) as i64, (2 + k % side(limit)) as i64),
    )
}

/// The product of the two components fits the machine integer.
pub open spec fn product_fits(pair: (i64, i64)) -> bool {
    i64::MIN <= pair.0 * pair.1 <= i64::MAX
}

/// The product that a pair stands for, as a machine integer.
pub open spec fn pair_product(pair: (i64, i64)) -> i64 {
    (pair.0 * pair.1) as i64
}

/// The product of every pair of `items` fits the machine integer.
pub open spec fn products_fit(items: Seq<(i64, i64)>) -> bool {
    forall|i: int| 0 <= i < items.len() ==> #[trigger] product_fits(items[i])
}

/// `n` is marked in `table`.
pub open spec fn marked(table: Map<i64, bool>, n: int) -> bool {
    &&& i64::MIN <= n <= i64::MAX
    &&& table.contains_key(n as i64)
    &&& table[n as i64]
}

/// The table that marks exactly the products of the pairs in `items`.
pub open spec fn marks(items: Seq<(i64, i64)>) -> Map<i64, bool> {
    Map::new(
        |n: i64| exists|i: int| 0 <= i < items.len() && #[trigger] pair_product(items[i]) == n,
        |n: i64| true,
    )
}

/// Below a buildable limit, the product of any two factors of the range
/// fits the machine integer.
pub proof fn lemma_products_in_range(limit: int, a: int, b: int)
    requires
        buildable(limit),
        within(limit, a, b),
    ensures
        4 <= a * b <= i64::MAX,
{
    let w = side(limit);
    assert(4 <= a * b <= (limit - 1) * (limit - 1)) by (nonlinear_arith)
        requires
            2 <= a < limit,
            2 <= b < limit,
    ;
    assert((limit - 1) * (limit - 1) <= w * w * 16) by (nonlinear_arith)
        requires
            limit >= 3,
            w == limit - 2,
    ;
}

/// The entry of the pair table at index `k`.
pub proof fn lemma_pair_table_entry(limit: int, k: int)
    requires
        buildable(limit),
        0 <= k < pair_table(limit).len(),
    ensures
        limit > 2,
        within(limit, 2 + k / side(limit), 2 + k % side(limit)),
        pair_table(limit)[k].0 == 2 + k / side(limit),
        pair_table(limit)[k].1 == 2 + k % side(limit),
        product_fits(pair_table(limit)[k]),
        pair_product(pair_table(limit)[k]) == (2 + k / side(limit)) * (2 + k % side(limit)),
{
    let w = side(limit);
    assert(w > 0) by (nonlinear_arith)
        requires
            0 <= k < w * w,
            w >= 0,
    ;
    lemma_fundamental_div_mod(k, w);
    lemma_mod_bound(k, w);
    assert(0 <= k / w < w) by (nonlinear_arith)
        requires
            k == w * (k / w) + k % w,
            0 <= k % w < w,
            0 <= k < w * w,
    ;
    assert(w * w <= isize::MAX) by (nonlinear_arith)
        requires
            w * w * 16 <= isize::MAX,
            w > 0,
    ;
    lemma_products_in_range(limit, 2 + k / w, 2 + k % w);
}

/// Every pair of factors of the range stands in the pair table.
pub proof fn lemma_pair_table_index(limit: int, a: int, b: int) -> (k: int)
    requires
        buildable(limit),
        within(limit, a, b),
    ensures
        0 <= k < pair_table(limit).len(),
        pair_table(limit)[k] == (a as i64, b as i64),
        pair_product(pair_table(limit)[k]) == a * b,
{
    let w = side(limit);
    let k = (a - 2) * w + (b - 2);
    assert(0 <= k < w * w) by (nonlinear_arith)
        requires
            k == (a - 2) * w + (b - 2),
            0 <= a - 2 < w,
            0 <= b - 2 < w,
    ;
    assert(k == (a - 2) * w + (b - 2));
    assert(k == w * (a - 2) + (b - 2)) by (nonlinear_arith)
        requires
            k == (a - 2) * w + (b - 2),
    ;
    lemma_fundamental_div_mod_converse(k, w, a - 2, b - 2);
    lemma_pair_table_entry(limit, k);
    k
}

/// The products of the pair table are the composites below the limit: a
/// table built from the pairs is the table of the sieve.
pub proof fn lemma_marks_of_pair_table(limit: int)
    requires
        buildable(limit),
    ensures
        products_fit(pair_table(limit)),
        marks(pair_table(limit)) =~= composite_marks(limit),
{
    let table = pair_table(limit);
    assert forall|i: int| 0 <= i < table.len() implies #[trigger] product_fits(table[i]) by {
        lemma_pair_table_entry(limit, i);
    }
    assert forall|n: i64| marks(table).dom().contains(n) <==> composite_marks(
        limit,
    ).dom().contains(n) by {
        if marks(table).dom().contains(n) {
            let i = choose|i: int| 0 <= i < table.len() && #[trigger] pair_product(table[i]) == n;
            lemma_pair_table_entry(limit, i);
            assert(within(limit, 2 + i / side(limit), 2 + i % side(limit)));
        }
        if composite_below(limit, n as int) {
            let (a, b) = choose|a: int, b: int| #[trigger] within(limit, a, b) && a * b == n;
            let k = lemma_pair_table_index(limit, a, b);
            assert(pair_product(table[k]) == n);
        }
    }
}

/// The product of any two factors of the range is marked in the table of the
/// sieve.
pub proof fn lemma_products_marked(limit: int, a: int, b: int)
    requires
        buildable(limit),
        within(limit, a, b),
    ensures
        marked(composite_marks(limit), a * b),
{
    lemma_products_in_range(limit, a, b);
}

/// A number that the sieve marks has a divisor strictly between 1 and itself.
pub proof fn lemma_marked_is_not_prime(limit: int, n: int)
    requires
        composite_below(limit, n),
    ensures
        !is_prime_number(n),
{
    let (a, b) = choose|a: int, b: int| #[trigger] within(limit, a, b) && a * b == n;
    lemma_multiple_divides(a, b);
    assert(a < n) by (nonlinear_arith)
        requires
            a * b == n,
            a >= 2,
            b >= 2,
    ;
    assert(divides(a, n));
}

/// A number of at least 2 below the limit is marked exactly when it is not
/// prime: on that stretch the sieve is exact.
pub proof fn lemma_exact_below_limit(limit: int, n: int)
    requires
        2 <= n < limit,
    ensures
        composite_below(limit, n) <==> !is_prime_number(n),
{
    if composite_below(limit, n) {
        lemma_marked_is_not_prime(limit, n);
    }
    if !is_prime_number(n) {
        let d = choose|d: int| 2 <= d < n && #[trigger] divides(d, n);
        lemma_fundamental_div_mod(n, d);
        let q = n / d;
        assert(2 <= q < n) by (nonlinear_arith)
            requires
                n == d * q,
                2 <= d < n,
        ;
        assert(within(limit, d, q));
    }
}

/// Nothing from the square of `limit - 1` upward is marked, and nothing
/// below 4.
pub proof fn lemma_unmarked_outside(limit: int, n: int)
    requires
        n < 4 || n > (limit - 1) * (limit - 1),
    ensures
        !composite_below(limit, n),
{
    if composite_below(limit, n) {
        let (a, b) = choose|a: int, b: int| #[trigger] within(limit, a, b) && a * b == n;
        assert(4 <= a * b <= (limit - 1) * (limit - 1)) by (nonlinear_arith)
            requires
                2 <= a <= limit - 1,
                2 <= b <= limit - 1,
        ;
    }
}

} // verus!
