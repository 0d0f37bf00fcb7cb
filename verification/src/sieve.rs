//! The sieve: a table of the products of two factors below a limit, built on
//! the first question and kept for all later ones.

use std::collections::HashMap;
use rayon::iter::{IntoParallelRefIterator, ParallelIterator};
use vstd::prelude::*;
use crate::composite::{
    buildable, composite_below, composite_marks, lemma_marks_of_pair_table,
    lemma_products_marked, marked, marks, pair_table, product_fits, products_fit, side, within,
};
use crate::schedule::{
    folded, lemma_folded_is_marks, lemma_outcome_is_marks, merged, record_spec,
    some_schedule_gives, Schedule,
};

verus! {

/// Lists the factor pairs of a limit with `Itertools::cartesian_product`
/// of itertools, applied to the range `2..limit` twice and collected into a
/// vector. The contract takes from that crate that every pair comes once,
/// the first component varying slowest and both in ascending order. It asks
/// for a limit whose list stays within the largest allocation, so that the
/// vector does not overflow its capacity; that the memory is there is not
/// checked.
#[verifier::external_body]
fn factor_pairs(limit: i64) -> (pairs: Vec<(i64, i64)>)
    requires
        buildable(limit as int),
    ensures
        pairs@ == pair_table(limit as int),
{
    itertools::Itertools::cartesian_product(2..limit, 2..limit).collect()
}

/// Moves the entries of `from` into `into` with `Extend::extend` of the
/// standard hash map. The contract takes from its documentation that every
/// entry of `from` is inserted: afterwards `into` holds its old entries and
/// those of `from`, with the value of `from` where both had a key.
#[verifier::external_body]
fn absorb(into: &mut HashMap<i64, bool>, from: HashMap<i64, bool>)
    ensures
        final(into)@ == merged(old(into)@, from@),
{
    into.extend(from);
}

/// A table without marks.
pub fn no_marks() -> (table: HashMap<i64, bool>)
    ensures
        table@ == Map::<i64, bool>::empty(),
{
    HashMap::new()
}

/// Marks the product of `pair` in `table`.
pub fn record(table: HashMap<i64, bool>, pair: &(i64, i64)) -> (grown: HashMap<i64, bool>)
    requires
        product_fits(*pair),
    ensures
        grown@ == record_spec(table@, *pair),
{
    let mut grown = table;
    grown.insert(pair.0 * pair.1, true);
    grown
}

/// Merges two tables into one that holds the marks of both.
pub fn merge(left: HashMap<i64, bool>, right: HashMap<i64, bool>) -> (both: HashMap<i64, bool>)
    ensures
        both@ == merged(left@, right@),
{
    let mut both = left;
    absorb(&mut both, right);
    both
}

/// Hands the pairs to rayon: `par_iter` on the list, `fold` with `no_marks`
/// and `record`, then `reduce` with `no_marks` and `merge`. Rayon cuts the
/// list into consecutive stretches as it sees fit, folds each stretch from a
/// fresh table in the order of the list, and merges the tables of
/// neighbouring stretches, the left one first; a fresh table may stand in for
/// an empty stretch. The contract says that much and no more: the table is
/// the outcome of some schedule that fits the list. Which schedule it was is
/// not known: `mark_in_parallel` proves that it does not matter.
#[verifier::external_body]
fn fork_join(pairs: &Vec<(i64, i64)>) -> (table: HashMap<i64, bool>)
    requires
        products_fit(pairs@),
    ensures
        some_schedule_gives(pairs@, table@),
{
    pairs.par_iter().fold(|| no_marks(), |table, pair| record(table, pair)).reduce(
        || no_marks(),
        |left, right| merge(left, right),
    )
}

/// Marks the products of `pairs` one after the other, in the order of the
/// list.
pub fn mark_in_turn(pairs: &Vec<(i64, i64)>) -> (table: HashMap<i64, bool>)
    requires
        products_fit(pairs@),
    ensures
        table@ == marks(pairs@),
        table@ == Schedule::Whole.outcome(pairs@),
{
    let mut table = no_marks();
    let mut i: usize = 0;
    while i < pairs.len()
        invariant
            i <= pairs.len(),
            products_fit(pairs@),
            table@ == folded(pairs@.subrange(0, i as int)),
        decreases pairs.len() - i,
    {
        proof {
            assert(pairs@.subrange(0, i + 1).drop_last() =~= pairs@.subrange(0, i as int));
        }
        table = record(table, &pairs[i]);
        i += 1;
    }
    proof {
        assert(pairs@.subrange(0, pairs@.len() as int) =~= pairs@);
        lemma_folded_is_marks(pairs@);
    }
    table
}

/// Marks the products of `pairs` with the work divided among the threads of
/// the pool. The table is the same as that of `mark_in_turn`.
pub fn mark_in_parallel(pairs: &Vec<(i64, i64)>) -> (table: HashMap<i64, bool>)
    requires
        products_fit(pairs@),
    ensures
        table@ == marks(pairs@),
        table@ == Schedule::Whole.outcome(pairs@),
{
    let table = fork_join(pairs);
    proof {
        let plan = choose|plan: Schedule|
            plan.fits(pairs@.len() as int) && #[trigger] plan.outcome(pairs@) == table@;
        lemma_outcome_is_marks(plan, pairs@);
        lemma_folded_is_marks(pairs@);
    }
    table
}

/// Builds the table of a sieve with this limit, in turn or in parallel.
pub fn build_table(limit: i64, is_parallel: bool) -> (table: HashMap<i64, bool>)
    requires
        buildable(limit as int),
    ensures
        table@ == composite_marks(limit as int),
        forall|a: int, b: int| #[trigger] within(limit as int, a, b) ==> marked(table@, a * b),
{
    let pairs = factor_pairs(limit);
    proof {
        lemma_marks_of_pair_table(limit as int);
        assert forall|a: int, b: int| #[trigger] within(limit as int, a, b) implies marked(
            composite_marks(limit as int),
            a * b,
        ) by {
            lemma_products_marked(limit as int, a, b);
        }
    }
    if is_parallel {
        mark_in_parallel(&pairs)
    } else {
        mark_in_turn(&pairs)
    }
}

/// Building in turn and building in parallel give the same table: however
/// the factor pairs of a limit are divided among workers, the outcome is that
/// of one worker going through all of them, and where the sieve can be built
/// it is the table of the sieve.
pub proof fn lemma_strategies_agree(limit: int, plan: Schedule)
    requires
        plan.fits(pair_table(limit).len() as int),
    ensures
        plan.outcome(pair_table(limit)) == Schedule::Whole.outcome(pair_table(limit)),
        buildable(limit) ==> plan.outcome(pair_table(limit)) == composite_marks(limit),
{
    lemma_outcome_is_marks(plan, pair_table(limit));
    lemma_outcome_is_marks(Schedule::Whole, pair_table(limit));
    if buildable(limit) {
        lemma_marks_of_pair_table(limit);
    }
}

/// Something that answers whether an integer is prime.
pub trait PrimalityChecker {
    /// The checker is in a state in which it can be asked.
    spec fn ready(&self) -> bool;

    /// What the checker answers for `n`.
    spec fn judged_prime(&self, n: i64) -> bool;

    /// Answers for `n`. Asking leaves the checker ready and changes none of
    /// its answers.
    fn is_prime(&mut self, n: i64) -> (answer: bool)
        requires
            old(self).ready(),
        ensures
            answer == old(self).judged_prime(n),
            final(self).ready(),
            forall|m: i64| final(self).judged_prime(m) == old(self).judged_prime(m),
    ;
}

/// A sieve over the products of two factors from `[2, limit)`. The table is
/// built when it is first needed and never changed after that.
pub struct EratosthenesSieve {
    is_parallel: bool,
    limit: i64,
    sieve: Option<HashMap<i64, bool>>,
}

impl EratosthenesSieve {
    /// The exclusive upper end of the range that the factors are taken from.
    pub closed spec fn limit(&self) -> int {
        self.limit as int
    }

    /// Whether the table is built with the work divided among threads.
    pub closed spec fn is_parallel(&self) -> bool {
        self.is_parallel
    }

    /// The table as far as it exists: `None` before it is built.
    pub closed spec fn table(&self) -> Option<Map<i64, bool>> {
        match self.sieve {
            Some(table) => Some(table@),
            None => None,
        }
    }

    /// The sieve can be built on this machine, and a table that it holds is
    /// the table of its limit.
    pub open spec fn wf(&self) -> bool {
        &&& buildable(self.limit())
        &&& self.table() is Some ==> self.table() == Some(composite_marks(self.limit()))
    }

    /// Whether a sieve with this limit can be built on this machine.
    pub fn supports(limit: i64) -> (ok: bool)
        ensures
            ok == buildable(limit as int),
    {
        if limit <= 2 {
            return true;
        }
        let width: u128 = (limit - 2) as u128;
        if width > 0xFFFF_FFFF {
            proof {
                assert(side(limit as int) * side(limit as int) * 16 > i64::MAX) by (nonlinear_arith)
                    requires
                        side(limit as int) > 0xFFFF_FFFF,
                ;
            }
            return false;
        }
        proof {
            assert(width * width * 16 <= 0xFFFF_FFFF * 0xFFFF_FFFF * 16) by (nonlinear_arith)
                requires
                    0 <= width <= 0xFFFF_FFFF,
            ;
        }
        width * width * 16 <= isize::MAX as u128
    }

    /// A sieve with this limit and strategy, its table not yet built.
    pub fn new(limit: i64, is_parallel: bool) -> (fresh: EratosthenesSieve)
        requires
            buildable(limit as int),
        ensures
            fresh.wf(),
            fresh.limit() == limit,
            fresh.is_parallel() == is_parallel,
            fresh.table() is None,
    {
        EratosthenesSieve { is_parallel: is_parallel, limit: limit, sieve: None }
    }

    /// The table of composites, built now if this is the first call. A
    /// sieve that already holds its table is left exactly as it was.
    pub fn get_sieve(&mut self) -> (table: &HashMap<i64, bool>)
        requires
            old(self).wf(),
        ensures
            table@ == composite_marks(old(self).limit()),
            forall|a: int, b: int| #[trigger]
                within(old(self).limit(), a, b) ==> marked(table@, a * b),
            final(self).wf(),
            final(self).limit() == old(self).limit(),
            final(self).is_parallel() == old(self).is_parallel(),
            final(self).table() == Some(table@),
            old(self).table() is Some ==> *final(self) == *old(self),
    {
        if self.sieve.is_none() {
            self.sieve = Some(build_table(self.limit, self.is_parallel));
        }
        proof {
            assert forall|a: int, b: int| #[trigger] within(self.limit as int, a, b) implies marked(
                composite_marks(self.limit as int),
                a * b,
            ) by {
                lemma_products_marked(self.limit as int, a, b);
            }
        }
        self.sieve.as_ref().unwrap()
    }
}

impl PrimalityChecker for EratosthenesSieve {
    open spec fn ready(&self) -> bool {
        self.wf()
    }

    open spec fn judged_prime(&self, n: i64) -> bool {
        !composite_below(self.limit(), n as int)
    }

    /// Answers `true` exactly when `n` is not the product of two factors
    /// from `[2, limit)`, building the table first if need be.
    fn is_prime(&mut self, n: i64) -> (answer: bool)
        ensures
            answer == !composite_below(old(self).limit(), n as int),
            final(self).limit() == old(self).limit(),
            final(self).is_parallel() == old(self).is_parallel(),
            final(self).table() == Some(composite_marks(old(self).limit())),
            old(self).table() is Some ==> *final(self) == *old(self),
    {
        let table = self.get_sieve();
        match table.get(&n) {
            Some(marked) => !*marked,
            None => true,
        }
    }
}

} // verus!
