//! A model of fork-join accumulation: a run of items is cut into stretches,
//! each stretch is folded into a table of its own, and the tables are merged
//! pairwise. However the run is cut, the merged table is the one that a
//! single fold over the whole run gives.

use vstd::prelude::*;
use crate::composite::{marks, pair_product};

verus! {

/// The table after one more pair has been recorded in it.
pub open spec fn record_spec(table: Map<i64, bool>, pair: (i64, i64)) -> Map<i64, bool> {
    table.insert(pair_product(pair), true)
}

/// The table that a single worker ends with: every item recorded in turn,
/// starting from the empty table.
pub open spec fn folded(items: Seq<(i64, i64)>) -> Map<i64, bool> {
    items.fold_left(
        Map::<i64, bool>::empty(),
        |table: Map<i64, bool>, pair: (i64, i64)| record_spec(table, pair),
    )
}

/// The table that merging `right` into `left` gives.
pub open spec fn merged(left: Map<i64, bool>, right: Map<i64, bool>) -> Map<i64, bool> {
    left.union_prefer_right(right)
}

/// One way of dividing a run of items among workers.
pub enum Schedule {
    /// One worker folds the whole run.
    Whole,
    /// The run is cut after its first `at` items; each part is scheduled on
    /// its own, and the table of the right part is merged into that of the
    /// left.
    Cut { at: int, left: Box<Schedule>, right: Box<Schedule> },
}

impl Schedule {
    /// The schedule cuts a run of `len` items at places that the run has.
    pub open spec fn fits(self, len: int) -> bool
        decreases self,
    {
        match self {
            Schedule::Whole => true,
            Schedule::Cut { at, left, right } => {
                &&& 0 <= at <= len
                &&& left.fits(at)
                &&& right.fits(len - at)
            },
        }
    }

    /// The table that this schedule ends with on `items`.
    pub open spec fn outcome(self, items: Seq<(i64, i64)>) -> Map<i64, bool>
        decreases self,
    {
        match self {
            Schedule::Whole => folded(items),
            Schedule::Cut { at, left, right } => merged(
                left.outcome(items.subrange(0, at)),
                right.outcome(items.subrange(at, items.len() as int)),
            ),
        }
    }
}

/// `table` is what some schedule that fits `items` ends with.
pub open spec fn some_schedule_gives(items: Seq<(i64, i64)>, table: Map<i64, bool>) -> bool {
    exists|plan: Schedule| plan.fits(items.len() as int) && #[trigger] plan.outcome(items) == table
}

/// A single fold marks exactly the products of its items.
pub proof fn lemma_folded_is_marks(items: Seq<(i64, i64)>)
    ensures
        folded(items) =~= marks(items),
    decreases items.len(),
{
    if items.len() > 0 {
        let front = items.drop_last();
        lemma_folded_is_marks(front);
        let last = items.last();
        assert(folded(items) == record_spec(folded(front), last));
        assert forall|n: i64| folded(items).dom().contains(n) <==> marks(items).dom().contains(
            n,
        ) by {
            if marks(items).dom().contains(n) {
                let i = choose|i: int|
                    0 <= i < items.len() && #[trigger] pair_product(items[i]) == n;
                if i < front.len() {
                    assert(pair_product(front[i]) == n);
                } else {
                    assert(items[i] == last);
                }
            }
            if folded(items).dom().contains(n) {
                if marks(front).dom().contains(n) {
                    let i = choose|i: int|
                        0 <= i < front.len() && #[trigger] pair_product(front[i]) == n;
                    assert(pair_product(items[i]) == n);
                } else {
                    assert(pair_product(items[items.len() - 1]) == n);
                }
            }
        }
    }
}

/// The marks of a run are the marks of its two parts, merged.
pub proof fn lemma_marks_split(items: Seq<(i64, i64)>, at: int)
    requires
        0 <= at <= items.len(),
    ensures
        merged(marks(items.subrange(0, at)), marks(items.subrange(at, items.len() as int)))
            =~= marks(items),
{
    let left = items.subrange(0, at);
    let right = items.subrange(at, items.len() as int);
    let both = merged(marks(left), marks(right));
    assert forall|n: i64| both.dom().contains(n) <==> marks(items).dom().contains(n) by {
        if marks(left).dom().contains(n) {
            let i = choose|i: int| 0 <= i < left.len() && #[trigger] pair_product(left[i]) == n;
            assert(pair_product(items[i]) == n);
        }
        if marks(right).dom().contains(n) {
            let i = choose|i: int|
                0 <= i < right.len() && #[trigger] pair_product(right[i]) == n;
            assert(pair_product(items[at + i]) == n);
        }
        if marks(items).dom().contains(n) {
            let i = choose|i: int| 0 <= i < items.len() && #[trigger] pair_product(items[i]) == n;
            if i < at {
                assert(pair_product(left[i]) == n);
            } else {
                assert(pair_product(right[i - at]) == n);
            }
        }
    }
}

/// Every schedule that fits a run ends with the marks of the run.
pub proof fn lemma_outcome_is_marks(plan: Schedule, items: Seq<(i64, i64)>)
    requires
        plan.fits(items.len() as int),
    ensures
        plan.outcome(items) == marks(items),
    decreases plan,
{
    match plan {
        Schedule::Whole => {
            lemma_folded_is_marks(items);
        },
        Schedule::Cut { at, left, right } => {
            lemma_outcome_is_marks(*left, items.subrange(0, at));
            lemma_outcome_is_marks(*right, items.subrange(at, items.len() as int));
            lemma_marks_split(items, at);
        },
    }
}

/// Working through a run in one piece and working through it in parts, in
/// any division that fits it, end with the same table.
pub proof fn lemma_schedules_agree(plan: Schedule, items: Seq<(i64, i64)>)
    requires
        plan.fits(items.len() as int),
    ensures
        plan.outcome(items) == Schedule::Whole.outcome(items),
{
    lemma_outcome_is_marks(plan, items);
    lemma_outcome_is_marks(Schedule::Whole, items);
}

} // verus!
