//! The summary of what dice showed: the total, the lowest and the highest
//! outcome.

use vstd::prelude::*;

verus! {

/// The sum of the values.
pub open spec fn sum(values: Seq<i32>) -> int
    decreases values.len(),
{
    if values.len() == 0 {
        0
    } else {
        sum(values.drop_last()) + values.last()
    }
}

/// The least of the values; `i32::MAX` where there is none.
pub open spec fn least(values: Seq<i32>) -> int
    decreases values.len(),
{
    if values.len() == 0 {
        i32::MAX as int
    } else if values.last() < least(values.drop_last()) {
        values.last() as int
    } else {
        least(values.drop_last())
    }
}

/// The greatest of the values; `i32::MIN` where there is none.
pub open spec fn greatest(values: Seq<i32>) -> int
    decreases values.len(),
{
    if values.len() == 0 {
        i32::MIN as int
    } else if values.last() > greatest(values.drop_last()) {
        values.last() as int
    } else {
        greatest(values.drop_last())
    }
}

/// The highest outcome as a summary gives it: the greatest, but never below
/// zero.
pub open spec fn highest(outcomes: Seq<i32>) -> int {
    if greatest(outcomes) > 0 {
        greatest(outcomes)
    } else {
        0
    }
}

/// What a list of rolls showed.
#[derive(Debug, Clone, PartialEq, Eq)]
pub struct RollResults {
    /// The sum of all outcomes.
    pub total: i32,
    /// The least outcome; `i32::MAX` where there is none.
    pub lowest: i32,
    /// The greatest outcome, or zero where none is above zero.
    pub highest: i32,
    /// The outcomes, roll by roll, in the order of the draws.
    pub values: Vec<i32>,
}

impl RollResults {
    /// The three numbers are those of the outcomes.
    pub open spec fn wf(&self) -> bool {
        &&& self.total == sum(self.values@)
        &&& self.lowest == least(self.values@)
        &&& self.highest == highest(self.values@)
    }

    /// The summary of no outcome at all.
    pub fn new() -> (results: RollResults)
        ensures
            results.values@ == Seq::<i32>::empty(),
            results.total == 0,
            results.lowest == i32::MAX,
            results.highest == 0,
            results.wf(),
    {
        RollResults { total: 0, lowest: 0x7fff_ffff, highest: 0, values: Vec::new() }
    }

    /// Takes one more outcome into the summary.
    pub fn record(&mut self, outcome: i32)
        requires
            i32::MIN <= old(self).total + outcome <= i32::MAX,
        ensures
            final(self).values@ == old(self).values@.push(outcome),
            final(self).total == old(self).total + outcome,
            final(self).lowest == if outcome < old(self).lowest {
                outcome
            } else {
                old(self).lowest
            },
            final(self).highest == if outcome > old(self).highest {
                outcome
            } else {
                old(self).highest
            },
            old(self).wf() ==> final(self).wf(),
    {
        if outcome < self.lowest {
            self.lowest = outcome;
        }
        if outcome > self.highest {
            self.highest = outcome;
        }
        self.total = self.total + outcome;
        self.values.push(outcome);
        proof {
            assert(self.values@.drop_last() =~= old(self).values@);
        }
    }
}

/// The least of the values.
pub fn least_of(values: &[i32]) -> (r: i32)
    ensures
        r == least(values@),
{
    let mut r: i32 = 0x7fff_ffff;
    let mut i: usize = 0;
    assert(values@.take(0) =~= Seq::<i32>::empty());
    while i < values.len()
        invariant
            i <= values.len(),
            r == least(values@.take(i as int)),
        decreases values.len() - i,
    {
        proof {
            assert(values@.take(i + 1).drop_last() =~= values@.take(i as int));
        }
        if values[i] < r {
            r = values[i];
        }
        i += 1;
    }
    assert(values@.take(values@.len() as int) =~= values@);
    r
}

/// The greatest of the values.
pub fn greatest_of(values: &[i32]) -> (r: i32)
    ensures
        r == greatest(values@),
{
    let mut r: i32 = -0x8000_0000;
    let mut i: usize = 0;
    assert(values@.take(0) =~= Seq::<i32>::empty());
    while i < values.len()
        invariant
            i <= values.len(),
            r == greatest(values@.take(i as int)),
        decreases values.len() - i,
    {
        proof {
            assert(values@.take(i + 1).drop_last() =~= values@.take(i as int));
        }
        if values[i] > r {
            r = values[i];
        }
        i += 1;
    }
    assert(values@.take(values@.len() as int) =~= values@);
    r
}

/// Every value lies between the least and the greatest.
pub proof fn lemma_between_least_and_greatest(values: Seq<i32>, i: int)
    requires
        0 <= i < values.len(),
    ensures
        least(values) <= values[i] <= greatest(values),
    decreases values.len(),
{
    if i < values.len() - 1 {
        lemma_between_least_and_greatest(values.drop_last(), i);
    }
}

/// The sum of two lists of values, one after the other, is the sum of their
/// sums.
pub proof fn lemma_sum_add(a: Seq<i32>, b: Seq<i32>)
    ensures
        sum(a + b) == sum(a) + sum(b),
    decreases b.len(),
{
    if b.len() == 0 {
        assert(a + b =~= a);
    } else {
        lemma_sum_add(a, b.drop_last());
        assert((a + b).drop_last() =~= a + b.drop_last());
    }
}

/// The sum of values that all lie between `low` and `high` lies between as
/// many times `low` and as many times `high`.
pub proof fn lemma_sum_between(values: Seq<i32>, low: int, high: int)
    requires
        forall|i: int| 0 <= i < values.len() ==> low <= #[trigger] values[i] <= high,
    ensures
        values.len() * low <= sum(values) <= values.len() * high,
    decreases values.len(),
{
    if values.len() > 0 {
        let before = values.drop_last();
        assert forall|i: int| 0 <= i < before.len() implies low <= #[trigger] before[i] <= high by {
            assert(before[i] == values[i]);
        }
        lemma_sum_between(before, low, high);
        assert(low <= values[values.len() - 1] <= high);
        assert(values.len() * low == before.len() * low + low) by (nonlinear_arith)
            requires
                values.len() == before.len() + 1,
        ;
        assert(values.len() * high == before.len() * high + high) by (nonlinear_arith)
            requires
                values.len() == before.len() + 1,
        ;
    } else {
        assert(values.len() * low == 0) by (nonlinear_arith)
            requires
                values.len() == 0,
        ;
        assert(values.len() * high == 0) by (nonlinear_arith)
            requires
                values.len() == 0,
        ;
    }
}

} // verus!
