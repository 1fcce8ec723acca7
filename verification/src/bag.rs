//! Rolling dice: a bag that holds the source of chance.

use crate::random::thread_rng;
use crate::roll::{all_wf, draws_within, outcomes_of, Roll};
use crate::summary::{greatest, greatest_of, least, least_of, lemma_between_least_and_greatest};
use crate::summary::{lemma_sum_add, lemma_sum_between, sum, RollResults};
use rand::rngs::ThreadRng;
use rand::Rng;
use vstd::prelude::*;

verus! {

/// `outcomes` is something that the rolls can show, one after the other: the
/// outcomes of the first roll, then those of the second, and so on.
pub open spec fn shown_by(rolls: Seq<Roll>, outcomes: Seq<i32>) -> bool
    decreases rolls.len(),
{
    if rolls.len() == 0 {
        outcomes.len() == 0
    } else {
        let n = outcomes.len() - rolls.last().dice_count;
        &&& n >= 0
        &&& shown_by(rolls.drop_last(), outcomes.take(n))
        &&& rolls.last().can_show(outcomes.skip(n))
    }
}

/// The number of dice in all the rolls.
pub open spec fn dice_total(rolls: Seq<Roll>) -> nat
    decreases rolls.len(),
{
    if rolls.len() == 0 {
        0
    } else {
        dice_total(rolls.drop_last()) + rolls.last().dice_count as nat
    }
}

/// The total of the rolls where every die shows its greatest face.
pub open spec fn top(rolls: Seq<Roll>) -> int
    decreases rolls.len(),
{
    if rolls.len() == 0 {
        0
    } else {
        top(rolls.drop_last()) + rolls.last().dice_count * greatest(rolls.last().values@)
    }
}

/// The total of the rolls where every die shows its least face.
pub open spec fn bottom(rolls: Seq<Roll>) -> int
    decreases rolls.len(),
{
    if rolls.len() == 0 {
        0
    } else {
        bottom(rolls.drop_last()) + rolls.last().dice_count * least(rolls.last().values@)
    }
}

/// After each of the rolls, the total fits in `i32` both where every die so
/// far shows its greatest face and where every die shows its least.
pub open spec fn totals_fit(rolls: Seq<Roll>) -> bool
    decreases rolls.len(),
{
    if rolls.len() == 0 {
        true
    } else {
        &&& totals_fit(rolls.drop_last())
        &&& i32::MIN <= bottom(rolls)
        &&& top(rolls) <= i32::MAX
    }
}

/// Holds the source of chance with which dice are rolled.
pub struct DiceBag<T> {
    rng: T,
}

impl<T: Rng> DiceBag<T> {
    /// The source of chance that the bag holds.
    pub closed spec fn source(&self) -> T {
        self.rng
    }

    /// A bag that rolls with `rng`.
    pub fn new(rng: T) -> (bag: DiceBag<T>)
        ensures
            bag.source() == rng,
    {
        DiceBag { rng }
    }

    /// Rolls the dice of one roll. Nothing is known of the source of chance
    /// afterwards.
    pub fn roll(&mut self, roll: &Roll) -> (results: Vec<i32>)
        requires
            roll.wf(),
        ensures
            roll.can_show(results@),
    {
        roll.roll(&mut self.rng)
    }

    /// Rolls the dice of each roll in turn and sums up what they show. With
    /// no rolls the source of chance is left as it was; otherwise nothing is
    /// known of it afterwards.
    pub fn roll_all(&mut self, rolls: &[Roll]) -> (results: RollResults)
        requires
            all_wf(rolls@),
            totals_fit(rolls@),
        ensures
            shown_by(rolls@, results.values@),
            results.values@.len() == dice_total(rolls@),
            results.wf(),
            rolls@.len() == 0 ==> final(self).source() == old(self).source(),
    {
        proof {
            assert forall|outcomes: Seq<i32>| shown_by(rolls@, outcomes) implies outcomes.len()
                == dice_total(rolls@) by {
                lemma_one_outcome_per_die(rolls@, outcomes);
            }
        }
        let mut results = RollResults::new();
        let mut k: usize = 0;
        assert(rolls@.take(0) =~= Seq::<Roll>::empty());
        while k < rolls.len()
            invariant
                k <= rolls.len(),
                k == 0 ==> self.source() == old(self).source(),
                all_wf(rolls@),
                totals_fit(rolls@),
                results.wf(),
                shown_by(rolls@.take(k as int), results.values@),
                bottom(rolls@.take(k as int)) <= results.total <= top(rolls@.take(k as int)),
            decreases rolls.len() - k,
        {
            let roll = &rolls[k];
            let outcomes = self.roll(roll);
            let ghost before = results.values@;
            let ghost high = greatest(roll.values@);
            let ghost low = least(roll.values@);
            let ghost top_before = top(rolls@.take(k as int));
            let ghost bottom_before = bottom(rolls@.take(k as int));
            proof {
                assert(rolls@.take(k + 1).drop_last() =~= rolls@.take(k as int));
                assert(rolls@.take(k + 1).last() == rolls@[k as int]);
                lemma_totals_fit_take(rolls@, k as int);
                lemma_totals_fit_take(rolls@, k + 1);
                lemma_totals_fit_ends(rolls@.take(k as int));
                lemma_can_show_within(*roll, outcomes@);
            }
            let mut j: usize = 0;
            while j < outcomes.len()
                invariant
                    j <= outcomes.len(),
                    outcomes@.len() == roll.dice_count,
                    results.wf(),
                    results.values@ == before + outcomes@.take(j as int),
                    forall|i: int| 0 <= i < outcomes@.len() ==> low <= #[trigger] outcomes@[i] <= high,
                    i32::MIN <= bottom_before <= top_before <= i32::MAX,
                    i32::MIN <= bottom_before + roll.dice_count * low,
                    top_before + roll.dice_count * high <= i32::MAX,
                    bottom_before + j * low <= results.total <= top_before + j * high,
                decreases outcomes.len() - j,
            {
                let outcome: i32 = outcomes[j];
                proof {
                    assert(low <= outcomes@[j as int] <= high);
                    lemma_part_of_product(j + 1, roll.dice_count as int, high);
                    lemma_part_of_product(j + 1, roll.dice_count as int, low);
                    assert((j + 1) * high == j * high + high) by (nonlinear_arith);
                    assert((j + 1) * low == j * low + low) by (nonlinear_arith);
                    assert(outcomes@.take(j + 1) =~= outcomes@.take(j as int).push(outcome));
                    assert(before + outcomes@.take(j + 1) =~= (before + outcomes@.take(
                        j as int,
                    )).push(outcome));
                }
                results.record(outcome);
                j += 1;
            }
            proof {
                assert(outcomes@.take(outcomes@.len() as int) =~= outcomes@);
                let all = before + outcomes@;
                assert(all.take(all.len() - roll.dice_count) =~= before);
                assert(all.skip(all.len() - roll.dice_count) =~= outcomes@);
            }
            k += 1;
        }
        assert(rolls@.take(rolls@.len() as int) =~= rolls@);
        results
    }

    /// Rolls the dice of each roll in turn and sums up what they show, where
    /// `roll_all` takes the rolls. Where it does not, no die is rolled, and
    /// the source of chance is left as it was.
    pub fn try_roll_all(&mut self, rolls: &[Roll]) -> (r: Option<RollResults>)
        ensures
            r is Some == (all_wf(rolls@) && totals_fit(rolls@)),
            r matches Some(results) ==> {
                &&& shown_by(rolls@, results.values@)
                &&& results.values@.len() == dice_total(rolls@)
                &&& results.wf()
            },
            r is None || rolls@.len() == 0 ==> final(self).source() == old(self).source(),
    {
        if can_roll_all(rolls) {
            Some(self.roll_all(rolls))
        } else {
            None
        }
    }
}

impl Default for DiceBag<ThreadRng> {
    /// A bag that rolls with the generator of the current thread.
    fn default() -> DiceBag<ThreadRng> {
        DiceBag::new(thread_rng())
    }
}

/// Whether `roll_all` takes the rolls: each is well formed, and the total
/// fits in `i32` whatever the dice show.
pub fn can_roll_all(rolls: &[Roll]) -> (r: bool)
    ensures
        r == (all_wf(rolls@) && totals_fit(rolls@)),
{
    let mut high: i32 = 0;
    let mut low: i32 = 0;
    let mut k: usize = 0;
    assert(rolls@.take(0) =~= Seq::<Roll>::empty());
    while k < rolls.len()
        invariant
            k <= rolls.len(),
            all_wf(rolls@.take(k as int)),
            totals_fit(rolls@.take(k as int)),
            high == top(rolls@.take(k as int)),
            low == bottom(rolls@.take(k as int)),
        decreases rolls.len() - k,
    {
        proof {
            assert(rolls@.take(k + 1).drop_last() =~= rolls@.take(k as int));
            assert(rolls@.take(k + 1).last() == rolls@[k as int]);
            if totals_fit(rolls@) {
                lemma_totals_fit_take(rolls@, k + 1);
            }
        }
        if !rolls[k].is_valid() {
            return false;
        }
        let count: i128 = rolls[k].dice_count as i128;
        let most: i128 = greatest_of(rolls[k].values.as_slice()) as i128;
        let fewest: i128 = least_of(rolls[k].values.as_slice()) as i128;
        proof {
            lemma_product_bounds(count as int, most as int);
            lemma_product_bounds(count as int, fewest as int);
        }
        let next_high: i128 = high as i128 + count * most;
        let next_low: i128 = low as i128 + count * fewest;
        if next_high > 0x7fff_ffff || next_low < -0x8000_0000 {
            return false;
        }
        proof {
            lemma_totals_fit_ends(rolls@.take(k as int));
            lemma_between_least_and_greatest(rolls@[k as int].values@, 0);
            lemma_product_order(count as int, fewest as int, most as int);
            assert forall|i: int| 0 <= i < rolls@.take(k + 1).len() implies (
            #[trigger] rolls@.take(k + 1)[i]).wf() by {
                if i < k {
                    assert(rolls@.take(k as int)[i].wf());
                }
            }
        }
        high = next_high as i32;
        low = next_low as i32;
        k += 1;
    }
    assert(rolls@.take(rolls@.len() as int) =~= rolls@);
    true
}

/// What a roll can show has one outcome for each die, each between the
/// least and the greatest of the faces.
pub proof fn lemma_can_show_within(roll: Roll, outcomes: Seq<i32>)
    requires
        roll.wf(),
        roll.can_show(outcomes),
    ensures
        outcomes.len() == roll.dice_count,
        forall|i: int|
            0 <= i < outcomes.len() ==> least(roll.values@) <= #[trigger] outcomes[i] <= greatest(
                roll.values@,
            ),
{
    let draws = choose|draws: Seq<u32>|
        {
            &&& draws.len() == roll.dice_count
            &&& draws_within(draws, roll.sides)
            &&& outcomes == #[trigger] outcomes_of(roll.values@, draws)
        };
    assert forall|i: int| 0 <= i < outcomes.len() implies least(roll.values@)
        <= #[trigger] outcomes[i] <= greatest(roll.values@) by {
        assert(draws[i] < roll.sides);
        lemma_between_least_and_greatest(roll.values@, draws[i] as int);
    }
}

/// What rolls can show has one outcome for each die.
pub proof fn lemma_one_outcome_per_die(rolls: Seq<Roll>, outcomes: Seq<i32>)
    requires
        shown_by(rolls, outcomes),
    ensures
        outcomes.len() == dice_total(rolls),
    decreases rolls.len(),
{
    if rolls.len() > 0 {
        let n = outcomes.len() - rolls.last().dice_count;
        lemma_one_outcome_per_die(rolls.drop_last(), outcomes.take(n));
    }
}

/// What well-formed rolls show sums to no less than where every die shows
/// its least face, and to no more than where every die shows its greatest.
pub proof fn lemma_total_between(rolls: Seq<Roll>, outcomes: Seq<i32>)
    requires
        all_wf(rolls),
        shown_by(rolls, outcomes),
    ensures
        bottom(rolls) <= sum(outcomes) <= top(rolls),
    decreases rolls.len(),
{
    if rolls.len() > 0 {
        let last = rolls.last();
        let n = outcomes.len() - last.dice_count;
        assert(last.wf());
        assert forall|i: int| 0 <= i < rolls.drop_last().len() implies (
        #[trigger] rolls.drop_last()[i]).wf() by {
            assert(rolls[i].wf());
        }
        lemma_total_between(rolls.drop_last(), outcomes.take(n));
        lemma_can_show_within(last, outcomes.skip(n));
        lemma_sum_between(outcomes.skip(n), least(last.values@), greatest(last.values@));
        lemma_sum_add(outcomes.take(n), outcomes.skip(n));
        assert(outcomes.take(n) + outcomes.skip(n) =~= outcomes);
    } else {
        assert(outcomes =~= Seq::<i32>::empty());
    }
}

/// Where the totals of some rolls fit, those of the first `n` of them fit.
pub proof fn lemma_totals_fit_take(rolls: Seq<Roll>, n: int)
    requires
        0 <= n <= rolls.len(),
        totals_fit(rolls),
    ensures
        totals_fit(rolls.take(n)),
    decreases rolls.len(),
{
    if n < rolls.len() {
        lemma_totals_fit_take(rolls.drop_last(), n);
        assert(rolls.drop_last().take(n) =~= rolls.take(n));
    } else {
        assert(rolls.take(n) =~= rolls);
    }
}

/// Where the totals of well-formed rolls fit, the least total and the
/// greatest both lie in `i32`, the least below the greatest.
pub proof fn lemma_totals_fit_ends(rolls: Seq<Roll>)
    requires
        all_wf(rolls),
        totals_fit(rolls),
    ensures
        i32::MIN <= bottom(rolls) <= top(rolls) <= i32::MAX,
    decreases rolls.len(),
{
    if rolls.len() > 0 {
        let last = rolls.last();
        assert(last.wf());
        assert forall|i: int| 0 <= i < rolls.drop_last().len() implies (
        #[trigger] rolls.drop_last()[i]).wf() by {
            assert(rolls[i].wf());
        }
        lemma_totals_fit_ends(rolls.drop_last());
        lemma_between_least_and_greatest(last.values@, 0);
        lemma_product_order(last.dice_count as int, least(last.values@), greatest(last.values@));
    }
}

/// A part of a product lies between zero and the whole.
pub proof fn lemma_part_of_product(part: int, count: int, face: int)
    requires
        0 <= part <= count,
    ensures
        face >= 0 ==> 0 <= part * face <= count * face,
        face <= 0 ==> count * face <= part * face <= 0,
{
    assert(face >= 0 ==> 0 <= part * face <= count * face) by (nonlinear_arith)
        requires
            0 <= part <= count,
    ;
    assert(face <= 0 ==> count * face <= part * face <= 0) by (nonlinear_arith)
        requires
            0 <= part <= count,
    ;
}

/// A product of a count and a face is no greater for a lesser face.
pub proof fn lemma_product_order(count: int, low: int, high: int)
    requires
        0 <= count,
        low <= high,
    ensures
        count * low <= count * high,
{
    assert(count * low <= count * high) by (nonlinear_arith)
        requires
            0 <= count,
            low <= high,
    ;
}

/// The product of a count of dice and a face is far from the limits of
/// `i128`.
pub proof fn lemma_product_bounds(count: int, face: int)
    requires
        0 <= count <= u32::MAX,
        i32::MIN <= face <= i32::MAX,
    ensures
        -0x8000_0000_0000_0000 <= count * face <= 0x8000_0000_0000_0000,
{
    assert(-0x8000_0000_0000_0000 <= count * face <= 0x8000_0000_0000_0000) by (nonlinear_arith)
        requires
            0 <= count <= 0xffff_ffff,
            -0x8000_0000 <= face <= 0x7fff_ffff,
    ;
}

} // verus!
