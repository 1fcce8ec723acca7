//! What holds of reading and rolling dice, whatever the text and whatever
//! the dice show.

use crate::bag::{lemma_can_show_within, lemma_part_of_product, lemma_total_between};
use crate::bag::{lemma_totals_fit_ends, shown_by, totals_fit};
use crate::error::ParseRollError;
use crate::listing::{custom_text, face_text, lemma_face_text, lemma_list_text_reads_back};
use crate::listing::{list_text, writable};
use crate::roll::{all_wf, dice_count_of, draws_within, outcomes_of, possible_die, rendering};
use crate::roll::{roll_of_match, roll_of_parts};
use crate::roll::{Roll, RollView};
use crate::shape::{custom_die, die_shape, first_visible, lemma_first_visible_bounds};
use crate::shape::{fudge_faces, normal_faces};
use crate::spacing::{lemma_faces_from_skip, lemma_faces_without_whitespace};
use crate::spacing::{lemma_first_visible_skip, lemma_without_whitespace_first};
use crate::spacing::lemma_without_whitespace_members;
use crate::spacing::{lemma_without_whitespace_add, lemma_without_whitespace_one, without_whitespace};
use crate::summary::{greatest, highest, least, lemma_sum_add, lemma_sum_between, sum};
use crate::text::{all_digits, decimal_text, decimal_value, digit, lemma_decimal_text, numeral};
use crate::text::whitespace;
use vstd::prelude::*;

verus! {

/// A numeral for a number of dice, not zero, and a numeral for the faces of a
/// possible die describe that many ordinary dice: each has that many faces,
/// numbered from one.
pub proof fn law_numeric_roll(count: Seq<char>, shape: Seq<char>, dice_count: u32, sides: u32)
    requires
        numeral(count, u32::MAX as nat) == Some(dice_count as nat),
        dice_count >= 1,
        numeral(shape, i32::MAX as nat) == Some(sides as nat),
        possible_die(sides),
    ensures
        roll_of_parts(Some(count), shape) == Ok::<RollView, ParseRollError>(
            RollView { dice_count, sides, values: normal_faces(sides) },
        ),
        forall|i: int| 0 <= i < sides ==> normal_faces(sides)[i] == i + 1,
{
    assert(digit(shape[0]));
}

/// A numeral for a number of dice, not zero, and a shape that opens with `F`
/// or `f` describe that many fudge dice, whatever follows the letter.
pub proof fn law_fudge_roll(count: Seq<char>, shape: Seq<char>, dice_count: u32)
    requires
        numeral(count, u32::MAX as nat) == Some(dice_count as nat),
        dice_count >= 1,
        shape.len() > 0,
        shape[0] == 'F' || shape[0] == 'f',
    ensures
        roll_of_parts(Some(count), shape) == Ok::<RollView, ParseRollError>(
            RollView { dice_count, sides: 6, values: fudge_faces() },
        ),
        fudge_faces() == seq![1i32, 1i32, 0i32, 0i32, -1i32, -1i32],
{
}

/// A numeral for a number of dice, not zero, and a shape that opens with `%`
/// describe that many dice with a hundred faces, numbered from one.
pub proof fn law_percentile_roll(count: Seq<char>, shape: Seq<char>, dice_count: u32)
    requires
        numeral(count, u32::MAX as nat) == Some(dice_count as nat),
        dice_count >= 1,
        shape.len() > 0,
        shape[0] == '%',
    ensures
        roll_of_parts(Some(count), shape) == Ok::<RollView, ParseRollError>(
            RollView { dice_count, sides: 100, values: normal_faces(100) },
        ),
        forall|i: int| 0 <= i < 100 ==> normal_faces(100)[i] == i + 1,
{
}

/// A die with fewer than two faces, or with three, is no die: a roll of it
/// fails, and the error says how many faces it has.
pub proof fn law_impossible_die(count: Option<Seq<char>>, shape: Seq<char>)
    requires
        dice_count_of(count) is Some,
        die_shape(shape) is Ok,
        !possible_die(die_shape(shape)->Ok_0.0),
    ensures
        roll_of_parts(count, shape) == Err::<RollView, ParseRollError>(
            ParseRollError::ImpossibleDie(die_shape(shape)->Ok_0.0),
        ),
{
}

/// The groups of a match that is the whole text are read as the number of
/// dice and the shape; a match that is not the whole text is no roll.
pub proof fn law_whole_text(s: Seq<char>, count: Option<Seq<char>>, shape: Seq<char>)
    ensures
        roll_of_match(s, seq![Some(s), count, Some(shape)]) == roll_of_parts(count, shape),
        forall|other: Seq<char>|
            other != s ==> roll_of_match(s, seq![Some(other), count, Some(shape)]) == Err::<
                RollView,
                ParseRollError,
            >(ParseRollError::InvalidRoll),
{
}

/// Where no number of dice is written, there is one die.
pub proof fn law_one_die_unless_counted(shape: Seq<char>)
    ensures
        roll_of_parts(None, shape) == roll_of_parts(Some(seq!['1']), shape),
{
    let one = seq!['1'];
    assert(one.drop_last() =~= Seq::<char>::empty());
    assert(decimal_value(one.drop_last()) == 0);
    assert(decimal_value(one) == 1);
    assert(all_digits(one));
}

/// A roll of dice with at most `i32::MAX` faces is written as two numerals
/// with `d` between them, and these two read back as the roll, with the
/// faces numbered from one: so does a match that is all of what was written
/// and has the two numerals for its groups.
pub proof fn law_rendering_reads_back(roll: RollView)
    requires
        roll.wf(),
        roll.sides <= i32::MAX,
    ensures
        rendering(roll) == decimal_text(roll.dice_count as nat) + seq!['d'] + decimal_text(
            roll.sides as nat,
        ),
        roll_of_match(
            rendering(roll),
            seq![
                Some(rendering(roll)),
                Some(decimal_text(roll.dice_count as nat)),
                Some(decimal_text(roll.sides as nat)),
            ],
        ) == Ok::<RollView, ParseRollError>(
            RollView {
                dice_count: roll.dice_count,
                sides: roll.sides,
                values: normal_faces(roll.sides),
            },
        ),
        roll_of_parts(
            Some(decimal_text(roll.dice_count as nat)),
            decimal_text(roll.sides as nat),
        ) == Ok::<RollView, ParseRollError>(
            RollView {
                dice_count: roll.dice_count,
                sides: roll.sides,
                values: normal_faces(roll.sides),
            },
        ),
{
    lemma_decimal_text(roll.dice_count as nat);
    lemma_decimal_text(roll.sides as nat);
    law_numeric_roll(
        decimal_text(roll.dice_count as nat),
        decimal_text(roll.sides as nat),
        roll.dice_count,
        roll.sides,
    );
}

/// Where every draw is the first face, every die shows what the first face
/// shows.
pub proof fn law_first_face_every_time(values: Seq<i32>, draws: Seq<u32>)
    requires
        forall|i: int| 0 <= i < draws.len() ==> draws[i] == 0,
    ensures
        outcomes_of(values, draws) == Seq::new(draws.len(), |i: int| values[0]),
{
    assert(outcomes_of(values, draws) =~= Seq::new(draws.len(), |i: int| values[0]));
}

/// What a well-formed roll can show has one outcome for each die, and each
/// outcome is the value of one of the faces.
pub proof fn law_outcomes_are_faces(roll: Roll, outcomes: Seq<i32>)
    requires
        roll.wf(),
        roll.can_show(outcomes),
    ensures
        outcomes.len() == roll.dice_count,
        forall|i: int| 0 <= i < outcomes.len() ==> roll.values@.contains(#[trigger] outcomes[i]),
{
    let draws = choose|draws: Seq<u32>|
        {
            &&& draws.len() == roll.dice_count
            &&& draws_within(draws, roll.sides)
            &&& outcomes == #[trigger] outcomes_of(roll.values@, draws)
        };
    assert forall|i: int| 0 <= i < outcomes.len() implies roll.values@.contains(
        #[trigger] outcomes[i],
    ) by {
        assert(draws[i] < roll.sides);
        assert(roll.values@[draws[i] as int] == outcomes[i]);
    }
}

/// The least of some values is one of them, and none is below it.
pub proof fn law_least_is_least(values: Seq<i32>)
    requires
        values.len() > 0,
    ensures
        forall|i: int| 0 <= i < values.len() ==> least(values) <= values[i],
        exists|i: int| 0 <= i < values.len() && least(values) == values[i],
    decreases values.len(),
{
    let before = values.drop_last();
    let last = values.len() - 1;
    if before.len() > 0 {
        law_least_is_least(before);
        let i = choose|i: int| 0 <= i < before.len() && least(before) == before[i];
        assert(before[i] == values[i]);
        assert forall|j: int| 0 <= j < values.len() implies least(values) <= values[j] by {
            if j < last {
                assert(before[j] == values[j]);
            }
        }
        if values.last() < least(before) {
            assert(least(values) == values[last]);
        } else {
            assert(least(values) == values[i]);
        }
    } else {
        assert(least(before) == i32::MAX);
        assert(least(values) == values[last]);
    }
}

/// The greatest of some values is one of them, and none is above it.
pub proof fn law_greatest_is_greatest(values: Seq<i32>)
    requires
        values.len() > 0,
    ensures
        forall|i: int| 0 <= i < values.len() ==> greatest(values) >= values[i],
        exists|i: int| 0 <= i < values.len() && greatest(values) == values[i],
    decreases values.len(),
{
    let before = values.drop_last();
    let last = values.len() - 1;
    if before.len() > 0 {
        law_greatest_is_greatest(before);
        let i = choose|i: int| 0 <= i < before.len() && greatest(before) == before[i];
        assert(before[i] == values[i]);
        assert forall|j: int| 0 <= j < values.len() implies greatest(values) >= values[j] by {
            if j < last {
                assert(before[j] == values[j]);
            }
        }
        if values.last() > greatest(before) {
            assert(greatest(values) == values[last]);
        } else {
            assert(greatest(values) == values[i]);
        }
    } else {
        assert(greatest(before) == i32::MIN);
        assert(greatest(values) == values[last]);
    }
}

/// The highest outcome of a summary is the greatest of the outcomes where
/// one of them is above zero, and zero where none is.
pub proof fn law_highest_is_greatest_or_zero(outcomes: Seq<i32>)
    ensures
        (exists|i: int| 0 <= i < outcomes.len() && outcomes[i] > 0) ==> highest(outcomes)
            == greatest(outcomes),
        (forall|i: int| 0 <= i < outcomes.len() ==> outcomes[i] <= 0) ==> highest(outcomes) == 0,
{
    if outcomes.len() > 0 {
        law_greatest_is_greatest(outcomes);
    }
}

/// Whitespace in a list of faces counts for nothing: a text that does not
/// open with whitespace describes the die that it describes with all its
/// whitespace taken out.
pub proof fn law_custom_die_ignores_whitespace(s: Seq<char>)
    requires
        s.len() > 0 ==> !whitespace(s[0]),
    ensures
        custom_die(without_whitespace(s)) == custom_die(s),
{
    if s.len() > 0 {
        let rest = s.skip(1);
        let bare = without_whitespace(s);
        assert(s =~= seq![s[0]] + rest);
        lemma_without_whitespace_add(seq![s[0]], rest);
        lemma_without_whitespace_one(s[0]);
        assert(bare =~= seq![s[0]] + without_whitespace(rest));
        assert(bare[0] == s[0]);
        assert(bare.skip(1) =~= without_whitespace(rest));
        lemma_faces_from_skip(s, 1);
        lemma_faces_from_skip(bare, 1);
        lemma_faces_without_whitespace(rest);
        lemma_first_visible_skip(s, 1, 0);
        lemma_without_whitespace_first(rest);
        lemma_without_whitespace_members(rest);
        lemma_first_visible_bounds(rest, 0);
        let start = first_visible(rest, 0);
        if start < rest.len() {
            assert(s[1 + start] == rest[start]);
            assert(bare[1] == without_whitespace(rest)[0]);
            assert(first_visible(bare, 1) == 1);
        } else {
            assert(bare.len() == 1);
        }
    } else {
        assert(without_whitespace(s).len() == 0) by {
            s.lemma_filter_len(|c: char| !whitespace(c));
        }
    }
}

/// A roll of custom dice is the same roll with the whitespace taken out of
/// its list of faces.
pub proof fn law_custom_roll_ignores_whitespace(count: Option<Seq<char>>, shape: Seq<char>)
    requires
        shape.len() > 0,
        shape[0] == '{',
    ensures
        die_shape(without_whitespace(shape)) == die_shape(shape),
        roll_of_parts(count, without_whitespace(shape)) == roll_of_parts(count, shape),
{
    law_custom_die_ignores_whitespace(shape);
    let rest = shape.skip(1);
    assert(shape =~= seq![shape[0]] + rest);
    lemma_without_whitespace_add(seq![shape[0]], rest);
    lemma_without_whitespace_one(shape[0]);
    assert(without_whitespace(shape) =~= seq![shape[0]] + without_whitespace(rest));
    assert(without_whitespace(shape)[0] == '{');
}

/// A custom die reads as it is written: faces in braces, with commas
/// between them, are those faces, and as many.
pub proof fn law_custom_die_reads_as_written(values: Seq<i32>)
    requires
        values.len() <= u32::MAX,
        writable(values),
    ensures
        custom_die(custom_text(values)) == Ok::<(u32, Seq<i32>), ParseRollError>(
            (values.len() as u32, values),
        ),
{
    let text = custom_text(values);
    let body = list_text(values) + seq!['}'];
    assert(text =~= seq!['{'] + body);
    assert(text.skip(1) =~= body);
    if values.len() == 0 {
        assert(text =~= seq!['{', '}']);
        assert(first_visible(text, 1) == 1);
        assert(values =~= Seq::<i32>::empty());
    } else {
        lemma_face_text(values[0]);
        let face = face_text(values[0]);
        assert(list_text(values) + seq!['}'] =~= if values.len() == 1 {
            face + seq!['}']
        } else {
            face + (seq![','] + list_text(values.drop_first()) + seq!['}'])
        });
        assert(text[1] == face[0]);
        assert(first_visible(text, 1) == 1);
        lemma_faces_from_skip(text, 1);
        lemma_list_text_reads_back(values);
    }
}

/// A custom die reads as it is written, whatever whitespace is put into the
/// text behind the opening brace.
pub proof fn law_spaced_custom_die_reads_as_written(s: Seq<char>, values: Seq<i32>)
    requires
        s.len() > 0 ==> !whitespace(s[0]),
        without_whitespace(s) == custom_text(values),
        values.len() <= u32::MAX,
        writable(values),
    ensures
        custom_die(s) == Ok::<(u32, Seq<i32>), ParseRollError>((values.len() as u32, values)),
{
    law_custom_die_ignores_whitespace(s);
    law_custom_die_reads_as_written(values);
}

/// Where the totals of well-formed rolls fit, the total of what they show
/// lies in `i32` after every single die, whatever the dice show.
pub proof fn law_running_totals_fit(rolls: Seq<Roll>, outcomes: Seq<i32>, n: int)
    requires
        all_wf(rolls),
        totals_fit(rolls),
        shown_by(rolls, outcomes),
        0 <= n <= outcomes.len(),
    ensures
        i32::MIN <= sum(outcomes.take(n)) <= i32::MAX,
    decreases rolls.len(),
{
    if rolls.len() == 0 {
        assert(outcomes.take(n) =~= Seq::<i32>::empty());
    } else {
        let last = rolls.last();
        let before = rolls.drop_last();
        let m = outcomes.len() - last.dice_count;
        assert(last.wf());
        assert forall|i: int| 0 <= i < before.len() implies (#[trigger] before[i]).wf() by {
            assert(rolls[i].wf());
        }
        if n <= m {
            assert(outcomes.take(m).take(n) =~= outcomes.take(n));
            law_running_totals_fit(before, outcomes.take(m), n);
        } else {
            let part = outcomes.skip(m).take(n - m);
            let low = least(last.values@);
            let high = greatest(last.values@);
            assert(outcomes.take(m) + part =~= outcomes.take(n));
            lemma_sum_add(outcomes.take(m), part);
            lemma_total_between(before, outcomes.take(m));
            lemma_totals_fit_ends(before);
            lemma_can_show_within(last, outcomes.skip(m));
            assert forall|i: int| 0 <= i < part.len() implies low <= #[trigger] part[i] <= high by {
                assert(part[i] == outcomes.skip(m)[i]);
            }
            lemma_sum_between(part, low, high);
            lemma_part_of_product(n - m, last.dice_count as int, low);
            lemma_part_of_product(n - m, last.dice_count as int, high);
        }
    }
}

} // verus!
