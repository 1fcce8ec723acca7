//! Dice notation: a text of rolls, which whitespace keeps apart.

use crate::error::ParseRollError;
use crate::roll::{all_wf, roll_of, Roll, RollView};
use crate::shape::{first_visible, lemma_first_visible_bounds, lemma_first_visible_run};
use crate::shape::skip_whitespace;
use crate::text::{chars_of, is_whitespace, whitespace};
use vstd::prelude::*;
use vstd::string::StrSliceExecFns;

verus! {

/// The position of the first whitespace at or after `from`: the length of `s`
/// where there is none.
pub open spec fn first_whitespace(s: Seq<char>, from: int) -> int
    decreases s.len() - from,
{
    if 0 <= from < s.len() && !whitespace(s[from]) {
        first_whitespace(s, from + 1)
    } else {
        from
    }
}

/// `head`, followed by what `tail` holds, where `tail` is no error.
pub open spec fn prepend_rolls(
    head: Seq<RollView>,
    tail: Result<Seq<RollView>, ParseRollError>,
) -> Result<Seq<RollView>, ParseRollError> {
    match tail {
        Ok(t) => Ok(head + t),
        Err(e) => Err(e),
    }
}

/// The rolls that are written at or after `from`, each a run of characters
/// that are not whitespace, or the error of the first that is none.
pub open spec fn rolls_from(s: Seq<char>, from: int) -> Result<Seq<RollView>, ParseRollError>
    decreases s.len() - from,
    when from >= 0
    via rolls_from_decreases
{
    let start = first_visible(s, from);
    if start >= s.len() {
        Ok(Seq::empty())
    } else {
        let end = first_whitespace(s, start);
        match roll_of(s.subrange(start, end)) {
            Err(e) => Err(e),
            Ok(roll) => prepend_rolls(seq![roll], rolls_from(s, end)),
        }
    }
}

#[via_fn]
proof fn rolls_from_decreases(s: Seq<char>, from: int) {
    lemma_first_visible_bounds(s, from);
    let start = first_visible(s, from);
    if start < s.len() {
        lemma_first_visible_run(s, from);
        lemma_first_whitespace_bounds(s, start + 1);
    }
}

/// The rolls that a text describes: the text is cut at whitespace, and each
/// piece is one roll.
pub open spec fn rolls_of(s: Seq<char>) -> Result<Seq<RollView>, ParseRollError> {
    rolls_from(s, 0)
}

/// What the result of reading a list of rolls is in contracts.
pub open spec fn rolls_view(r: Result<Vec<Roll>, ParseRollError>) -> Result<
    Seq<RollView>,
    ParseRollError,
> {
    match r {
        Ok(rolls) => Ok(rolls@.map_values(|roll: Roll| roll@)),
        Err(e) => Err(e),
    }
}

/// `first_whitespace` stops at or after where it starts, and within the
/// text.
pub proof fn lemma_first_whitespace_bounds(s: Seq<char>, from: int)
    ensures
        from <= first_whitespace(s, from),
        from <= s.len() ==> first_whitespace(s, from) <= s.len(),
    decreases s.len() - from,
{
    if 0 <= from < s.len() && !whitespace(s[from]) {
        lemma_first_whitespace_bounds(s, from + 1);
    }
}

/// Where no whitespace stands from `from` up to `to` and one stands at `to`,
/// or the text ends there, `first_whitespace` finds `to`.
pub proof fn lemma_first_whitespace_is(s: Seq<char>, from: int, to: int)
    requires
        0 <= from <= to <= s.len(),
        forall|k: int| from <= k < to ==> !whitespace(#[trigger] s[k]),
        to < s.len() ==> whitespace(s[to]),
    ensures
        first_whitespace(s, from) == to,
    decreases to - from,
{
    if from < to {
        lemma_first_whitespace_is(s, from + 1, to);
    }
}

/// Reads the rolls of a text, which whitespace keeps apart. The first roll
/// that is wrong ends the reading, and its error is returned alone.
pub fn parse_rolls(s: &str) -> (r: Result<Vec<Roll>, ParseRollError>)
    ensures
        rolls_view(r) == rolls_of(s@),
        r matches Ok(rolls) ==> all_wf(rolls@),
{
    let chars = chars_of(s);
    let mut rolls: Vec<Roll> = Vec::new();
    let mut position: usize = 0;
    assert(rolls@.map_values(|roll: Roll| roll@) =~= Seq::<RollView>::empty());
    loop
        invariant
            chars@ == s@,
            position <= chars.len(),
            all_wf(rolls@),
            rolls_of(s@) == prepend_rolls(
                rolls@.map_values(|roll: Roll| roll@),
                rolls_from(s@, position as int),
            ),
        decreases chars.len() - position,
    {
        let ghost read = rolls@.map_values(|roll: Roll| roll@);
        let start = skip_whitespace(chars.as_slice(), position);
        if start >= chars.len() {
            assert(read + Seq::<RollView>::empty() =~= read);
            return Ok(rolls);
        }
        proof {
            lemma_first_visible_run(s@, position as int);
        }
        let mut end: usize = start + 1;
        while end < chars.len() && !is_whitespace(chars[end])
            invariant
                chars@ == s@,
                start < end <= chars.len(),
                forall|k: int| start <= k < end ==> !whitespace(#[trigger] s@[k]),
            decreases chars.len() - end,
        {
            end += 1;
        }
        proof {
            lemma_first_whitespace_is(s@, start as int, end as int);
        }
        let token = s.substring_char(start, end);
        match Roll::parse(token) {
            Err(e) => {
                return Err(e);
            },
            Ok(roll) => {
                proof {
                    if let Ok(t) = rolls_from(s@, end as int) {
                        assert(read + (seq![roll@] + t) =~= read.push(roll@) + t);
                    }
                    assert(rolls@.push(roll).map_values(|roll: Roll| roll@) =~= read.push(roll@));
                }
                rolls.push(roll);
            },
        }
        position = end;
    }
}

} // verus!
