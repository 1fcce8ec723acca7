//! A roll: some number of dice of one shape.

use crate::error::ParseRollError;
use crate::pattern::{captures, groups_view, regex_accepts, regex_captures};
use crate::random::draw;
use crate::shape::{die_shape, lemma_die_shape_len, parse_sides};
use crate::text::{chars_of, decimal_text, numeral, parse_numeral, push_decimal};
use rand::Rng;
use std::str::FromStr;
use vstd::prelude::*;
use vstd::string::StringExecFns;

verus! {

/// The regular expression that splits a roll into its number of dice and the
/// shape of the die. The shape may hold any character, a line break too.
pub const ROLL_PATTERN: &'static str = "(?s)(\\d+)?d(.+)";

/// One roll: `dice_count` dice, each with `sides` faces that show `values`.
#[derive(Debug, Clone, PartialEq, Eq)]
pub struct Roll {
    pub dice_count: u32,
    pub sides: u32,
    pub values: Vec<i32>,
}

/// A roll as a mathematical value.
pub struct RollView {
    pub dice_count: u32,
    pub sides: u32,
    pub values: Seq<i32>,
}

impl View for Roll {
    type V = RollView;

    open spec fn view(&self) -> RollView {
        RollView { dice_count: self.dice_count, sides: self.sides, values: self.values@ }
    }
}

/// A die has at least two faces, and never three.
pub open spec fn possible_die(sides: u32) -> bool {
    sides >= 2 && sides != 3
}

impl RollView {
    /// There is at least one die, its shape is possible, and every face has
    /// a value.
    pub open spec fn wf(self) -> bool {
        &&& self.dice_count >= 1
        &&& possible_die(self.sides)
        &&& self.values.len() == self.sides
    }
}

/// What the dice show where `draws` are the faces that came up, counted from
/// zero: for each draw the value of that face.
pub open spec fn outcomes_of(values: Seq<i32>, draws: Seq<u32>) -> Seq<i32> {
    Seq::new(draws.len(), |i: int| values[draws[i] as int])
}

/// Every draw is a face of a die with `sides` faces.
pub open spec fn draws_within(draws: Seq<u32>, sides: u32) -> bool {
    forall|i: int| 0 <= i < draws.len() ==> #[trigger] draws[i] < sides
}

/// What the result of reading a roll is in contracts.
pub open spec fn roll_view(r: Result<Roll, ParseRollError>) -> Result<RollView, ParseRollError> {
    match r {
        Ok(roll) => Ok(roll@),
        Err(e) => Err(e),
    }
}

/// The number of dice that a roll asks for: one where nothing is written,
/// else the numeral's value, which is not zero.
pub open spec fn dice_count_of(count: Option<Seq<char>>) -> Option<u32> {
    match count {
        None => Some(1u32),
        Some(text) => match numeral(text, u32::MAX as nat) {
            Some(n) => if n == 0 {
                None
            } else {
                Some(n as u32)
            },
            None => None,
        },
    }
}

/// The roll that is made of `count`, the text before the `d` where there is
/// any, and `shape`, the text behind it.
pub open spec fn roll_of_parts(count: Option<Seq<char>>, shape: Seq<char>) -> Result<
    RollView,
    ParseRollError,
> {
    match dice_count_of(count) {
        None => Err(ParseRollError::InvalidDiceCount),
        Some(dice_count) => match die_shape(shape) {
            Err(e) => Err(e),
            Ok((n, values)) => if possible_die(n) {
                Ok(RollView { dice_count, sides: n, values })
            } else {
                Err(ParseRollError::ImpossibleDie(n))
            },
        },
    }
}

/// The roll that the groups of a match describe: the first group is the
/// number of dice, the second the shape of the die.
pub open spec fn roll_of_groups(groups: Seq<Option<Seq<char>>>) -> Result<RollView, ParseRollError> {
    if groups.len() < 3 {
        Err(ParseRollError::InvalidRoll)
    } else {
        match groups[2] {
            None => Err(ParseRollError::InvalidRoll),
            Some(shape) => roll_of_parts(groups[1], shape),
        }
    }
}

/// The roll that a match in a text describes. The match has to be the whole
/// text: a roll with anything before it or behind it is none.
pub open spec fn roll_of_match(s: Seq<char>, groups: Seq<Option<Seq<char>>>) -> Result<
    RollView,
    ParseRollError,
> {
    if groups.len() > 0 && groups[0] == Some(s) {
        roll_of_groups(groups)
    } else {
        Err(ParseRollError::InvalidRoll)
    }
}

/// The roll that a text describes: the text is matched against
/// `ROLL_PATTERN`, and the groups of the match are read where the match is
/// the whole text.
pub open spec fn roll_of(s: Seq<char>) -> Result<RollView, ParseRollError> {
    if !regex_accepts(ROLL_PATTERN@) {
        Err(ParseRollError::InvalidRoll)
    } else {
        match regex_captures(ROLL_PATTERN@, s) {
            None => Err(ParseRollError::InvalidRoll),
            Some(groups) => roll_of_match(s, groups),
        }
    }
}

/// How a roll is written: the number of dice, `d`, the number of faces.
pub open spec fn rendering(roll: RollView) -> Seq<char> {
    decimal_text(roll.dice_count as nat) + seq!['d'] + decimal_text(roll.sides as nat)
}

/// Every roll is well formed.
pub open spec fn all_wf(rolls: Seq<Roll>) -> bool {
    forall|i: int| 0 <= i < rolls.len() ==> (#[trigger] rolls[i]).wf()
}

/// What an optional string slice is in contracts.
pub open spec fn text_view(s: Option<&str>) -> Option<Seq<char>> {
    match s {
        Some(s) => Some(s@),
        None => None,
    }
}

impl Roll {
    /// See [`RollView::wf`].
    pub open spec fn wf(&self) -> bool {
        self@.wf()
    }

    /// Whether the roll is well formed.
    pub fn is_valid(&self) -> (r: bool)
        ensures
            r == self.wf(),
    {
        self.dice_count >= 1 && self.sides >= 2 && self.sides != 3 && self.values.len()
            == self.sides as usize
    }

    /// `outcomes` is something that this roll can show: one outcome for each
    /// die, each the value of one of the faces.
    pub open spec fn can_show(&self, outcomes: Seq<i32>) -> bool {
        exists|draws: Seq<u32>|
            {
                &&& draws.len() == self.dice_count
                &&& draws_within(draws, self.sides)
                &&& outcomes == #[trigger] outcomes_of(self.values@, draws)
            }
    }

    /// What the dice show for the faces that came up.
    pub fn outcomes(&self, draws: &[u32]) -> (results: Vec<i32>)
        requires
            self.wf(),
            draws_within(draws@, self.sides),
        ensures
            results@ == outcomes_of(self.values@, draws@),
    {
        let mut results: Vec<i32> = Vec::new();
        let mut i: usize = 0;
        while i < draws.len()
            invariant
                i <= draws.len(),
                self.wf(),
                draws_within(draws@, self.sides),
                results@ == outcomes_of(self.values@, draws@.take(i as int)),
            decreases draws.len() - i,
        {
            let index: usize = draws[i] as usize;
            results.push(self.values[index]);
            i += 1;
            assert(results@ =~= outcomes_of(self.values@, draws@.take(i as int)));
        }
        assert(draws@.take(draws@.len() as int) =~= draws@);
        results
    }

    /// Rolls the dice: draws a face for each die and returns what they show,
    /// in the order of the draws.
    pub fn roll<T: Rng>(&self, rng: &mut T) -> (results: Vec<i32>)
        requires
            self.wf(),
        ensures
            self.can_show(results@),
    {
        let mut draws: Vec<u32> = Vec::new();
        let mut i: u32 = 0;
        while i < self.dice_count
            invariant
                i <= self.dice_count,
                self.wf(),
                draws@.len() == i,
                draws_within(draws@, self.sides),
            decreases self.dice_count - i,
        {
            let index: u32 = draw(rng, 0, self.sides);
            draws.push(index);
            i += 1;
        }
        self.outcomes(draws.as_slice())
    }

    /// Reads a roll from the text before the `d`, where there is any, and the
    /// text behind it.
    pub fn from_parts(count: Option<&str>, shape: &str) -> (r: Result<Roll, ParseRollError>)
        ensures
            roll_view(r) == roll_of_parts(text_view(count), shape@),
            r matches Ok(roll) ==> roll.wf(),
    {
        let dice_count: u32 = match count {
            None => 1,
            Some(text) => {
                let chars = chars_of(text);
                match parse_numeral(chars.as_slice(), 0xffff_ffff) {
                    Some(n) => n,
                    None => 0,
                }
            },
        };
        if dice_count == 0 {
            return Err(ParseRollError::InvalidDiceCount);
        }
        let (sides, values) = parse_sides(shape)?;
        if sides < 2 || sides == 3 {
            return Err(ParseRollError::ImpossibleDie(sides));
        }
        proof {
            lemma_die_shape_len(shape@);
        }
        Ok(Roll { dice_count, sides, values })
    }

    /// Writes the roll as the number of dice, `d`, and the number of faces.
    /// What the faces show is not written.
    pub fn to_string(&self) -> (r: String)
        ensures
            r@ == rendering(self@),
    {
        let mut out = String::new();
        push_decimal(&mut out, self.dice_count);
        proof {
            reveal_strlit("d");
            assert("d"@ =~= seq!['d']);
        }
        out.append("d");
        push_decimal(&mut out, self.sides);
        assert(out@ =~= rendering(self@));
        out
    }

    /// Reads a roll from the groups of a match of `ROLL_PATTERN`.
    pub fn from_groups(groups: &[Option<String>]) -> (r: Result<Roll, ParseRollError>)
        ensures
            roll_view(r) == roll_of_groups(groups_view(groups@)),
            r matches Ok(roll) ==> roll.wf(),
    {
        if groups.len() < 3 {
            return Err(ParseRollError::InvalidRoll);
        }
        match &groups[2] {
            None => Err(ParseRollError::InvalidRoll),
            Some(sides) => {
                let count: Option<&str> = match &groups[1] {
                    Some(text) => Some(text.as_str()),
                    None => None,
                };
                Roll::from_parts(count, sides.as_str())
            },
        }
    }

    /// Reads a roll from the groups of a match of `ROLL_PATTERN` in `text`,
    /// where the match is the whole text.
    pub fn from_match(text: &str, groups: &[Option<String>]) -> (r: Result<Roll, ParseRollError>)
        ensures
            roll_view(r) == roll_of_match(text@, groups_view(groups@)),
            r matches Ok(roll) ==> roll.wf(),
    {
        if groups.len() == 0 {
            return Err(ParseRollError::InvalidRoll);
        }
        match &groups[0] {
            None => Err(ParseRollError::InvalidRoll),
            Some(whole) => {
                let given = text.to_owned();
                if *whole == given {
                    Roll::from_groups(groups)
                } else {
                    Err(ParseRollError::InvalidRoll)
                }
            },
        }
    }

    /// Reads one roll, such as `3d6`, `d20`, `2dF`, `1d%` or `1d{1,1,0,0,-1,-1}`.
    pub fn parse(s: &str) -> (r: Result<Roll, ParseRollError>)
        ensures
            roll_view(r) == roll_of(s@),
            r matches Ok(roll) ==> roll.wf(),
    {
        match captures(ROLL_PATTERN, s) {
            Ok(Some(groups)) => Roll::from_match(s, groups.as_slice()),
            _ => Err(ParseRollError::InvalidRoll),
        }
    }
}

impl FromStr for Roll {
    type Err = ParseRollError;

    fn from_str(s: &str) -> (r: Result<Self, Self::Err>)
        ensures
            roll_view(r) == roll_of(s@),
            r matches Ok(roll) ==> roll.wf(),
    {
        Roll::parse(s)
    }
}

} // verus!
