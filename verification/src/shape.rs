//! The shape of a die: how many faces it has and what each face shows.
//!
//! A shape is written after the `d` of a roll: a numeral (`6`), `F` for a
//! fudge die, `%` for a percentile die, or a list of faces in braces
//! (`{1,1,0,0,-1,-1}`).

use crate::error::ParseRollError;
use crate::text::{chars_of, decimal_value, digit, is_digit, is_whitespace, numeral, parse_numeral};
use crate::text::{lemma_decimal_value_push, whitespace};
use vstd::prelude::*;

verus! {

/// A character that ends a face in a list of faces.
pub open spec fn separator(c: char) -> bool {
    c == ',' || c == '}'
}

/// The position of the first character at or after `from` that is not
/// whitespace: the length of `s` where there is none.
pub open spec fn first_visible(s: Seq<char>, from: int) -> int
    decreases s.len() - from,
{
    if 0 <= from < s.len() && whitespace(s[from]) {
        first_visible(s, from + 1)
    } else {
        from
    }
}

/// The position of the first separator at or after `from`: the length of `s`
/// where there is none.
pub open spec fn first_separator(s: Seq<char>, from: int) -> int
    decreases s.len() - from,
{
    if 0 <= from < s.len() && !separator(s[from]) {
        first_separator(s, from + 1)
    } else {
        from
    }
}

/// The decimal digits among the characters of `s`, in order.
pub open spec fn digits_of(s: Seq<char>) -> Seq<char> {
    s.filter(|c: char| digit(c))
}

/// The number that one face shows. `piece` runs from the first character of
/// the face that is not whitespace up to its separator. It opens with a digit
/// or with `-`; whitespace may stand anywhere after that, and is ignored;
/// the digits, read together, give the magnitude.
pub open spec fn face_value(piece: Seq<char>) -> Result<i32, ParseRollError>
    recommends
        piece.len() > 0,
{
    let first = piece[0];
    let magnitude = decimal_value(digits_of(piece));
    if first != '-' && !digit(first) {
        Err(ParseRollError::InvalidDigit(first))
    } else if exists|k: int|
        1 <= k < piece.len() && !digit(#[trigger] piece[k]) && !whitespace(piece[k]) {
        Err(ParseRollError::InvalidDieValue)
    } else if digits_of(piece).len() == 0 || magnitude > i32::MAX {
        Err(ParseRollError::InvalidDieValue)
    } else if first == '-' {
        Ok((-(magnitude as int)) as i32)
    } else {
        Ok(magnitude as i32)
    }
}

/// The face that is written at or after `from`, with the position behind its
/// separator; `None` where only whitespace is left.
pub open spec fn value_at(s: Seq<char>, from: int) -> Result<Option<(i32, int)>, ParseRollError> {
    let start = first_visible(s, from);
    if start >= s.len() {
        Ok(None)
    } else {
        let end = first_separator(s, start + 1);
        match face_value(s.subrange(start, end)) {
            Err(e) => Err(e),
            Ok(v) => Ok(Some((v, if end < s.len() { end + 1 } else { end }))),
        }
    }
}

/// `head`, followed by what `tail` holds, where `tail` is no error.
pub open spec fn prepend(head: Seq<i32>, tail: Result<Seq<i32>, ParseRollError>) -> Result<
    Seq<i32>,
    ParseRollError,
> {
    match tail {
        Ok(t) => Ok(head + t),
        Err(e) => Err(e),
    }
}

/// The faces that are written at or after `from`, in order, or the first
/// error among them.
pub open spec fn faces_from(s: Seq<char>, from: int) -> Result<Seq<i32>, ParseRollError>
    decreases s.len() - from,
    when from >= 0
    via faces_from_decreases
{
    match value_at(s, from) {
        Err(e) => Err(e),
        Ok(None) => Ok(Seq::empty()),
        Ok(Some((v, next))) => prepend(seq![v], faces_from(s, next)),
    }
}

#[via_fn]
proof fn faces_from_decreases(s: Seq<char>, from: int) {
    lemma_first_visible_bounds(s, from);
    let start = first_visible(s, from);
    if start < s.len() {
        lemma_first_separator_bounds(s, start + 1);
        let end = first_separator(s, start + 1);
        assert(from < end <= s.len());
    }
}

/// The faces of an ordinary die: the numbers from one to `sides`.
pub open spec fn normal_faces(sides: u32) -> Seq<i32> {
    Seq::new(sides as nat, |i: int| (i + 1) as i32)
}

/// The faces of a fudge die.
pub open spec fn fudge_faces() -> Seq<i32> {
    seq![1i32, 1i32, 0i32, 0i32, -1i32, -1i32]
}

/// The list of faces is empty: the first character behind the opening brace
/// that is not whitespace is the closing brace.
pub open spec fn empty_list(s: Seq<char>) -> bool {
    let start = first_visible(s, 1);
    start < s.len() && s[start] == '}'
}

/// The die that a list of faces in braces describes. The list opens with
/// `{`. Where it closes at once, the die has no face, and what follows is
/// not read. Otherwise the faces follow, each ended by `,` or `}` or by the
/// end of the text.
pub open spec fn custom_die(s: Seq<char>) -> Result<(u32, Seq<i32>), ParseRollError> {
    if s.len() == 0 || s[0] != '{' {
        Err(ParseRollError::CustomDieSyntaxError)
    } else if empty_list(s) {
        Ok((0u32, Seq::empty()))
    } else {
        match faces_from(s, 1) {
            Err(e) => Err(e),
            Ok(faces) => if faces.len() > u32::MAX {
                Err(ParseRollError::InvalidSides)
            } else {
                Ok((faces.len() as u32, faces))
            },
        }
    }
}

/// The die that a shape describes: its number of faces and what they show.
/// The first character decides the kind; for a fudge die and a percentile
/// die the rest is not read.
pub open spec fn die_shape(s: Seq<char>) -> Result<(u32, Seq<i32>), ParseRollError> {
    if s.len() > 0 && s[0] == '{' {
        custom_die(s)
    } else if s.len() > 0 && (s[0] == 'F' || s[0] == 'f') {
        Ok((6u32, fudge_faces()))
    } else if s.len() > 0 && s[0] == '%' {
        Ok((100u32, normal_faces(100)))
    } else {
        match numeral(s, i32::MAX as nat) {
            Some(n) => Ok((n as u32, normal_faces(n as u32))),
            None => Err(ParseRollError::InvalidSides),
        }
    }
}

/// What a die and its faces are in contracts.
pub open spec fn shape_view(r: Result<(u32, Vec<i32>), ParseRollError>) -> Result<
    (u32, Seq<i32>),
    ParseRollError,
> {
    match r {
        Ok((sides, values)) => Ok((sides, values@)),
        Err(e) => Err(e),
    }
}

/// What a face and the position behind it are in contracts.
pub open spec fn value_view(r: Result<Option<(i32, usize)>, ParseRollError>) -> Result<
    Option<(i32, int)>,
    ParseRollError,
> {
    match r {
        Ok(Some((v, next))) => Ok(Some((v, next as int))),
        Ok(None) => Ok(None),
        Err(e) => Err(e),
    }
}

/// What a list of faces is in contracts.
pub open spec fn faces_view(r: Result<Vec<i32>, ParseRollError>) -> Result<Seq<i32>, ParseRollError> {
    match r {
        Ok(values) => Ok(values@),
        Err(e) => Err(e),
    }
}

/// `first_visible` stops at or after where it starts, and within the text.
pub proof fn lemma_first_visible_bounds(s: Seq<char>, from: int)
    ensures
        from <= first_visible(s, from),
        from <= s.len() ==> first_visible(s, from) <= s.len(),
    decreases s.len() - from,
{
    if 0 <= from < s.len() && whitespace(s[from]) {
        lemma_first_visible_bounds(s, from + 1);
    }
}

/// `first_separator` stops at or after where it starts, and within the
/// text.
pub proof fn lemma_first_separator_bounds(s: Seq<char>, from: int)
    ensures
        from <= first_separator(s, from),
        from <= s.len() ==> first_separator(s, from) <= s.len(),
    decreases s.len() - from,
{
    if 0 <= from < s.len() && !separator(s[from]) {
        lemma_first_separator_bounds(s, from + 1);
    }
}

/// From `from` up to where `first_visible` stops, all is whitespace; where
/// it stops before the end, there is none.
pub proof fn lemma_first_visible_run(s: Seq<char>, from: int)
    requires
        0 <= from <= s.len(),
    ensures
        from <= first_visible(s, from) <= s.len(),
        forall|k: int| from <= k < first_visible(s, from) ==> whitespace(#[trigger] s[k]),
        first_visible(s, from) < s.len() ==> !whitespace(s[first_visible(s, from)]),
    decreases s.len() - from,
{
    if from < s.len() && whitespace(s[from]) {
        lemma_first_visible_run(s, from + 1);
    }
}

/// From `from` up to where `first_separator` stops, there is no separator;
/// where it stops before the end, there is one.
pub proof fn lemma_first_separator_run(s: Seq<char>, from: int)
    requires
        0 <= from <= s.len(),
    ensures
        from <= first_separator(s, from) <= s.len(),
        forall|k: int| from <= k < first_separator(s, from) ==> !separator(#[trigger] s[k]),
        first_separator(s, from) < s.len() ==> separator(s[first_separator(s, from)]),
    decreases s.len() - from,
{
    if from < s.len() && !separator(s[from]) {
        lemma_first_separator_run(s, from + 1);
    }
}

/// Where whitespace runs from `from` up to `to` and stops there,
/// `first_visible` finds `to`.
pub proof fn lemma_first_visible_is(s: Seq<char>, from: int, to: int)
    requires
        0 <= from <= to <= s.len(),
        forall|k: int| from <= k < to ==> whitespace(#[trigger] s[k]),
        to < s.len() ==> !whitespace(s[to]),
    ensures
        first_visible(s, from) == to,
    decreases to - from,
{
    if from < to {
        lemma_first_visible_is(s, from + 1, to);
    }
}

/// Where no separator stands from `from` up to `to`, the first separator is
/// at `to` or behind it; it is at `to` where one stands there or the text
/// ends.
pub proof fn lemma_first_separator_from(s: Seq<char>, from: int, to: int)
    requires
        0 <= from <= to <= s.len(),
        forall|k: int| from <= k < to ==> !separator(#[trigger] s[k]),
    ensures
        to <= first_separator(s, from) <= s.len(),
        to == s.len() || separator(s[to]) ==> first_separator(s, from) == to,
    decreases to - from,
{
    if from < to {
        lemma_first_separator_from(s, from + 1, to);
    } else {
        lemma_first_separator_bounds(s, from);
    }
}

/// The digits of a text that grows by one character.
pub proof fn lemma_digits_of_push(s: Seq<char>, c: char)
    ensures
        digits_of(s.push(c)) == if digit(c) {
            digits_of(s).push(c)
        } else {
            digits_of(s)
        },
{
    s.lemma_filter_push(c, |c: char| digit(c));
}

/// A face that was read ends behind where it was looked for, and within the
/// text.
pub proof fn lemma_value_at_advances(s: Seq<char>, from: int)
    requires
        0 <= from,
    ensures
        match value_at(s, from) {
            Ok(Some((_, next))) => from < next <= s.len(),
            _ => true,
        },
{
    lemma_first_visible_bounds(s, from);
    let start = first_visible(s, from);
    if start < s.len() {
        lemma_first_separator_bounds(s, start + 1);
    }
}

/// A die that was read has as many values as it has faces.
pub proof fn lemma_die_shape_len(s: Seq<char>)
    ensures
        match die_shape(s) {
            Ok((sides, values)) => values.len() == sides,
            Err(_) => true,
        },
{
}

/// The position of the first character at or after `from` that is not
/// whitespace.
pub fn skip_whitespace(s: &[char], from: usize) -> (r: usize)
    ensures
        r == first_visible(s@, from as int),
{
    let mut i: usize = from;
    while i < s.len() && is_whitespace(s[i])
        invariant
            from <= i,
            i <= s.len() || i == from,
            forall|k: int| from <= k < i ==> whitespace(#[trigger] s@[k]),
        decreases s.len() - i,
    {
        i += 1;
    }
    proof {
        if from <= s.len() {
            lemma_first_visible_is(s@, from as int, i as int);
        }
    }
    i
}

/// Reads the face at or after `from`: its number and the position behind its
/// separator, or `None` where only whitespace is left.
pub fn parse_value(s: &[char], from: usize) -> (r: Result<Option<(i32, usize)>, ParseRollError>)
    ensures
        value_view(r) == value_at(s@, from as int),
{
    let start = skip_whitespace(s, from);
    if start >= s.len() {
        return Ok(None);
    }
    let first = s[start];
    let negative = first == '-';
    let mut magnitude: u32 = 0;
    let mut any_digit = false;
    let mut too_large = false;
    if !negative {
        if is_digit(first) {
            magnitude = first as u32 - '0' as u32;
            any_digit = true;
        } else {
            proof {
                lemma_first_separator_bounds(s@, start + 1);
            }
            return Err(ParseRollError::InvalidDigit(first));
        }
    }
    proof {
        let one = s@.subrange(start as int, start + 1);
        assert(one =~= Seq::<char>::empty().push(first));
        lemma_digits_of_push(Seq::<char>::empty(), first);
        reveal(Seq::filter);
        assert(digits_of(Seq::<char>::empty()) =~= Seq::<char>::empty());
        lemma_decimal_value_push(Seq::<char>::empty(), first);
    }
    let mut i: usize = start + 1;
    while i < s.len() && !(s[i] == ',' || s[i] == '}')
        invariant
            start == first_visible(s@, from as int),
            start < i <= s.len(),
            first == s@[start as int],
            first == '-' || digit(first),
            forall|k: int| start < k < i ==> !separator(#[trigger] s@[k]),
            forall|k: int| start < k < i ==> digit(#[trigger] s@[k]) || whitespace(s@[k]),
            any_digit == (digits_of(s@.subrange(start as int, i as int)).len() > 0),
            too_large ==> decimal_value(digits_of(s@.subrange(start as int, i as int))) > i32::MAX,
            !too_large ==> magnitude == decimal_value(digits_of(s@.subrange(start as int, i as int))),
            magnitude <= i32::MAX,
        decreases s.len() - i,
    {
        let c = s[i];
        proof {
            let before = s@.subrange(start as int, i as int);
            assert(s@.subrange(start as int, i + 1) =~= before.push(c));
            lemma_digits_of_push(before, c);
            lemma_decimal_value_push(digits_of(before), c);
        }
        if is_digit(c) {
            let d: u32 = c as u32 - '0' as u32;
            if too_large || magnitude > (0x7fff_ffffu32 - d) / 10 {
                too_large = true;
            } else {
                magnitude = magnitude * 10 + d;
            }
            any_digit = true;
        } else if is_whitespace(c) {
        } else {
            proof {
                assert(!separator(s@[i as int]));
                lemma_first_separator_from(s@, start + 1, i + 1);
                let end = first_separator(s@, start + 1);
                let piece = s@.subrange(start as int, end);
                let k = i - start;
                assert(piece[0] == first);
                assert(1 <= k < piece.len() && !digit(piece[k]) && !whitespace(piece[k]));
            }
            return Err(ParseRollError::InvalidDieValue);
        }
        i += 1;
    }
    let next: usize = if i < s.len() { i + 1 } else { i };
    proof {
        lemma_first_separator_from(s@, start + 1, i as int);
        let piece = s@.subrange(start as int, i as int);
        assert(piece[0] == first);
        assert forall|k: int| 1 <= k < piece.len() implies digit(#[trigger] piece[k]) || whitespace(
            piece[k],
        ) by {
            assert(piece[k] == s@[start + k]);
        }
    }
    if !any_digit || too_large {
        return Err(ParseRollError::InvalidDieValue);
    }
    if negative {
        Ok(Some((0 - (magnitude as i32), next)))
    } else {
        Ok(Some((magnitude as i32, next)))
    }
}

/// Reads the faces at or after `from`, up to the end of the text.
pub fn parse_values(s: &[char], from: usize) -> (r: Result<Vec<i32>, ParseRollError>)
    ensures
        faces_view(r) == faces_from(s@, from as int),
{
    let mut values: Vec<i32> = Vec::new();
    let mut position: usize = from;
    loop
        invariant
            faces_from(s@, from as int) == prepend(values@, faces_from(s@, position as int)),
        decreases s.len() - position,
    {
        proof {
            lemma_value_at_advances(s@, position as int);
        }
        match parse_value(s, position) {
            Err(e) => {
                return Err(e);
            },
            Ok(None) => {
                assert(values@ + Seq::<i32>::empty() =~= values@);
                return Ok(values);
            },
            Ok(Some((v, next))) => {
                proof {
                    let rest = faces_from(s@, next as int);
                    if let Ok(t) = rest {
                        assert(values@ + (seq![v] + t) =~= values@.push(v) + t);
                    }
                }
                values.push(v);
                position = next;
            },
        }
    }
}

/// Reads a list of faces in braces: the number of faces and what they show.
pub fn parse_custom_die(s: &str) -> (r: Result<(u32, Vec<i32>), ParseRollError>)
    ensures
        shape_view(r) == custom_die(s@),
{
    let chars = chars_of(s);
    if chars.len() == 0 || chars[0] != '{' {
        return Err(ParseRollError::CustomDieSyntaxError);
    }
    let start = skip_whitespace(chars.as_slice(), 1);
    if start < chars.len() && chars[start] == '}' {
        return Ok((0, Vec::new()));
    }
    let values = parse_values(chars.as_slice(), 1)?;
    if values.len() > 0xffff_ffff {
        return Err(ParseRollError::InvalidSides);
    }
    Ok((values.len() as u32, values))
}

/// The faces of an ordinary die with `sides` faces.
pub fn normal_die(sides: u32) -> (values: Vec<i32>)
    requires
        sides <= i32::MAX,
    ensures
        values@ == normal_faces(sides),
{
    let mut values: Vec<i32> = Vec::new();
    let mut i: u32 = 0;
    while i < sides
        invariant
            i <= sides <= i32::MAX,
            values@ == normal_faces(i),
        decreases sides - i,
    {
        i += 1;
        values.push(i as i32);
        assert(values@ =~= normal_faces(i));
    }
    values
}

/// Reads the shape of a die.
pub fn parse_sides(s: &str) -> (r: Result<(u32, Vec<i32>), ParseRollError>)
    ensures
        shape_view(r) == die_shape(s@),
{
    let chars = chars_of(s);
    if chars.len() > 0 {
        let c = chars[0];
        if c == '{' {
            return parse_custom_die(s);
        } else if c == 'F' || c == 'f' {
            let values: Vec<i32> = vec![1, 1, 0, 0, -1, -1];
            assert(values@ =~= fudge_faces());
            return Ok((6, values));
        } else if c == '%' {
            return Ok((100, normal_die(100)));
        }
    }
    match parse_numeral(chars.as_slice(), 0x7fff_ffff) {
        Some(n) => Ok((n, normal_die(n))),
        None => Err(ParseRollError::InvalidSides),
    }
}

} // verus!
