//! Whitespace in a list of faces: taking it out changes nothing of what the
//! list describes.

use crate::error::ParseRollError;
use crate::shape::{digits_of, face_value, faces_from, first_separator, first_visible, separator};
use crate::shape::{lemma_first_separator_bounds, lemma_first_separator_from};
use crate::shape::{lemma_first_separator_run, lemma_first_visible_bounds, lemma_first_visible_run};
use crate::shape::value_at;
use crate::text::{digit, whitespace};
use vstd::prelude::*;

verus! {

/// The characters of `s` that are not whitespace, in order.
pub open spec fn without_whitespace(s: Seq<char>) -> Seq<char> {
    s.filter(|c: char| !whitespace(c))
}

/// What is left of two texts, one after the other, is what is left of the
/// first and then what is left of the second.
pub proof fn lemma_without_whitespace_add(a: Seq<char>, b: Seq<char>)
    ensures
        without_whitespace(a + b) == without_whitespace(a) + without_whitespace(b),
{
    Seq::filter_distributes_over_add(a, b, |c: char| !whitespace(c));
}

/// What is left of a single character.
pub proof fn lemma_without_whitespace_one(c: char)
    ensures
        without_whitespace(seq![c]) == if whitespace(c) {
            Seq::<char>::empty()
        } else {
            seq![c]
        },
{
    reveal_with_fuel(Seq::filter, 2);
    assert(seq![c].drop_last() =~= Seq::<char>::empty());
    assert(without_whitespace(seq![c]) =~= if whitespace(c) {
        Seq::<char>::empty()
    } else {
        seq![c]
    });
}

/// What is left holds no whitespace and only characters of the text, and
/// every character of the text that is no whitespace is left.
pub proof fn lemma_without_whitespace_members(s: Seq<char>)
    ensures
        forall|i: int|
            0 <= i < without_whitespace(s).len() ==> !whitespace(
                #[trigger] without_whitespace(s)[i],
            ) && s.contains(without_whitespace(s)[i]),
        forall|i: int|
            0 <= i < s.len() && !whitespace(s[i]) ==> without_whitespace(s).contains(
                #[trigger] s[i],
            ),
{
    let keep = |c: char| !whitespace(c);
    #[allow(deprecated)]
    s.filter_lemma(keep);
    assert forall|i: int| 0 <= i < without_whitespace(s).len() implies !whitespace(
        #[trigger] without_whitespace(s)[i],
    ) && s.contains(without_whitespace(s)[i]) by {
        let c = without_whitespace(s)[i];
        assert(s.filter(keep).contains(c));
        s.lemma_filter_contains_rev(keep, c);
    }
    assert forall|i: int| 0 <= i < s.len() && !whitespace(s[i]) implies without_whitespace(
        s,
    ).contains(#[trigger] s[i]) by {
        assert(keep(s[i]));
    }
}

/// Nothing is left of a text that is all whitespace.
pub proof fn lemma_without_whitespace_none(s: Seq<char>)
    requires
        forall|i: int| 0 <= i < s.len() ==> whitespace(#[trigger] s[i]),
    ensures
        without_whitespace(s) == Seq::<char>::empty(),
{
    lemma_without_whitespace_members(s);
    if without_whitespace(s).len() > 0 {
        let c = without_whitespace(s)[0];
        assert(s.contains(c));
    }
    assert(without_whitespace(s) =~= Seq::<char>::empty());
}

/// The digits of a text are the digits of what is left of it.
pub proof fn lemma_digits_without_whitespace(s: Seq<char>)
    ensures
        digits_of(without_whitespace(s)) == digits_of(s),
    decreases s.len(),
{
    reveal(Seq::filter);
    if s.len() > 0 {
        let before = s.drop_last();
        let c = s.last();
        lemma_digits_without_whitespace(before);
        assert(s =~= before.push(c));
        before.lemma_filter_push(c, |c: char| !whitespace(c));
        before.lemma_filter_push(c, |c: char| digit(c));
        without_whitespace(before).lemma_filter_push(c, |c: char| digit(c));
    }
}

/// Positions in a text and in what is left after its first `n` characters
/// differ by `n`.
pub proof fn lemma_first_visible_skip(s: Seq<char>, n: int, from: int)
    requires
        0 <= n,
        0 <= from,
        n + from <= s.len(),
    ensures
        first_visible(s, n + from) == n + first_visible(s.skip(n), from),
    decreases s.len() - from,
{
    if n + from < s.len() {
        assert(s.skip(n)[from] == s[n + from]);
        if whitespace(s[n + from]) {
            lemma_first_visible_skip(s, n, from + 1);
        }
    }
}

/// Positions in a text and in what is left after its first `n` characters
/// differ by `n`.
pub proof fn lemma_first_separator_skip(s: Seq<char>, n: int, from: int)
    requires
        0 <= n,
        0 <= from,
        n + from <= s.len(),
    ensures
        first_separator(s, n + from) == n + first_separator(s.skip(n), from),
    decreases s.len() - from,
{
    if n + from < s.len() {
        assert(s.skip(n)[from] == s[n + from]);
        if !separator(s[n + from]) {
            lemma_first_separator_skip(s, n, from + 1);
        }
    }
}

/// The faces from a position on are the faces of the rest of the text.
pub proof fn lemma_faces_from_skip(s: Seq<char>, from: int)
    requires
        0 <= from <= s.len(),
    ensures
        faces_from(s, from) == faces_from(s.skip(from), 0),
    decreases s.len() - from,
{
    let rest = s.skip(from);
    lemma_first_visible_skip(s, from, 0);
    lemma_first_visible_bounds(rest, 0);
    let start = first_visible(s, from);
    let start_rest = first_visible(rest, 0);
    if start < s.len() {
        lemma_first_separator_skip(s, from, start_rest + 1);
        lemma_first_separator_bounds(rest, start_rest + 1);
        let end = first_separator(s, start + 1);
        let end_rest = first_separator(rest, start_rest + 1);
        assert(s.subrange(start, end) =~= rest.subrange(start_rest, end_rest));
        if let Ok(Some((v, next))) = value_at(s, from) {
            let next_rest = next - from;
            assert(value_at(rest, 0) == Ok::<Option<(i32, int)>, ParseRollError>(
                Some((v, next_rest)),
            ));
            lemma_faces_from_skip(s, next);
            lemma_faces_from_skip(rest, next_rest);
            assert(rest.skip(next_rest) =~= s.skip(next));
        }
    }
}

/// What a face shows is what it shows with its whitespace taken out.
pub proof fn lemma_face_value_without_whitespace(piece: Seq<char>)
    requires
        piece.len() > 0,
        !whitespace(piece[0]),
    ensures
        without_whitespace(piece).len() > 0,
        without_whitespace(piece)[0] == piece[0],
        face_value(without_whitespace(piece)) == face_value(piece),
{
    let first = piece[0];
    let body = piece.skip(1);
    let bare = without_whitespace(piece);
    assert(piece =~= seq![first] + body);
    lemma_without_whitespace_add(seq![first], body);
    lemma_without_whitespace_one(first);
    assert(bare =~= seq![first] + without_whitespace(body));
    lemma_without_whitespace_members(body);
    lemma_digits_without_whitespace(piece);
    let wrong = |c: char| !digit(c) && !whitespace(c);
    if exists|k: int| 1 <= k < piece.len() && !digit(#[trigger] piece[k]) && !whitespace(piece[k]) {
        let k = choose|k: int|
            1 <= k < piece.len() && !digit(#[trigger] piece[k]) && !whitespace(piece[k]);
        assert(body[k - 1] == piece[k]);
        assert(without_whitespace(body).contains(body[k - 1]));
        let j = choose|j: int|
            0 <= j < without_whitespace(body).len() && without_whitespace(body)[j] == piece[k];
        assert(bare[j + 1] == piece[k]);
        assert(1 <= j + 1 < bare.len() && !digit(bare[j + 1]) && !whitespace(bare[j + 1]));
    }
    if exists|k: int| 1 <= k < bare.len() && !digit(#[trigger] bare[k]) && !whitespace(bare[k]) {
        let k = choose|k: int|
            1 <= k < bare.len() && !digit(#[trigger] bare[k]) && !whitespace(bare[k]);
        assert(without_whitespace(body)[k - 1] == bare[k]);
        assert(body.contains(without_whitespace(body)[k - 1]));
        let j = choose|j: int| 0 <= j < body.len() && body[j] == bare[k];
        assert(piece[j + 1] == bare[k]);
        assert(1 <= j + 1 < piece.len() && !digit(piece[j + 1]) && !whitespace(piece[j + 1]));
    }
}

/// The faces of a text are the faces of the text with its whitespace taken
/// out.
pub proof fn lemma_faces_without_whitespace(s: Seq<char>)
    ensures
        faces_from(without_whitespace(s), 0) == faces_from(s, 0),
    decreases s.len(),
{
    let bare = without_whitespace(s);
    lemma_first_visible_run(s, 0);
    let start = first_visible(s, 0);
    if start >= s.len() {
        lemma_without_whitespace_none(s);
    } else if start > 0 {
        let rest = s.skip(start);
        assert(s =~= s.take(start) + rest);
        lemma_without_whitespace_add(s.take(start), rest);
        lemma_without_whitespace_none(s.take(start));
        assert(bare =~= without_whitespace(rest));
        lemma_faces_without_whitespace(rest);
        lemma_faces_from_skip(s, start);
        assert(first_visible(s, start) == start);
        assert(value_at(s, 0) == value_at(s, start));
    } else {
        let first = s[0];
        lemma_first_separator_run(s, 1);
        let end = first_separator(s, 1);
        let piece = s.subrange(0, end);
        let tail = s.skip(end);
        assert(s =~= piece + tail);
        lemma_without_whitespace_add(piece, tail);
        lemma_face_value_without_whitespace(piece);
        let bare_piece = without_whitespace(piece);
        let bare_end = bare_piece.len() as int;
        lemma_without_whitespace_members(piece);
        assert(bare[0] == first);
        assert(first_visible(bare, 0) == 0);
        if first != '-' && !digit(first) {
            lemma_first_separator_bounds(bare, 1);
            assert(bare.subrange(0, first_separator(bare, 1))[0] == first);
        } else {
            assert forall|k: int| 1 <= k < bare_piece.len() implies !separator(
                #[trigger] bare[k],
            ) by {
                assert(bare[k] == bare_piece[k]);
                assert(piece.contains(bare_piece[k]));
                let j = choose|j: int| 0 <= j < piece.len() && piece[j] == bare_piece[k];
                assert(piece[j] == s[j]);
            }
            if end < s.len() {
                let mark = s[end];
                let rest = s.skip(end + 1);
                assert(tail =~= seq![mark] + rest);
                lemma_without_whitespace_add(seq![mark], rest);
                lemma_without_whitespace_one(mark);
                assert(bare =~= bare_piece + seq![mark] + without_whitespace(rest));
                assert(bare[bare_end] == mark);
                lemma_first_separator_from(bare, 1, bare_end);
                assert(bare.subrange(0, bare_end) =~= bare_piece);
                assert(bare.skip(bare_end + 1) =~= without_whitespace(rest));
                lemma_faces_without_whitespace(rest);
                lemma_faces_from_skip(s, end + 1);
                lemma_faces_from_skip(bare, bare_end + 1);
            } else {
                assert(tail =~= Seq::<char>::empty());
                lemma_without_whitespace_none(tail);
                assert(bare =~= bare_piece);
                lemma_first_separator_from(bare, 1, bare.len() as int);
                assert(bare.subrange(0, bare.len() as int) =~= bare_piece);
                assert(s.skip(end) =~= Seq::<char>::empty());
                lemma_faces_from_skip(s, end);
                lemma_faces_from_skip(bare, bare.len() as int);
                assert(bare.skip(bare.len() as int) =~= Seq::<char>::empty());
            }
        }
    }
}

/// What is left of a text opens with the first character of the text that
/// is not whitespace; nothing is left where there is none.
pub proof fn lemma_without_whitespace_first(s: Seq<char>)
    ensures
        first_visible(s, 0) < s.len() ==> without_whitespace(s).len() > 0 && without_whitespace(
            s,
        )[0] == s[first_visible(s, 0)],
        first_visible(s, 0) >= s.len() ==> without_whitespace(s).len() == 0,
{
    lemma_first_visible_run(s, 0);
    let start = first_visible(s, 0);
    if start < s.len() {
        let rest = s.skip(start + 1);
        assert(s =~= s.take(start) + (seq![s[start]] + rest));
        lemma_without_whitespace_add(s.take(start), seq![s[start]] + rest);
        lemma_without_whitespace_add(seq![s[start]], rest);
        lemma_without_whitespace_none(s.take(start));
        lemma_without_whitespace_one(s[start]);
        assert(without_whitespace(s) =~= seq![s[start]] + without_whitespace(rest));
    } else {
        lemma_without_whitespace_none(s);
    }
}

} // verus!
