//! How a list of faces is written, and that it reads as it is written.

use crate::error::ParseRollError;
use crate::shape::{digits_of, face_value, faces_from, first_separator, first_visible, separator};
use crate::shape::{lemma_digits_of_push, lemma_first_separator_from, value_at};
use crate::spacing::lemma_faces_from_skip;
use crate::text::{all_digits, decimal_text, digit, lemma_decimal_text, whitespace};
use vstd::prelude::*;

verus! {

/// How a face is written: `-` where it is below zero, then the shortest
/// numeral for how far it lies from zero.
pub open spec fn face_text(v: i32) -> Seq<char> {
    if v < 0 {
        seq!['-'] + decimal_text((-v) as nat)
    } else {
        decimal_text(v as nat)
    }
}

/// How faces are written one after the other, with a comma between each two.
pub open spec fn list_text(values: Seq<i32>) -> Seq<char>
    decreases values.len(),
{
    if values.len() == 0 {
        Seq::empty()
    } else if values.len() == 1 {
        face_text(values[0])
    } else {
        face_text(values[0]) + seq![','] + list_text(values.drop_first())
    }
}

/// How a custom die is written: its faces in braces.
pub open spec fn custom_text(values: Seq<i32>) -> Seq<char> {
    seq!['{'] + list_text(values) + seq!['}']
}

/// Every face can be written but `i32::MIN`, whose magnitude is no `i32`.
pub open spec fn writable(values: Seq<i32>) -> bool {
    forall|i: int| 0 <= i < values.len() ==> #[trigger] values[i] > i32::MIN
}

/// The digits of a text that is all digits are the text.
pub proof fn lemma_digits_of_digits(s: Seq<char>)
    requires
        all_digits(s),
    ensures
        digits_of(s) == s,
    decreases s.len(),
{
    if s.len() == 0 {
        s.lemma_filter_len(|c: char| digit(c));
        assert(digits_of(s) =~= s);
    } else {
        let before = s.drop_last();
        assert(s =~= before.push(s.last()));
        assert forall|i: int| 0 <= i < before.len() implies digit(#[trigger] before[i]) by {
            assert(before[i] == s[i]);
        }
        lemma_digits_of_digits(before);
        lemma_digits_of_push(before, s.last());
        assert(digit(s[s.len() - 1]));
    }
}

/// A digit is neither whitespace nor a separator nor a sign.
pub proof fn lemma_digit_is_plain(c: char)
    requires
        digit(c),
    ensures
        !whitespace(c),
        !separator(c),
        c != '-',
{
}

/// What is written for a face opens with a digit or `-`, goes on in digits,
/// holds neither whitespace nor a separator, and reads as the face.
pub proof fn lemma_face_text(v: i32)
    requires
        v > i32::MIN,
    ensures
        face_text(v).len() > 0,
        face_text(v)[0] == '-' || digit(face_text(v)[0]),
        forall|k: int| 1 <= k < face_text(v).len() ==> digit(#[trigger] face_text(v)[k]),
        forall|k: int|
            0 <= k < face_text(v).len() ==> !separator(#[trigger] face_text(v)[k]) && !whitespace(
                face_text(v)[k],
            ),
        face_value(face_text(v)) == Ok::<i32, ParseRollError>(v),
{
    let text = face_text(v);
    if v < 0 {
        let digits = decimal_text((-v) as nat);
        lemma_decimal_text((-v) as nat);
        lemma_digits_of_digits(digits);
        assert(text =~= Seq::<char>::empty().push('-') + digits);
        Seq::filter_distributes_over_add(
            Seq::<char>::empty().push('-'),
            digits,
            |c: char| digit(c),
        );
        lemma_digits_of_push(Seq::<char>::empty(), '-');
        Seq::<char>::empty().lemma_filter_len(|c: char| digit(c));
        assert(digits_of(Seq::<char>::empty()) =~= Seq::<char>::empty());
        assert(digits_of(text) =~= digits);
        assert forall|k: int| 1 <= k < text.len() implies digit(#[trigger] text[k]) by {
            assert(text[k] == digits[k - 1]);
        }
        assert forall|k: int| 0 <= k < text.len() implies !separator(#[trigger] text[k])
            && !whitespace(text[k]) by {
            if k >= 1 {
                assert(digit(text[k]));
                lemma_digit_is_plain(text[k]);
            }
        }
    } else {
        lemma_decimal_text(v as nat);
        lemma_digits_of_digits(text);
        assert forall|k: int| 0 <= k < text.len() implies !separator(#[trigger] text[k])
            && !whitespace(text[k]) by {
            assert(digit(text[k]));
            lemma_digit_is_plain(text[k]);
        }
        assert(digit(text[0]));
    }
}

/// Faces written one after the other and closed by a brace read as those
/// faces.
pub proof fn lemma_list_text_reads_back(values: Seq<i32>)
    requires
        values.len() > 0,
        writable(values),
    ensures
        faces_from(list_text(values) + seq!['}'], 0) == Ok::<Seq<i32>, ParseRollError>(values),
    decreases values.len(),
{
    let v = values[0];
    let face = face_text(v);
    let text = list_text(values) + seq!['}'];
    let end = face.len() as int;
    lemma_face_text(v);
    assert(text.subrange(0, end) =~= face) by {
        if values.len() == 1 {
            assert(text =~= face + seq!['}']);
        } else {
            assert(text =~= face + (seq![','] + list_text(values.drop_first()) + seq!['}']));
        }
    }
    assert(text[0] == face[0]);
    assert(first_visible(text, 0) == 0);
    assert(separator(text[end])) by {
        if values.len() == 1 {
            assert(text =~= face + seq!['}']);
        } else {
            assert(text =~= face + (seq![','] + list_text(values.drop_first()) + seq!['}']));
        }
    }
    assert forall|k: int| 1 <= k < end implies !separator(#[trigger] text[k]) by {
        assert(text[k] == face[k]);
    }
    lemma_first_separator_from(text, 1, end);
    assert(first_separator(text, 1) == end);
    assert(value_at(text, 0) == Ok::<Option<(i32, int)>, ParseRollError>(Some((v, end + 1))));
    lemma_faces_from_skip(text, end + 1);
    if values.len() == 1 {
        assert(text =~= face + seq!['}']);
        assert(text.skip(end + 1) =~= Seq::<char>::empty());
        assert(first_visible(Seq::<char>::empty(), 0) == 0);
        assert(faces_from(text.skip(end + 1), 0) == Ok::<Seq<i32>, ParseRollError>(Seq::empty()));
        assert(seq![v] + Seq::<i32>::empty() =~= values);
    } else {
        let rest = values.drop_first();
        assert(text =~= face + seq![','] + (list_text(rest) + seq!['}']));
        assert(text.skip(end + 1) =~= list_text(rest) + seq!['}']);
        assert forall|i: int| 0 <= i < rest.len() implies #[trigger] rest[i] > i32::MIN by {
            assert(rest[i] == values[i + 1]);
        }
        lemma_list_text_reads_back(rest);
        assert(seq![v] + rest =~= values);
    }
}

} // verus!
