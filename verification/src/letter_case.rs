//! Small and capital letters count the same.

use vstd::prelude::*;

use crate::ascii::{spec_is_digit, spec_to_upper, DOT};
use crate::music::Note;
use crate::parser::{
    decimal_at, decimal_place, digits_end, dots_end, entities_from, lemma_decimal_end,
    lemma_digits_end, lemma_token_end, note_at, note_of, number, semicolon_at, sound_code_at,
    thousandths, token_at, variation_at,
};

verus! {

/// `source` with every small letter turned into its capital.
pub open spec fn in_capitals(source: Seq<u8>) -> Seq<u8> {
    Seq::new(source.len(), |i: int| spec_to_upper(source[i]))
}

/// A run of digits ends at the same place in capitals.
pub proof fn lemma_digits_end_in_capitals(source: Seq<u8>, from: int)
    ensures
        digits_end(in_capitals(source), from) == digits_end(source, from),
    decreases source.len() - from,
{
    if 0 <= from < source.len() && spec_is_digit(source[from]) {
        lemma_digits_end_in_capitals(source, from + 1);
    }
}

/// A run of dots ends at the same place in capitals.
pub proof fn lemma_dots_end_in_capitals(source: Seq<u8>, from: int)
    ensures
        dots_end(in_capitals(source), from) == dots_end(source, from),
    decreases source.len() - from,
{
    if 0 <= from < source.len() && source[from] == DOT {
        lemma_dots_end_in_capitals(source, from + 1);
    }
}

/// Digits write the same number in capitals.
pub proof fn lemma_number_in_capitals(source: Seq<u8>, from: int, to: int)
    requires
        0 <= from,
        to <= source.len(),
        forall|i: int| from <= i < to ==> spec_is_digit(#[trigger] source[i]),
    ensures
        number(in_capitals(source), from, to) == number(source, from, to),
    decreases to - from,
{
    if to > from {
        assert(spec_is_digit(source[to - 1]));
        lemma_number_in_capitals(source, from, to - 1);
    }
}

/// A decimal number is the same in capitals.
pub proof fn lemma_decimal_in_capitals(source: Seq<u8>, from: int)
    requires
        0 <= from <= source.len(),
    ensures
        decimal_at(in_capitals(source), from) == decimal_at(source, from),
{
    reveal(decimal_at);
    let capitals = in_capitals(source);
    lemma_digits_end_in_capitals(source, from);
    lemma_digits_end(source, from);
    let point = digits_end(source, from);
    lemma_number_in_capitals(source, from, point);
    if point < source.len() && source[point] == DOT {
        lemma_digits_end_in_capitals(source, point + 1);
        lemma_digits_end(source, point + 1);
        let end = digits_end(source, point + 1);
        assert forall|place: int| 0 <= place < 3 implies #[trigger] decimal_place(
            capitals,
            point + 1,
            end,
            place,
        ) == decimal_place(source, point + 1, end, place) by {
            if point + 1 + place < end {
                assert(spec_is_digit(source[point + 1 + place]));
            }
        }
        assert(thousandths(capitals, point + 1, end) == thousandths(source, point + 1, end));
    }
}

/// A variation is the same in capitals.
pub proof fn lemma_variation_in_capitals(source: Seq<u8>, from: int)
    requires
        0 <= from <= source.len(),
    ensures
        variation_at(in_capitals(source), from) == variation_at(source, from),
{
    reveal(variation_at);
    lemma_decimal_in_capitals(source, from);
    if from < source.len() {
        lemma_decimal_in_capitals(source, from + 1);
    }
}

/// A sound effect is the same in capitals.
pub proof fn lemma_sound_code_in_capitals(source: Seq<u8>, from: int)
    requires
        0 <= from <= source.len(),
    ensures
        sound_code_at(in_capitals(source), from) == sound_code_at(source, from),
{
    reveal(sound_code_at);
    let capitals = in_capitals(source);
    lemma_decimal_in_capitals(source, from);
    lemma_decimal_end(source, from);
    let frequency = decimal_at(source, from);
    assert(semicolon_at(capitals, frequency.end) == semicolon_at(source, frequency.end));
    if semicolon_at(source, frequency.end) {
        lemma_decimal_in_capitals(source, frequency.end + 1);
        lemma_decimal_end(source, frequency.end + 1);
        let duration = decimal_at(source, frequency.end + 1);
        assert(semicolon_at(capitals, duration.end) == semicolon_at(source, duration.end));
        if semicolon_at(source, duration.end) {
            lemma_decimal_in_capitals(source, duration.end + 1);
            lemma_decimal_end(source, duration.end + 1);
            let delay = decimal_at(source, duration.end + 1);
            assert(semicolon_at(capitals, delay.end) == semicolon_at(source, delay.end));
            if semicolon_at(source, delay.end) {
                lemma_decimal_in_capitals(source, delay.end + 1);
                lemma_decimal_end(source, delay.end + 1);
                let cycles = decimal_at(source, delay.end + 1);
                assert(semicolon_at(capitals, cycles.end) == semicolon_at(source, cycles.end));
                if semicolon_at(source, cycles.end) {
                    lemma_variation_in_capitals(source, cycles.end + 1);
                }
            }
        }
    }
}

/// A note is the same in capitals.
pub proof fn lemma_note_in_capitals(source: Seq<u8>, at: int, note: Note)
    requires
        0 <= at < source.len(),
    ensures
        note_at(in_capitals(source), at, note) == note_at(source, at, note),
{
    reveal(note_at);
    let capitals = in_capitals(source);
    lemma_digits_end_in_capitals(source, at + 1);
    lemma_digits_end(source, at + 1);
    let plain = digits_end(source, at + 1);
    lemma_number_in_capitals(source, at + 1, plain);
    lemma_dots_end_in_capitals(source, plain);
    if at + 1 < source.len() {
        assert(capitals[at + 1] == spec_to_upper(source[at + 1]));
        lemma_digits_end_in_capitals(source, at + 2);
        lemma_digits_end(source, at + 2);
        let signed = digits_end(source, at + 2);
        lemma_number_in_capitals(source, at + 2, signed);
        lemma_dots_end_in_capitals(source, signed);
    }
}

/// What stands at a place is the same in capitals.
pub proof fn lemma_token_in_capitals(source: Seq<u8>, at: int)
    requires
        0 <= at < source.len(),
    ensures
        token_at(in_capitals(source), at) == token_at(source, at),
{
    let capitals = in_capitals(source);
    assert(capitals[at] == spec_to_upper(source[at]));
    lemma_digits_end_in_capitals(source, at + 1);
    lemma_digits_end(source, at + 1);
    lemma_number_in_capitals(source, at + 1, digits_end(source, at + 1));
    if at + 1 < source.len() {
        assert(capitals[at + 1] == spec_to_upper(source[at + 1]));
    }
    if note_of(spec_to_upper(source[at])) is Some {
        lemma_note_in_capitals(source, at, note_of(spec_to_upper(source[at])).unwrap());
    }
    lemma_sound_code_in_capitals(source, at);
}

/// A text holds the same commands whether its letters are small or capital.
pub proof fn lemma_entities_in_capitals(source: Seq<u8>, at: int)
    ensures
        entities_from(in_capitals(source), at) == entities_from(source, at),
    decreases source.len() - at,
{
    if 0 <= at < source.len() {
        lemma_token_in_capitals(source, at);
        lemma_token_end(source, at);
        lemma_entities_in_capitals(source, token_at(source, at).end);
    }
}

} // verus!
