//! The canonical text reads back as the piece it was written from.

use vstd::prelude::*;

use crate::ascii::{
    spec_digit, spec_digit_value, spec_is_digit, spec_to_upper, DOT, GREATER, HASH, LESS, MINUS,
    PLUS, SEMICOLON, SPACE, STAR,
};
use crate::music::{MusicEntity, Note, NoteInfo, NoteSign, SoundCodeInfo, Variation};
use crate::parser::{
    capped, decimal_at, decimal_place, digits_end, dots_end, duration_field, entities_from,
    frequency_field, lemma_decimal_end, lemma_digits_end, lemma_token_end, note_at, note_of,
    number, numbered, semicolon_at, sound_code_at, thousandths, thousandths_field, token_at,
    variation_at, whole_field, Decimal, Token, VariationField,
};
use crate::text::{
    count_text, decimal_digits, dots_text, duration_text, entity_text, frequency_text,
    length_text, note_letter, note_text, operation_text, sign_text, sound_code_text, text_of,
    thousandths_text, variation_text,
};

verus! {

/// A run of digits behind a text ends where it ends behind nothing.
pub proof fn lemma_digits_end_shift(before: Seq<u8>, text: Seq<u8>, from: int)
    requires
        0 <= from <= text.len(),
    ensures
        digits_end(before + text, before.len() + from) == before.len() + digits_end(text, from),
    decreases text.len() - from,
{
    if from < text.len() {
        assert((before + text)[before.len() + from] == text[from]);
        if spec_is_digit(text[from]) {
            lemma_digits_end_shift(before, text, from + 1);
        }
    }
}

/// A run of dots behind a text ends where it ends behind nothing.
pub proof fn lemma_dots_end_shift(before: Seq<u8>, text: Seq<u8>, from: int)
    requires
        0 <= from <= text.len(),
    ensures
        dots_end(before + text, before.len() + from) == before.len() + dots_end(text, from),
    decreases text.len() - from,
{
    if from < text.len() {
        assert((before + text)[before.len() + from] == text[from]);
        if text[from] == DOT {
            lemma_dots_end_shift(before, text, from + 1);
        }
    }
}

/// Digits behind a text write the number that they write behind nothing.
pub proof fn lemma_number_shift(before: Seq<u8>, text: Seq<u8>, from: int, to: int)
    requires
        0 <= from,
        to <= text.len(),
    ensures
        number(before + text, before.len() + from, before.len() + to) == number(text, from, to),
    decreases to - from,
{
    if to > from {
        assert((before + text)[before.len() + to - 1] == text[to - 1]);
        lemma_number_shift(before, text, from, to - 1);
    }
}

/// `field`, moved `by` places to the right.
pub open spec fn moved(field: Decimal, by: int) -> Decimal {
    Decimal { end: field.end + by, ..field }
}

/// A decimal number behind a text is the number that stands behind nothing.
pub proof fn lemma_decimal_shift(before: Seq<u8>, text: Seq<u8>, from: int)
    requires
        0 <= from <= text.len(),
    ensures
        decimal_at(before + text, before.len() + from) == moved(
            decimal_at(text, from),
            before.len() as int,
        ),
{
    reveal(decimal_at);
    let all = before + text;
    let shift = before.len() as int;
    lemma_digits_end_shift(before, text, from);
    lemma_digits_end(text, from);
    let point = digits_end(text, from);
    lemma_number_shift(before, text, from, point);
    if point < text.len() {
        assert(all[shift + point] == text[point]);
        if text[point] == DOT {
            lemma_digits_end_shift(before, text, point + 1);
            lemma_digits_end(text, point + 1);
            let end = digits_end(text, point + 1);
            assert forall|place: int| 0 <= place < 3 implies #[trigger] decimal_place(
                all,
                shift + point + 1,
                shift + end,
                place,
            ) == decimal_place(text, point + 1, end, place) by {
                if point + 1 + place < end {
                    assert(all[shift + point + 1 + place] == text[point + 1 + place]);
                }
            }
            assert(thousandths(all, shift + point + 1, shift + end) == thousandths(
                text,
                point + 1,
                end,
            ));
        }
    }
}

/// A variation behind a text is the variation that stands behind nothing.
pub proof fn lemma_variation_shift(before: Seq<u8>, text: Seq<u8>, from: int)
    requires
        0 <= from <= text.len(),
    ensures
        variation_at(before + text, before.len() + from).variation == variation_at(
            text,
            from,
        ).variation,
        variation_at(before + text, before.len() + from).end == before.len() + variation_at(
            text,
            from,
        ).end,
{
    reveal(variation_at);
    let all = before + text;
    let shift = before.len() as int;
    lemma_decimal_shift(before, text, from);
    if from < text.len() {
        assert(all[shift + from] == text[from]);
        lemma_decimal_shift(before, text, from + 1);
    }
}

/// Whether a semicolon stands at a place behind a text does not depend on
/// the text before.
pub proof fn lemma_semicolon_shift(before: Seq<u8>, text: Seq<u8>, at: int)
    requires
        0 <= at,
    ensures
        semicolon_at(before + text, before.len() + at) == semicolon_at(text, at),
{
    if at < text.len() {
        assert((before + text)[before.len() + at] == text[at]);
    }
}

/// A sound effect behind a text is the effect that stands behind nothing.
pub proof fn lemma_sound_code_shift(before: Seq<u8>, text: Seq<u8>, from: int)
    requires
        0 <= from <= text.len(),
    ensures
        sound_code_at(before + text, before.len() + from).entity == sound_code_at(
            text,
            from,
        ).entity,
        sound_code_at(before + text, before.len() + from).end == before.len() + sound_code_at(
            text,
            from,
        ).end,
{
    reveal(sound_code_at);
    let all = before + text;
    let shift = before.len() as int;
    lemma_decimal_shift(before, text, from);
    lemma_decimal_end(text, from);
    let frequency = decimal_at(text, from);
    lemma_semicolon_shift(before, text, frequency.end);
    if semicolon_at(text, frequency.end) {
        lemma_decimal_shift(before, text, frequency.end + 1);
        lemma_decimal_end(text, frequency.end + 1);
        let duration = decimal_at(text, frequency.end + 1);
        lemma_semicolon_shift(before, text, duration.end);
        if semicolon_at(text, duration.end) {
            lemma_decimal_shift(before, text, duration.end + 1);
            lemma_decimal_end(text, duration.end + 1);
            let delay = decimal_at(text, duration.end + 1);
            lemma_semicolon_shift(before, text, delay.end);
            if semicolon_at(text, delay.end) {
                lemma_decimal_shift(before, text, delay.end + 1);
                lemma_decimal_end(text, delay.end + 1);
                let cycles = decimal_at(text, delay.end + 1);
                lemma_semicolon_shift(before, text, cycles.end);
                if semicolon_at(text, cycles.end) {
                    lemma_variation_shift(before, text, cycles.end + 1);
                }
            }
        }
    }
}

/// A note behind a text is the note that stands behind nothing.
pub proof fn lemma_note_shift(before: Seq<u8>, text: Seq<u8>, at: int, note: Note)
    requires
        0 <= at < text.len(),
    ensures
        note_at(before + text, before.len() + at, note).entity == note_at(text, at, note).entity,
        note_at(before + text, before.len() + at, note).end == before.len() + note_at(
            text,
            at,
            note,
        ).end,
{
    reveal(note_at);
    let all = before + text;
    let shift = before.len() as int;
    if at + 1 < text.len() {
        assert(all[shift + at + 1] == text[at + 1]);
    }
    lemma_digits_end_shift(before, text, at + 1);
    lemma_digits_end(text, at + 1);
    let plain = digits_end(text, at + 1);
    lemma_number_shift(before, text, at + 1, plain);
    lemma_dots_end_shift(before, text, plain);
    if at + 2 <= text.len() {
        lemma_digits_end_shift(before, text, at + 2);
        lemma_digits_end(text, at + 2);
        let signed = digits_end(text, at + 2);
        lemma_number_shift(before, text, at + 2, signed);
        lemma_dots_end_shift(before, text, signed);
    }
}

/// What stands at a place behind a text does not depend on the text before.
pub proof fn lemma_token_shift(before: Seq<u8>, text: Seq<u8>, at: int)
    requires
        0 <= at < text.len(),
    ensures
        token_at(before + text, before.len() + at).entity == token_at(text, at).entity,
        token_at(before + text, before.len() + at).end == before.len() + token_at(text, at).end,
{
    let all = before + text;
    let shift = before.len() as int;
    assert(all[shift + at] == text[at]);
    if at + 1 < text.len() {
        assert(all[shift + at + 1] == text[at + 1]);
    }
    lemma_digits_end_shift(before, text, at + 1);
    lemma_digits_end(text, at + 1);
    lemma_number_shift(before, text, at + 1, digits_end(text, at + 1));
    lemma_sound_code_shift(before, text, at);
    if note_of(spec_to_upper(text[at])) is Some {
        lemma_note_shift(
            before,
            text,
            at,
            note_of(spec_to_upper(text[at])).unwrap(),
        );
    }
}

/// The commands behind a text do not depend on the text before.
pub proof fn lemma_entities_shift(before: Seq<u8>, text: Seq<u8>, at: int)
    requires
        0 <= at <= text.len(),
    ensures
        entities_from(before + text, before.len() + at) == entities_from(text, at),
    decreases text.len() - at,
{
    if at < text.len() {
        lemma_token_shift(before, text, at);
        lemma_token_end(text, at);
        lemma_entities_shift(before, text, token_at(text, at).end);
    }
}

/// A run of `count` digits that no digit follows ends behind its last digit.
pub proof fn lemma_digits_run(text: Seq<u8>, from: int, count: nat)
    requires
        0 <= from,
        from + count <= text.len(),
        forall|i: int| from <= i < from + count ==> spec_is_digit(#[trigger] text[i]),
        from + count == text.len() || !spec_is_digit(text[from + count]),
    ensures
        digits_end(text, from) == from + count,
    decreases count,
{
    if count > 0 {
        assert(spec_is_digit(text[from]));
        lemma_digits_run(text, from + 1, (count - 1) as nat);
    }
}

/// A run of `count` dots that no dot follows ends behind its last dot.
pub proof fn lemma_dots_run(text: Seq<u8>, from: int, count: nat)
    requires
        0 <= from,
        from + count <= text.len(),
        forall|i: int| from <= i < from + count ==> #[trigger] text[i] == DOT,
        from + count == text.len() || text[from + count] != DOT,
    ensures
        dots_end(text, from) == from + count,
    decreases count,
{
    if count > 0 {
        assert(text[from] == DOT);
        lemma_dots_run(text, from + 1, (count - 1) as nat);
    }
}

/// A number is written in digits, at least one.
pub proof fn lemma_decimal_digits_are_digits(value: nat)
    ensures
        decimal_digits(value).len() >= 1,
        forall|i: int|
            0 <= i < decimal_digits(value).len() ==> spec_is_digit(
                #[trigger] decimal_digits(value)[i],
            ),
    decreases value,
{
    if value >= 10 {
        lemma_decimal_digits_are_digits(value / 10);
    }
}

/// The digits of a number write that number, whatever follows them.
pub proof fn lemma_number_of_digits(value: nat, rest: Seq<u8>)
    ensures
        number(decimal_digits(value) + rest, 0, decimal_digits(value).len() as int) == value,
    decreases value,
{
    let digits = decimal_digits(value);
    let text = digits + rest;
    let last = digits.len() - 1;
    lemma_decimal_digits_are_digits(value);
    assert(text[last] == digits[last]);
    if value < 10 {
        assert(number(text, 0, 0) == 0);
        assert(number(text, 0, 1) == number(text, 0, 0) * 10 + spec_digit_value(text[0]));
    } else {
        let front = decimal_digits(value / 10);
        let tail = seq![spec_digit(value % 10)] + rest;
        lemma_number_of_digits(value / 10, tail);
        assert(text =~= front + tail);
        assert(number(text, 0, last + 1) == number(text, 0, last) * 10 + spec_digit_value(
            text[last],
        ));
    }
}

/// A number reads back from its digits where no digit follows them.
pub proof fn lemma_read_digits(value: nat, rest: Seq<u8>)
    requires
        rest.len() == 0 || !spec_is_digit(rest[0]),
    ensures
        digits_end(decimal_digits(value) + rest, 0) == decimal_digits(value).len(),
        number(decimal_digits(value) + rest, 0, decimal_digits(value).len() as int) == value,
        decimal_digits(value).len() >= 1,
{
    let digits = decimal_digits(value);
    let text = digits + rest;
    lemma_decimal_digits_are_digits(value);
    lemma_number_of_digits(value, rest);
    assert forall|i: int| 0 <= i < digits.len() implies spec_is_digit(#[trigger] text[i]) by {
        assert(text[i] == digits[i]);
    }
    if rest.len() > 0 {
        assert(text[digits.len() as int] == rest[0]);
    }
    lemma_digits_run(text, 0, digits.len());
}

/// Dots read back where no dot follows them.
pub proof fn lemma_read_dots(count: nat, rest: Seq<u8>)
    requires
        rest.len() == 0 || rest[0] != DOT,
    ensures
        dots_end(dots_text(count) + rest, 0) == count,
{
    let text = dots_text(count) + rest;
    if rest.len() > 0 {
        assert(text[count as int] == rest[0]);
    }
    lemma_dots_run(text, 0, count);
}

/// What a decimal number is, by where its digits and its point stand.
pub proof fn lemma_decimal_by_parts(text: Seq<u8>, from: int)
    ensures
        ({
            let point = digits_end(text, from);
            let pointed = 0 <= point < text.len() && text[point] == DOT;
            let end = digits_end(text, point + 1);
            decimal_at(text, from) == if pointed {
                Decimal {
                    present: point > from || end > point + 1,
                    whole: number(text, from, point),
                    thousandths: thousandths(text, point + 1, end),
                    end,
                }
            } else {
                Decimal {
                    present: point > from,
                    whole: number(text, from, point),
                    thousandths: 0,
                    end: point,
                }
            }
        }),
{
    reveal(decimal_at);
}

/// One to three digits behind a point write their thousandths.
pub proof fn lemma_places_read(text: Seq<u8>, from: int, places: Seq<u8>)
    requires
        0 <= from,
        1 <= places.len() <= 3,
        from + places.len() <= text.len(),
        forall|i: int| 0 <= i < places.len() ==> text[from + i] == #[trigger] places[i],
    ensures
        thousandths(text, from, from + places.len()) == spec_digit_value(places[0]) * 100 + (
        if places.len() >= 2 {
            spec_digit_value(places[1]) * 10
        } else {
            0
        }) + (if places.len() >= 3 {
            spec_digit_value(places[2])
        } else {
            0
        }),
{
    assert(text[from] == places[0]);
    if places.len() >= 2 {
        assert(text[from + 1] == places[1]);
    }
    if places.len() >= 3 {
        assert(text[from + 2] == places[2]);
    }
}

/// The digits that `thousandths_text` writes behind the point.
pub open spec fn places_of(fraction: nat) -> Seq<u8> {
    if fraction % 100 == 0 {
        seq![spec_digit(fraction / 100)]
    } else if fraction % 10 == 0 {
        seq![spec_digit(fraction / 100), spec_digit(fraction / 10 % 10)]
    } else {
        seq![spec_digit(fraction / 100), spec_digit(fraction / 10 % 10), spec_digit(fraction % 10)]
    }
}

/// A whole number, a point and digits behind it read back as one decimal
/// number where no digit follows them.
pub proof fn lemma_read_pointed(whole: nat, places: Seq<u8>, rest: Seq<u8>)
    requires
        1 <= places.len() <= 3,
        forall|i: int| 0 <= i < places.len() ==> spec_is_digit(#[trigger] places[i]),
        rest.len() == 0 || !spec_is_digit(rest[0]),
    ensures
        ({
            let written = decimal_digits(whole) + seq![DOT] + places;
            let field = decimal_at(written + rest, 0);
            &&& field.present
            &&& field.whole == whole
            &&& field.end == written.len()
            &&& field.thousandths == thousandths(
                written + rest,
                (decimal_digits(whole).len() + 1) as int,
                written.len() as int,
            )
        }),
{
    let digits = decimal_digits(whole);
    let written = digits + seq![DOT] + places;
    let text = written + rest;
    let point = digits.len() as int;
    let tail = seq![DOT] + places + rest;
    assert(text =~= digits + tail);
    lemma_read_digits(whole, tail);
    assert(text[point] == DOT);
    assert forall|i: int| point + 1 <= i < point + 1 + places.len() implies spec_is_digit(
        #[trigger] text[i],
    ) by {
        assert(text[i] == places[i - point - 1]);
    }
    if rest.len() > 0 {
        assert(text[point + 1 + places.len()] == rest[0]);
    }
    lemma_digits_run(text, point + 1, places.len());
    lemma_decimal_by_parts(text, 0);
}

/// A number of thousandths reads back from its text where neither a digit
/// nor a point follows it.
#[verifier::rlimit(30)]
pub proof fn lemma_read_thousandths(value: nat, rest: Seq<u8>)
    requires
        rest.len() == 0 || (!spec_is_digit(rest[0]) && rest[0] != DOT),
    ensures
        decimal_at(thousandths_text(value) + rest, 0) == (Decimal {
            present: true,
            whole: value / 1000,
            thousandths: value % 1000,
            end: thousandths_text(value).len() as int,
        }),
        thousandths_text(value).len() >= 1,
        spec_is_digit(thousandths_text(value)[0]),
{
    let whole = decimal_digits(value / 1000);
    let fraction = value % 1000;
    let written = thousandths_text(value);
    let text = written + rest;
    let point = whole.len() as int;
    lemma_decimal_digits_are_digits(value / 1000);
    assert(written[0] == whole[0]);
    if fraction == 0 {
        lemma_read_digits(value / 1000, rest);
        if rest.len() > 0 {
            assert(text[point] == rest[0]);
        }
        lemma_decimal_by_parts(text, 0);
    } else {
        let places = places_of(fraction);
        assert(written =~= whole + seq![DOT] + places);
        lemma_read_pointed(value / 1000, places, rest);
        assert forall|i: int| 0 <= i < places.len() implies text[point + 1 + i]
            == #[trigger] places[i] by {
            assert(text[point + 1 + i] == written[point + 1 + i]);
        }
        lemma_places_read(text, point + 1, places);
    }
}

/// Whether the text of `entity` can be read back as `entity`: every command
/// but a sound effect with a frequency below zero, or with a step of the one
/// value that has no counterpart above zero.
pub open spec fn readable(entity: MusicEntity) -> bool {
    match entity {
        MusicEntity::SoundCode(info) => {
            &&& info.frequency matches Some(frequency) ==> frequency >= 0
            &&& info.variation matches Some(Variation::Value(step)) ==> step > i64::MIN
        },
        _ => true,
    }
}

/// Whether a field of a sound effect can end before `rest`: at the end of
/// the text, or before a byte that is neither a digit nor a point.
pub open spec fn ends_field(rest: Seq<u8>) -> bool {
    rest.len() == 0 || (!spec_is_digit(rest[0]) && rest[0] != DOT)
}

/// The frequency of a sound effect reads back from its text.
pub proof fn lemma_read_frequency(frequency: Option<i64>, rest: Seq<u8>)
    requires
        frequency matches Some(value) ==> value >= 0,
        ends_field(rest),
    ensures
        decimal_at(frequency_text(frequency) + rest, 0).end == frequency_text(frequency).len(),
        thousandths_field(decimal_at(frequency_text(frequency) + rest, 0), i64::MAX as nat) == (
        match frequency {
            Some(value) => Some(value as nat),
            None => None,
        }),
{
    match frequency {
        Some(value) => {
            lemma_read_thousandths(value as nat, rest);
        },
        None => {
            assert(frequency_text(frequency) + rest =~= rest);
            lemma_decimal_end(rest, 0);
        },
    }
}

/// The duration of a sound effect reads back from its text.
pub proof fn lemma_read_duration(duration: Option<u64>, rest: Seq<u8>)
    requires
        ends_field(rest),
    ensures
        decimal_at(duration_text(duration) + rest, 0).end == duration_text(duration).len(),
        thousandths_field(decimal_at(duration_text(duration) + rest, 0), u64::MAX as nat) == (
        match duration {
            Some(value) => Some(value as nat),
            None => None,
        }),
{
    match duration {
        Some(value) => {
            lemma_read_thousandths(value as nat, rest);
        },
        None => {
            assert(duration_text(duration) + rest =~= rest);
            lemma_decimal_end(rest, 0);
        },
    }
}

/// A whole number in a field of a sound effect reads back from its text.
pub proof fn lemma_read_count(count: Option<usize>, rest: Seq<u8>)
    requires
        ends_field(rest),
    ensures
        decimal_at(count_text(count) + rest, 0).end == count_text(count).len(),
        whole_field(decimal_at(count_text(count) + rest, 0)) == count,
{
    match count {
        Some(value) => {
            reveal(decimal_at);
            let text = decimal_digits(value as nat) + rest;
            lemma_read_digits(value as nat, rest);
            if rest.len() > 0 {
                assert(text[decimal_digits(value as nat).len() as int] == rest[0]);
            }
        },
        None => {
            assert(count_text(count) + rest =~= rest);
            lemma_decimal_end(rest, 0);
        },
    }
}

/// Whether a command can end before `rest`: at the end of the text or
/// before a blank.
pub open spec fn ends_command(rest: Seq<u8>) -> bool {
    rest.len() == 0 || rest[0] == SPACE
}

/// The variation of a sound effect reads back from its text.
pub proof fn lemma_read_variation(variation: Option<Variation>, rest: Seq<u8>)
    requires
        variation matches Some(Variation::Value(step)) ==> step > i64::MIN,
        ends_command(rest),
    ensures
        variation_at(variation_text(variation) + rest, 0) == (VariationField {
            variation,
            end: variation_text(variation).len() as int,
        }),
{
    reveal(variation_at);
    let text = variation_text(variation) + rest;
    match variation {
        Some(Variation::Random) => {
            assert(text[0] == STAR);
        },
        Some(Variation::Value(step)) => {
            if step < 0 {
                let size = (-step) as nat;
                let tail = thousandths_text(size) + rest;
                assert(text =~= seq![MINUS] + tail);
                assert(text[0] == MINUS);
                lemma_read_thousandths(size, rest);
                lemma_decimal_shift(seq![MINUS], tail, 0);
            } else {
                lemma_read_thousandths(step as nat, rest);
                assert(text[0] == thousandths_text(step as nat)[0]);
            }
        },
        None => {
            assert(text =~= rest);
            lemma_decimal_end(rest, 0);
        },
    }
}

/// What a sound effect of five fields is, by where its fields stand.
pub proof fn lemma_sound_code_by_fields(
    text: Seq<u8>,
    frequency: Decimal,
    duration: Decimal,
    delay: Decimal,
    cycles: Decimal,
    variation: VariationField,
)
    requires
        decimal_at(text, 0) == frequency,
        semicolon_at(text, frequency.end),
        decimal_at(text, frequency.end + 1) == duration,
        semicolon_at(text, duration.end),
        decimal_at(text, duration.end + 1) == delay,
        semicolon_at(text, delay.end),
        decimal_at(text, delay.end + 1) == cycles,
        semicolon_at(text, cycles.end),
        variation_at(text, cycles.end + 1) == variation,
    ensures
        sound_code_at(text, 0) == (Token {
            entity: Some(
                MusicEntity::SoundCode(
                    SoundCodeInfo {
                        frequency: frequency_field(frequency),
                        duration: duration_field(duration),
                        delay: whole_field(delay),
                        cycles: whole_field(cycles),
                        variation: variation.variation,
                    },
                ),
            ),
            end: variation.end,
        }),
{
    reveal(sound_code_at);
}

/// Five fields that each end where their text ends, with a semicolon
/// between one and the next, are read as one sound effect.
#[verifier::rlimit(30)]
pub proof fn lemma_five_fields(
    first: Seq<u8>,
    second: Seq<u8>,
    third: Seq<u8>,
    fourth: Seq<u8>,
    fifth: Seq<u8>,
    rest: Seq<u8>,
)
    requires
        decimal_at(
            first + (seq![SEMICOLON] + second + (seq![SEMICOLON] + third + (seq![SEMICOLON] + fourth
                + (seq![SEMICOLON] + fifth + rest)))),
            0,
        ).end == first.len(),
        decimal_at(
            second + (seq![SEMICOLON] + third + (seq![SEMICOLON] + fourth + (seq![SEMICOLON] + fifth
                + rest))),
            0,
        ).end == second.len(),
        decimal_at(third + (seq![SEMICOLON] + fourth + (seq![SEMICOLON] + fifth + rest)), 0).end
            == third.len(),
        decimal_at(fourth + (seq![SEMICOLON] + fifth + rest), 0).end == fourth.len(),
        variation_at(fifth + rest, 0).end == fifth.len(),
    ensures
        sound_code_at(
            first + seq![SEMICOLON] + second + seq![SEMICOLON] + third + seq![SEMICOLON] + fourth
                + seq![SEMICOLON] + fifth + rest,
            0,
        ) == (Token {
            entity: Some(
                MusicEntity::SoundCode(
                    SoundCodeInfo {
                        frequency: frequency_field(
                            decimal_at(
                                first + (seq![SEMICOLON] + second + (seq![SEMICOLON] + third + (
                                seq![SEMICOLON] + fourth + (seq![SEMICOLON] + fifth + rest)))),
                                0,
                            ),
                        ),
                        duration: duration_field(
                            decimal_at(
                                second + (seq![SEMICOLON] + third + (seq![SEMICOLON] + fourth + (
                                seq![SEMICOLON] + fifth + rest))),
                                0,
                            ),
                        ),
                        delay: whole_field(
                            decimal_at(
                                third + (seq![SEMICOLON] + fourth + (seq![SEMICOLON] + fifth
                                    + rest)),
                                0,
                            ),
                        ),
                        cycles: whole_field(
                            decimal_at(fourth + (seq![SEMICOLON] + fifth + rest), 0),
                        ),
                        variation: variation_at(fifth + rest, 0).variation,
                    },
                ),
            ),
            end: (first.len() + second.len() + third.len() + fourth.len() + fifth.len() + 4) as int,
        }),
{
    let mark = seq![SEMICOLON];
    let text = first + mark + second + mark + third + mark + fourth + mark + fifth + rest;
    let after_fourth = mark + fifth + rest;
    let after_third = mark + fourth + after_fourth;
    let after_second = mark + third + after_third;
    let after_first = mark + second + after_second;
    let before_second = first + mark;
    let before_third = before_second + second + mark;
    let before_fourth = before_third + third + mark;
    let before_fifth = before_fourth + fourth + mark;
    assert(text =~= first + after_first);
    assert(text =~= before_second + (second + after_second));
    assert(text =~= before_third + (third + after_third));
    assert(text =~= before_fourth + (fourth + after_fourth));
    assert(text =~= before_fifth + (fifth + rest));
    lemma_decimal_shift(before_second, second + after_second, 0);
    lemma_decimal_shift(before_third, third + after_third, 0);
    lemma_decimal_shift(before_fourth, fourth + after_fourth, 0);
    lemma_variation_shift(before_fifth, fifth + rest, 0);
    let frequency = decimal_at(text, 0);
    assert(text[frequency.end] == SEMICOLON);
    let duration = decimal_at(text, frequency.end + 1);
    assert(duration.end == before_second.len() + second.len());
    assert(text[duration.end] == SEMICOLON);
    let delay = decimal_at(text, duration.end + 1);
    assert(delay.end == before_third.len() + third.len());
    assert(text[delay.end] == SEMICOLON);
    let cycles = decimal_at(text, delay.end + 1);
    assert(cycles.end == before_fourth.len() + fourth.len());
    assert(text[cycles.end] == SEMICOLON);
    let variation = variation_at(text, cycles.end + 1);
    assert(variation.variation == variation_at(fifth + rest, 0).variation);
    assert(variation.end == before_fifth.len() + fifth.len());
    lemma_sound_code_by_fields(text, frequency, duration, delay, cycles, variation);
}

/// A sound effect reads back from its text.
pub proof fn lemma_read_sound_code(info: SoundCodeInfo, rest: Seq<u8>)
    requires
        readable(MusicEntity::SoundCode(info)),
        ends_command(rest),
    ensures
        sound_code_at(sound_code_text(info) + rest, 0) == (Token {
            entity: Some(MusicEntity::SoundCode(info)),
            end: sound_code_text(info).len() as int,
        }),
        sound_code_text(info).len() >= 1,
        spec_is_digit(sound_code_text(info)[0]) || sound_code_text(info)[0] == SEMICOLON,
{
    let mark = seq![SEMICOLON];
    let first = frequency_text(info.frequency);
    let second = duration_text(info.duration);
    let third = count_text(info.delay);
    let fourth = count_text(info.cycles);
    let fifth = variation_text(info.variation);
    let after_fourth = mark + fifth + rest;
    let after_third = mark + fourth + after_fourth;
    let after_second = mark + third + after_third;
    let after_first = mark + second + after_second;
    lemma_read_frequency(info.frequency, after_first);
    lemma_read_duration(info.duration, after_second);
    lemma_read_count(info.delay, after_third);
    lemma_read_count(info.cycles, after_fourth);
    lemma_read_variation(info.variation, rest);
    lemma_five_fields(first, second, third, fourth, fifth, rest);
    if let Some(value) = info.frequency {
        lemma_read_thousandths(value as nat, after_first);
        assert(sound_code_text(info)[0] == first[0]);
    } else {
        assert(first.len() == 0);
        assert(sound_code_text(info)[0] == SEMICOLON);
    }
}

/// What a note is, by where its sign, its length and its dots stand.
pub proof fn lemma_note_by_parts(text: Seq<u8>, note: Note)
    ensures
        ({
            let signed = 1 < text.len() && (text[1] == HASH || text[1] == PLUS || text[1] == MINUS);
            let from = if signed {
                2int
            } else {
                1int
            };
            let to = digits_end(text, from);
            let end = dots_end(text, to);
            note_at(text, 0, note) == (Token {
                entity: Some(
                    MusicEntity::Note {
                        note,
                        info: NoteInfo {
                            sign: if !signed {
                                NoteSign::Natural
                            } else if text[1] == MINUS {
                                NoteSign::Flat
                            } else {
                                NoteSign::Sharp
                            },
                            length: if to > from {
                                Some(capped(number(text, from, to), usize::MAX as nat) as usize)
                            } else {
                                None
                            },
                            dots: (end - to) as usize,
                        },
                    },
                ),
                end,
            })
        }),
{
    reveal(note_at);
}

/// Where the length and the dots of a note end in its text.
#[verifier::rlimit(30)]
pub proof fn lemma_note_layout(note: Note, info: NoteInfo, rest: Seq<u8>)
    requires
        ends_command(rest),
    ensures
        ({
            let text = note_text(note, info) + rest;
            let from = 1 + sign_text(info.sign).len();
            let to = from + length_text(info.length).len();
            &&& text.len() >= 1
            &&& text[0] == note_letter(note)
            &&& note_text(note, info).len() == to + info.dots
            &&& info.sign == NoteSign::Sharp ==> text.len() > 1 && text[1] == HASH
            &&& info.sign == NoteSign::Flat ==> text.len() > 1 && text[1] == MINUS
            &&& info.sign == NoteSign::Natural && text.len() > 1 ==> spec_is_digit(text[1])
                || text[1] == DOT || text[1] == SPACE
            &&& digits_end(text, from as int) == to
            &&& dots_end(text, to as int) == to + info.dots
            &&& info.length matches Some(length) ==> number(text, from as int, to as int)
                == length
        }),
{
    let sign = sign_text(info.sign);
    let length = length_text(info.length);
    let dots = dots_text(info.dots as nat);
    let head = seq![note_letter(note)] + sign;
    let text = note_text(note, info) + rest;
    let after_length = dots + rest;
    assert(note_text(note, info) =~= head + length + dots);
    assert(text =~= head + (length + after_length));
    assert(text =~= (head + length) + after_length);
    if after_length.len() > 0 {
        assert(after_length[0] == if dots.len() > 0 {
            dots[0]
        } else {
            rest[0]
        });
    }
    match info.length {
        Some(value) => {
            lemma_read_digits(value as nat, after_length);
            lemma_decimal_digits_are_digits(value as nat);
        },
        None => {
            assert(length + after_length =~= after_length);
            lemma_digits_run(after_length, 0, 0);
        },
    }
    lemma_digits_end_shift(head, length + after_length, 0);
    lemma_number_shift(head, length + after_length, 0, length.len() as int);
    lemma_read_dots(info.dots as nat, rest);
    lemma_dots_end_shift(head + length, after_length, 0);
    if text.len() > 1 {
        let second = length + after_length;
        if sign.len() > 0 {
            assert(text[1] == sign[0]);
        } else {
            assert(text[1] == second[0]);
            if length.len() > 0 {
                assert(second[0] == length[0]);
            } else {
                assert(second[0] == after_length[0]);
            }
        }
    }
}

/// A note reads back from its text.
#[verifier::rlimit(30)]
pub proof fn lemma_read_note(note: Note, info: NoteInfo, rest: Seq<u8>)
    requires
        ends_command(rest),
    ensures
        note_at(note_text(note, info) + rest, 0, note) == (Token {
            entity: Some(MusicEntity::Note { note, info }),
            end: note_text(note, info).len() as int,
        }),
        note_text(note, info)[0] == note_letter(note),
        note_text(note, info).len() >= 1,
{
    lemma_note_layout(note, info, rest);
    lemma_note_by_parts(note_text(note, info) + rest, note);
}

/// A letter with a number behind it reads back as the command of that
/// letter.
pub proof fn lemma_read_numbered(letter: u8, value: usize, rest: Seq<u8>)
    requires
        numbered(letter, 0) is Some,
        ends_command(rest),
    ensures
        token_at(seq![letter] + decimal_digits(value as nat) + rest, 0) == (Token {
            entity: numbered(letter, value),
            end: 1 + decimal_digits(value as nat).len() as int,
        }),
{
    let digits = decimal_digits(value as nat);
    let text = seq![letter] + digits + rest;
    assert(text =~= seq![letter] + (digits + rest));
    assert(text[0] == letter);
    lemma_read_digits(value as nat, rest);
    lemma_digits_end_shift(seq![letter], digits + rest, 0);
    lemma_number_shift(seq![letter], digits + rest, 0, digits.len() as int);
}

/// Every readable command reads back from its text, at the end of a text or
/// before a blank.
pub proof fn lemma_read_entity(entity: MusicEntity, rest: Seq<u8>)
    requires
        readable(entity),
        ends_command(rest),
    ensures
        token_at(entity_text(entity) + rest, 0) == (Token {
            entity: Some(entity),
            end: entity_text(entity).len() as int,
        }),
        entity_text(entity).len() >= 1,
{
    let text = entity_text(entity) + rest;
    match entity {
        MusicEntity::Operation(operation) => {
            assert(text[0] == 0x4d);
            assert(text[1] == operation_text(operation)[1]);
        },
        MusicEntity::Tempo(value) => {
            lemma_read_numbered(0x54, value, rest);
        },
        MusicEntity::Octave(value) => {
            lemma_read_numbered(0x4f, value, rest);
        },
        MusicEntity::Length(value) => {
            lemma_read_numbered(0x4c, value, rest);
        },
        MusicEntity::RawNote(value) => {
            lemma_read_numbered(0x4e, value, rest);
        },
        MusicEntity::Pause(value) => {
            lemma_read_numbered(0x50, value, rest);
        },
        MusicEntity::IncreaseOctave => {
            assert(text[0] == GREATER);
        },
        MusicEntity::DecreaseOctave => {
            assert(text[0] == LESS);
        },
        MusicEntity::Note { note, info } => {
            lemma_read_note(note, info, rest);
            assert(text[0] == note_letter(note));
        },
        MusicEntity::SoundCode(info) => {
            lemma_read_sound_code(info, rest);
            assert(text[0] == sound_code_text(info)[0]);
        },
    }
}

/// The text of two commands or more is the text of the first, a blank, and
/// the text of the others.
pub proof fn lemma_text_of_front(entities: Seq<MusicEntity>)
    requires
        entities.len() >= 2,
    ensures
        text_of(entities) == entity_text(entities[0]) + seq![SPACE] + text_of(
            entities.drop_first(),
        ),
    decreases entities.len(),
{
    let first = entity_text(entities[0]);
    let last = entity_text(entities.last());
    let blank = seq![SPACE];
    let front = entities.drop_last();
    let back = entities.drop_first();
    assert(text_of(entities) == text_of(front) + blank + last);
    assert(front[0] == entities[0]);
    assert(back.last() == entities.last());
    if entities.len() == 2 {
        assert(text_of(front) == entity_text(front[0]));
        assert(back[0] == entities.last());
        assert(text_of(back) == entity_text(back[0]));
    } else {
        lemma_text_of_front(front);
        let middle = front.drop_first();
        assert(back.drop_last() =~= middle);
        assert(text_of(front) == first + blank + text_of(middle));
        assert(text_of(back) == text_of(middle) + blank + last);
        assert(first + blank + text_of(middle) + blank + last =~= first + blank + (text_of(middle)
            + blank + last));
    }
}

/// The text of readable commands reads back as those commands.
pub proof fn lemma_text_reads_back(entities: Seq<MusicEntity>)
    requires
        forall|i: int| 0 <= i < entities.len() ==> readable(#[trigger] entities[i]),
    ensures
        entities_from(text_of(entities), 0) == entities,
    decreases entities.len(),
{
    let text = text_of(entities);
    if entities.len() == 0 {
        assert(entities_from(text, 0) =~= entities);
    } else {
        let first = entity_text(entities[0]);
        assert(readable(entities[0]));
        if entities.len() == 1 {
            lemma_read_entity(entities[0], Seq::empty());
            assert(first + Seq::<u8>::empty() =~= first);
            assert(entities_from(text, first.len() as int) =~= Seq::<MusicEntity>::empty());
            assert(entities_from(text, 0) =~= entities);
        } else {
            let others = entities.drop_first();
            let rest = seq![SPACE] + text_of(others);
            lemma_text_of_front(entities);
            assert(text =~= first + rest);
            lemma_read_entity(entities[0], rest);
            let blank = first.len() as int;
            assert(text[blank] == SPACE);
            assert(token_at(text, blank) == (Token { entity: None, end: blank + 1 }));
            assert(text =~= (first + seq![SPACE]) + text_of(others));
            lemma_entities_shift(first + seq![SPACE], text_of(others), 0);
            assert forall|i: int| 0 <= i < others.len() implies readable(#[trigger] others[i]) by {
                assert(others[i] == entities[i + 1]);
            }
            lemma_text_reads_back(others);
            assert(entities_from(text, blank + 1) == others);
            assert(entities_from(text, blank) == others);
            assert(entities_from(text, 0) == seq![entities[0]] + others);
            assert(seq![entities[0]] + others =~= entities);
        }
    }
}

/// Whatever the parser reads is readable.
pub proof fn lemma_token_readable(source: Seq<u8>, at: int)
    requires
        0 <= at < source.len(),
    ensures
        token_at(source, at).entity matches Some(entity) ==> readable(entity),
{
    reveal(variation_at);
    reveal(sound_code_at);
    reveal(note_at);
}

/// Every command of a text is readable.
pub proof fn lemma_parsed_readable(source: Seq<u8>, at: int)
    ensures
        forall|i: int|
            0 <= i < entities_from(source, at).len() ==> readable(
                #[trigger] entities_from(source, at)[i],
            ),
    decreases source.len() - at,
{
    if 0 <= at < source.len() {
        lemma_token_end(source, at);
        lemma_token_readable(source, at);
        let token = token_at(source, at);
        let others = entities_from(source, token.end);
        lemma_parsed_readable(source, token.end);
        assert forall|i: int| 0 <= i < entities_from(source, at).len() implies readable(
            #[trigger] entities_from(source, at)[i],
        ) by {
            match token.entity {
                Some(entity) => {
                    assert(entities_from(source, at) == seq![entity] + others);
                    if i > 0 {
                        assert(entities_from(source, at)[i] == others[i - 1]);
                    }
                },
                None => {},
            }
        }
    }
}

/// The canonical text of a piece reads back as the piece: it holds the same
/// commands, in the same order, as the text that it was written from.
pub proof fn lemma_canonical_text_reads_back(source: Seq<u8>)
    ensures
        entities_from(text_of(entities_from(source, 0)), 0) == entities_from(source, 0),
{
    lemma_parsed_readable(source, 0);
    lemma_text_reads_back(entities_from(source, 0));
}

/// The canonical text of a canonical text is that text.
pub proof fn lemma_canonical_text_is_fixed(source: Seq<u8>)
    ensures
        text_of(entities_from(text_of(entities_from(source, 0)), 0)) == text_of(
            entities_from(source, 0),
        ),
{
    lemma_canonical_text_reads_back(source);
}

} // verus!
