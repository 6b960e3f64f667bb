//! The grammar of the notation: what stands at each place of a source text.
//!
//! A text is read from left to right. At each place either a command starts,
//! which is read as far as it goes, or the byte there is passed over. Letters
//! count the same small or capital.
//!
//! Numbers are written in decimal digits. Frequencies, durations and steps
//! may have a point and digits behind it, of which the first three count:
//! they are read in thousandths. A number above what its place can hold is
//! read as the largest that it can hold.

use vstd::prelude::*;

use crate::ascii::{
    digit_value, is_digit, is_sign, spec_digit_value, spec_is_digit, spec_is_sign, spec_to_upper,
    to_upper, DOT, GREATER, HASH, LESS, MINUS, PLUS, SEMICOLON, STAR,
};
use crate::music::{
    Articulation, MusicEntity, MusicOperation, Note, NoteInfo, NoteSign, SoundCodeInfo, Variation,
};

verus! {

/// `value`, or `cap` where `value` is above it.
pub open spec fn capped(value: nat, cap: nat) -> nat {
    if value <= cap {
        value
    } else {
        cap
    }
}

/// Where the run of digits that starts at `from` ends.
pub open spec fn digits_end(source: Seq<u8>, from: int) -> int
    decreases source.len() - from,
{
    if 0 <= from < source.len() && spec_is_digit(source[from]) {
        digits_end(source, from + 1)
    } else {
        from
    }
}

/// Where the run of dots that starts at `from` ends.
pub open spec fn dots_end(source: Seq<u8>, from: int) -> int
    decreases source.len() - from,
{
    if 0 <= from < source.len() && source[from] == DOT {
        dots_end(source, from + 1)
    } else {
        from
    }
}

/// The number that the digits from `from` up to `to` write in base ten.
pub open spec fn number(source: Seq<u8>, from: int, to: int) -> nat
    decreases to - from,
{
    if to <= from {
        0
    } else {
        number(source, from, to - 1) * 10 + spec_digit_value(source[to - 1])
    }
}

/// The digit at place `place` behind a decimal point at `from - 1`, where
/// the digits end at `to`; zero where there is none.
pub open spec fn decimal_place(source: Seq<u8>, from: int, to: int, place: int) -> nat {
    if from + place < to {
        spec_digit_value(source[from + place])
    } else {
        0
    }
}

/// The thousandths that the digits from `from` up to `to` write behind a
/// decimal point. Digits after the third do not count.
pub open spec fn thousandths(source: Seq<u8>, from: int, to: int) -> nat {
    decimal_place(source, from, to, 0) * 100 + decimal_place(source, from, to, 1) * 10
        + decimal_place(source, from, to, 2)
}

/// A decimal number as it stands in a text.
pub struct Decimal {
    /// Whether there is a digit at all, before the point or behind it.
    pub present: bool,
    /// The number before the point.
    pub whole: nat,
    /// The thousandths behind the point.
    pub thousandths: nat,
    /// Where the number ends.
    pub end: int,
}

impl Decimal {
    /// The number in thousandths.
    pub open spec fn in_thousandths(self) -> nat {
        self.whole * 1000 + self.thousandths
    }
}

/// The decimal number at `from`: digits, then, where a point follows them,
/// the point and the digits behind it. All of it may be missing.
#[verifier::opaque]
pub open spec fn decimal_at(source: Seq<u8>, from: int) -> Decimal {
    let point = digits_end(source, from);
    if 0 <= point < source.len() && source[point] == DOT {
        let end = digits_end(source, point + 1);
        Decimal {
            present: point > from || end > point + 1,
            whole: number(source, from, point),
            thousandths: thousandths(source, point + 1, end),
            end,
        }
    } else {
        Decimal {
            present: point > from,
            whole: number(source, from, point),
            thousandths: 0,
            end: point,
        }
    }
}

/// A field of a sound effect that counts in thousandths and holds up to
/// `cap`: the number that stands there, or nothing.
pub open spec fn thousandths_field(field: Decimal, cap: nat) -> Option<nat> {
    if field.present {
        Some(capped(field.in_thousandths(), cap))
    } else {
        None
    }
}

/// The frequency of a sound effect in millihertz: what stands in its first
/// field, held to an `i64`.
pub open spec fn frequency_field(field: Decimal) -> Option<i64> {
    match thousandths_field(field, i64::MAX as nat) {
        Some(value) => Some(value as i64),
        None => None,
    }
}

/// The duration of a sound effect in thousandths of a tick: what stands in
/// its second field, held to a `u64`.
pub open spec fn duration_field(field: Decimal) -> Option<u64> {
    match thousandths_field(field, u64::MAX as nat) {
        Some(value) => Some(value as u64),
        None => None,
    }
}

/// A field of a sound effect that counts in whole numbers: the number before
/// the point, or nothing. What stands behind the point is passed over.
pub open spec fn whole_field(field: Decimal) -> Option<usize> {
    if field.present {
        Some(capped(field.whole, usize::MAX as nat) as usize)
    } else {
        None
    }
}

/// The last field of a sound effect as it stands in a text.
pub struct VariationField {
    pub variation: Option<Variation>,
    pub end: int,
}

/// The variation at `from`: a star for a random one; else a decimal number
/// of hertz, with or without a sign before it, for a fixed one. A sign
/// without a number is passed over.
#[verifier::opaque]
pub open spec fn variation_at(source: Seq<u8>, from: int) -> VariationField {
    if 0 <= from < source.len() && source[from] == STAR {
        VariationField { variation: Some(Variation::Random), end: from + 1 }
    } else if 0 <= from < source.len() && spec_is_sign(source[from]) {
        let field = decimal_at(source, from + 1);
        let size = capped(field.in_thousandths(), i64::MAX as nat);
        VariationField {
            variation: if !field.present {
                None
            } else if source[from] == MINUS {
                Some(Variation::Value((-size) as i64))
            } else {
                Some(Variation::Value(size as i64))
            },
            end: field.end,
        }
    } else {
        let field = decimal_at(source, from);
        VariationField {
            variation: if field.present {
                Some(Variation::Value(capped(field.in_thousandths(), i64::MAX as nat) as i64))
            } else {
                None
            },
            end: field.end,
        }
    }
}

/// Whether a semicolon stands at `at`.
pub open spec fn semicolon_at(source: Seq<u8>, at: int) -> bool {
    0 <= at < source.len() && source[at] == SEMICOLON
}

/// A command as it stands in a text, or a byte that is passed over.
pub struct Token {
    /// The command, if one stands there.
    pub entity: Option<MusicEntity>,
    /// Where reading goes on.
    pub end: int,
}

/// The sound effect at `from`: up to five fields with a semicolon between
/// one and the next: frequency, duration, delay, cycles, variation. The
/// effect ends with the first field that no semicolon follows; the fields
/// after it are empty.
#[verifier::opaque]
pub open spec fn sound_code_at(source: Seq<u8>, from: int) -> Token {
    let frequency = decimal_at(source, from);
    let has_duration = semicolon_at(source, frequency.end);
    let duration = decimal_at(source, frequency.end + 1);
    let has_delay = has_duration && semicolon_at(source, duration.end);
    let delay = decimal_at(source, duration.end + 1);
    let has_cycles = has_delay && semicolon_at(source, delay.end);
    let cycles = decimal_at(source, delay.end + 1);
    let has_variation = has_cycles && semicolon_at(source, cycles.end);
    let variation = variation_at(source, cycles.end + 1);
    Token {
        entity: Some(
            MusicEntity::SoundCode(
                SoundCodeInfo {
                    frequency: frequency_field(frequency),
                    duration: if has_duration {
                        duration_field(duration)
                    } else {
                        None
                    },
                    delay: if has_delay {
                        whole_field(delay)
                    } else {
                        None
                    },
                    cycles: if has_cycles {
                        whole_field(cycles)
                    } else {
                        None
                    },
                    variation: if has_variation {
                        variation.variation
                    } else {
                        None
                    },
                },
            ),
        ),
        end: if has_variation {
            variation.end
        } else if has_cycles {
            cycles.end
        } else if has_delay {
            delay.end
        } else if has_duration {
            duration.end
        } else {
            frequency.end
        },
    }
}

/// The note that the capital letter `letter` names.
pub open spec fn note_of(letter: u8) -> Option<Note> {
    if letter == 0x41 {
        Some(Note::A)
    } else if letter == 0x42 {
        Some(Note::B)
    } else if letter == 0x43 {
        Some(Note::C)
    } else if letter == 0x44 {
        Some(Note::D)
    } else if letter == 0x45 {
        Some(Note::E)
    } else if letter == 0x46 {
        Some(Note::F)
    } else if letter == 0x47 {
        Some(Note::G)
    } else {
        None
    }
}

/// The note of letter `note` whose letter stands at `at`: behind the letter
/// a sign (`#` or `+` for sharp, `-` for flat) or none, then a length in
/// digits or none, then dots or none.
#[verifier::opaque]
pub open spec fn note_at(source: Seq<u8>, at: int, note: Note) -> Token {
    let signed = 0 <= at + 1 < source.len() && (source[at + 1] == HASH || source[at + 1] == PLUS
        || source[at + 1] == MINUS);
    let sign = if !signed {
        NoteSign::Natural
    } else if source[at + 1] == MINUS {
        NoteSign::Flat
    } else {
        NoteSign::Sharp
    };
    let from = if signed {
        at + 2
    } else {
        at + 1
    };
    let to = digits_end(source, from);
    let end = dots_end(source, to);
    Token {
        entity: Some(
            MusicEntity::Note {
                note,
                info: NoteInfo {
                    sign,
                    length: if to > from {
                        Some(capped(number(source, from, to), usize::MAX as nat) as usize)
                    } else {
                        None
                    },
                    dots: (end - to) as usize,
                },
            },
        ),
        end,
    }
}

/// The command that the capital letter `letter` makes of the number `value`
/// behind it: `T` a tempo, `L` a length, `O` an octave, `N` a note by its
/// place in the table, `P` a rest.
pub open spec fn numbered(letter: u8, value: usize) -> Option<MusicEntity> {
    if letter == 0x54 {
        Some(MusicEntity::Tempo(value))
    } else if letter == 0x4c {
        Some(MusicEntity::Length(value))
    } else if letter == 0x4f {
        Some(MusicEntity::Octave(value))
    } else if letter == 0x4e {
        Some(MusicEntity::RawNote(value))
    } else if letter == 0x50 {
        Some(MusicEntity::Pause(value))
    } else {
        None
    }
}

/// The operation that the capital letter `letter` names behind an `M`: `S`
/// staccato, `N` normal, `L` legato, `F` foreground, `B` background.
pub open spec fn operation_of(letter: u8) -> Option<MusicOperation> {
    if letter == 0x53 {
        Some(MusicOperation::Articulation(Articulation::Staccato))
    } else if letter == 0x4e {
        Some(MusicOperation::Articulation(Articulation::Normal))
    } else if letter == 0x4c {
        Some(MusicOperation::Articulation(Articulation::Legato))
    } else if letter == 0x46 {
        Some(MusicOperation::Foreground)
    } else if letter == 0x42 {
        Some(MusicOperation::Background)
    } else {
        None
    }
}

/// What stands at `at`, a place inside the text.
///
/// - `T`, `L`, `O`, `N` or `P` with digits behind it is the command of that
///   letter; without digits the letter is passed over.
/// - `<` lowers the octave, `>` raises it.
/// - `M` with one of `S`, `N`, `L`, `F`, `B` behind it is an operation;
///   before anything else it is passed over.
/// - `A` to `G` starts a note.
/// - A digit or a semicolon starts a sound effect.
/// - Any other byte is passed over.
pub open spec fn token_at(source: Seq<u8>, at: int) -> Token {
    let letter = spec_to_upper(source[at]);
    if numbered(letter, 0) is Some {
        let to = digits_end(source, at + 1);
        if to > at + 1 {
            Token {
                entity: numbered(
                    letter,
                    capped(number(source, at + 1, to), usize::MAX as nat) as usize,
                ),
                end: to,
            }
        } else {
            Token { entity: None, end: at + 1 }
        }
    } else if source[at] == LESS {
        Token { entity: Some(MusicEntity::DecreaseOctave), end: at + 1 }
    } else if source[at] == GREATER {
        Token { entity: Some(MusicEntity::IncreaseOctave), end: at + 1 }
    } else if letter == 0x4d {
        if at + 1 < source.len() && operation_of(spec_to_upper(source[at + 1])) is Some {
            Token {
                entity: Some(
                    MusicEntity::Operation(operation_of(spec_to_upper(source[at + 1])).unwrap()),
                ),
                end: at + 2,
            }
        } else {
            Token { entity: None, end: at + 1 }
        }
    } else if note_of(letter) is Some {
        note_at(source, at, note_of(letter).unwrap())
    } else if spec_is_digit(source[at]) || source[at] == SEMICOLON {
        sound_code_at(source, at)
    } else {
        Token { entity: None, end: at + 1 }
    }
}

/// A run of digits ends at or behind its start, inside the text.
pub proof fn lemma_digits_end(source: Seq<u8>, from: int)
    requires
        0 <= from <= source.len(),
    ensures
        from <= digits_end(source, from) <= source.len(),
        forall|i: int| from <= i < digits_end(source, from) ==> spec_is_digit(#[trigger] source[i]),
        digits_end(source, from) < source.len() ==> !spec_is_digit(
            source[digits_end(source, from)],
        ),
    decreases source.len() - from,
{
    if from < source.len() && spec_is_digit(source[from]) {
        lemma_digits_end(source, from + 1);
    }
}

/// A run of dots ends at or behind its start, inside the text.
pub proof fn lemma_dots_end(source: Seq<u8>, from: int)
    requires
        0 <= from <= source.len(),
    ensures
        from <= dots_end(source, from) <= source.len(),
    decreases source.len() - from,
{
    if from < source.len() && source[from] == DOT {
        lemma_dots_end(source, from + 1);
    }
}

/// A decimal number ends at or behind its start, inside the text.
pub proof fn lemma_decimal_end(source: Seq<u8>, from: int)
    requires
        0 <= from <= source.len(),
    ensures
        from <= decimal_at(source, from).end <= source.len(),
        decimal_at(source, from).thousandths <= 999,
        from < source.len() && spec_is_digit(source[from]) ==> decimal_at(source, from).present
            && decimal_at(source, from).end > from,
        from == source.len() || (!spec_is_digit(source[from]) && source[from] != DOT)
            ==> !decimal_at(source, from).present && decimal_at(source, from).end == from,
{
    reveal(decimal_at);
    lemma_digits_end(source, from);
    if from < source.len() {
        lemma_digits_end(source, from + 1);
    }
    let point = digits_end(source, from);
    if point < source.len() {
        lemma_digits_end(source, point + 1);
    }
}

/// A variation ends at or behind its start, inside the text.
pub proof fn lemma_variation_end(source: Seq<u8>, from: int)
    requires
        0 <= from <= source.len(),
    ensures
        from <= variation_at(source, from).end <= source.len(),
{
    reveal(variation_at);
    lemma_decimal_end(source, from);
    if from < source.len() {
        lemma_decimal_end(source, from + 1);
    }
}

/// A sound effect that starts with a digit or a semicolon ends behind its
/// start, inside the text.
pub proof fn lemma_sound_code_end(source: Seq<u8>, from: int)
    requires
        0 <= from < source.len(),
        spec_is_digit(source[from]) || source[from] == SEMICOLON,
    ensures
        from < sound_code_at(source, from).end <= source.len(),
{
    reveal(sound_code_at);
    lemma_decimal_end(source, from);
    let frequency = decimal_at(source, from);
    if semicolon_at(source, frequency.end) {
        lemma_decimal_end(source, frequency.end + 1);
        let duration = decimal_at(source, frequency.end + 1);
        if semicolon_at(source, duration.end) {
            lemma_decimal_end(source, duration.end + 1);
            let delay = decimal_at(source, duration.end + 1);
            if semicolon_at(source, delay.end) {
                lemma_decimal_end(source, delay.end + 1);
                let cycles = decimal_at(source, delay.end + 1);
                if semicolon_at(source, cycles.end) {
                    lemma_variation_end(source, cycles.end + 1);
                }
            }
        }
    }
}

/// A note ends behind its letter, inside the text.
pub proof fn lemma_note_end(source: Seq<u8>, at: int, note: Note)
    requires
        0 <= at < source.len(),
    ensures
        at < note_at(source, at, note).end <= source.len(),
        note_at(source, at, note).entity is Some,
{
    reveal(note_at);
    lemma_digits_end(source, at + 1);
    lemma_dots_end(source, digits_end(source, at + 1));
    if at + 2 <= source.len() {
        lemma_digits_end(source, at + 2);
        lemma_dots_end(source, digits_end(source, at + 2));
    }
}

/// Whatever stands at a place of the text, reading goes on behind it, inside
/// the text.
pub proof fn lemma_token_end(source: Seq<u8>, at: int)
    requires
        0 <= at < source.len(),
    ensures
        at < token_at(source, at).end <= source.len(),
{
    lemma_digits_end(source, at + 1);
    if note_of(spec_to_upper(source[at])) is Some {
        lemma_note_end(source, at, note_of(spec_to_upper(source[at])).unwrap());
    }
    if spec_is_digit(source[at]) || source[at] == SEMICOLON {
        lemma_sound_code_end(source, at);
    }
}

/// The commands of the text from `at` on, in the order in which they stand.
pub open spec fn entities_from(source: Seq<u8>, at: int) -> Seq<MusicEntity>
    decreases source.len() - at,
{
    if 0 <= at < source.len() {
        proof {
            lemma_token_end(source, at);
        }
        let token = token_at(source, at);
        match token.entity {
            Some(entity) => seq![entity] + entities_from(source, token.end),
            None => entities_from(source, token.end),
        }
    } else {
        Seq::empty()
    }
}

/// Reads the run of digits at `from` and the number they write, held to a
/// `u64`.
fn read_digits(source: &[u8], from: usize) -> (read: (u64, usize))
    requires
        from <= source.len(),
    ensures
        read.1 == digits_end(source@, from as int),
        read.0 == capped(number(source@, from as int, read.1 as int), u64::MAX as nat),
        from <= read.1 <= source.len(),
{
    let mut value: u64 = 0;
    let mut at: usize = from;
    while at < source.len() && is_digit(source[at])
        invariant
            from <= at <= source.len(),
            digits_end(source@, from as int) == digits_end(source@, at as int),
            value == capped(number(source@, from as int, at as int), u64::MAX as nat),
        decreases source.len() - at,
    {
        let digit = digit_value(source[at]) as u64;
        value = match value.checked_mul(10) {
            Some(tens) => match tens.checked_add(digit) {
                Some(sum) => sum,
                None => u64::MAX,
            },
            None => u64::MAX,
        };
        at = at + 1;
    }
    (value, at)
}

/// Reads the run of dots at `from`.
fn read_dots(source: &[u8], from: usize) -> (end: usize)
    requires
        from <= source.len(),
    ensures
        end == dots_end(source@, from as int),
        from <= end <= source.len(),
{
    let mut at: usize = from;
    while at < source.len() && source[at] == DOT
        invariant
            from <= at <= source.len(),
            dots_end(source@, from as int) == dots_end(source@, at as int),
        decreases source.len() - at,
    {
        at = at + 1;
    }
    at
}

/// Reads the digits behind a decimal point: the thousandths they write and
/// where they end.
fn read_thousandths(source: &[u8], from: usize) -> (read: (u64, usize))
    requires
        from <= source.len(),
    ensures
        read.1 == digits_end(source@, from as int),
        read.0 == thousandths(source@, from as int, read.1 as int),
        read.0 <= 999,
        from <= read.1 <= source.len(),
{
    let mut value: u64 = 0;
    let mut at: usize = from;
    while at < source.len() && is_digit(source[at])
        invariant
            from <= at <= source.len(),
            digits_end(source@, from as int) == digits_end(source@, at as int),
            value == thousandths(source@, from as int, at as int),
            value <= 999,
            at - from == 0 ==> value == 0,
            at - from == 1 ==> value % 100 == 0,
            at - from == 2 ==> value % 10 == 0,
        decreases source.len() - at,
    {
        let digit = digit_value(source[at]) as u64;
        let place = at - from;
        if place == 0 {
            value = digit * 100;
        } else if place == 1 {
            value = value + digit * 10;
        } else if place == 2 {
            value = value + digit;
        }
        at = at + 1;
    }
    (value, at)
}

/// A decimal number as it was read.
struct DecimalRead {
    present: bool,
    whole: u64,
    thousandths: u64,
    end: usize,
}

impl DecimalRead {
    /// Whether this is what stands at `from`, the whole number held to a
    /// `u64`.
    spec fn reads(self, source: Seq<u8>, from: int) -> bool {
        let field = decimal_at(source, from);
        &&& self.present == field.present
        &&& self.whole == capped(field.whole, u64::MAX as nat)
        &&& self.thousandths == field.thousandths
        &&& self.thousandths <= 999
        &&& self.end == field.end
    }

    /// The number in thousandths, held to `cap`.
    fn in_thousandths(&self, cap: u64) -> (value: Option<u64>)
        requires
            self.thousandths <= 999,
        ensures
            forall|source: Seq<u8>, from: int| #[trigger]
                self.reads(source, from) ==> match thousandths_field(
                    decimal_at(source, from),
                    cap as nat,
                ) {
                    Some(field) => value == Some(field as u64),
                    None => value is None,
                },
    {
        if self.present {
            let exact: u128 = (self.whole as u128) * 1000 + (self.thousandths as u128);
            if exact > cap as u128 {
                Some(cap)
            } else {
                Some(exact as u64)
            }
        } else {
            None
        }
    }

    /// The whole number, held to a `usize`.
    fn whole_number(&self) -> (value: Option<usize>)
        ensures
            forall|source: Seq<u8>, from: int| #[trigger]
                self.reads(source, from) ==> value == whole_field(decimal_at(source, from)),
    {
        if !self.present {
            None
        } else if self.whole > usize::MAX as u64 {
            Some(usize::MAX)
        } else {
            Some(self.whole as usize)
        }
    }
}

/// Reads the decimal number at `from`.
fn read_decimal(source: &[u8], from: usize) -> (read: DecimalRead)
    requires
        from <= source.len(),
    ensures
        read.reads(source@, from as int),
        from <= read.end <= source.len(),
{
    proof {
        reveal(decimal_at);
    }
    let (whole, point) = read_digits(source, from);
    if point < source.len() && source[point] == DOT {
        let (thousandths, end) = read_thousandths(source, point + 1);
        DecimalRead { present: point > from || end > point + 1, whole, thousandths, end }
    } else {
        DecimalRead { present: point > from, whole, thousandths: 0, end: point }
    }
}

/// Reads the variation at `from`.
fn read_variation(source: &[u8], from: usize) -> (read: (Option<Variation>, usize))
    requires
        from <= source.len(),
    ensures
        read.0 == variation_at(source@, from as int).variation,
        read.1 == variation_at(source@, from as int).end,
        from <= read.1 <= source.len(),
{
    proof {
        reveal(variation_at);
    }
    if from < source.len() && source[from] == STAR {
        (Some(Variation::Random), from + 1)
    } else if from < source.len() && is_sign(source[from]) {
        let field = read_decimal(source, from + 1);
        let variation = match field.in_thousandths(i64::MAX as u64) {
            None => None,
            Some(size) => if source[from] == MINUS {
                Some(Variation::Value(-(size as i64)))
            } else {
                Some(Variation::Value(size as i64))
            },
        };
        (variation, field.end)
    } else {
        let field = read_decimal(source, from);
        let variation = match field.in_thousandths(i64::MAX as u64) {
            None => None,
            Some(size) => Some(Variation::Value(size as i64)),
        };
        (variation, field.end)
    }
}

/// Reads the sound effect at `from`.
fn read_sound_code(source: &[u8], from: usize) -> (read: (Option<MusicEntity>, usize))
    requires
        from <= source.len(),
    ensures
        read.0 == sound_code_at(source@, from as int).entity,
        read.1 == sound_code_at(source@, from as int).end,
        from <= read.1 <= source.len(),
{
    proof {
        reveal(sound_code_at);
    }
    let mut info = SoundCodeInfo {
        frequency: None,
        duration: None,
        delay: None,
        cycles: None,
        variation: None,
    };
    let frequency = read_decimal(source, from);
    info.frequency = match frequency.in_thousandths(i64::MAX as u64) {
        Some(value) => Some(value as i64),
        None => None,
    };
    let mut end = frequency.end;
    if end < source.len() && source[end] == SEMICOLON {
        let duration = read_decimal(source, end + 1);
        info.duration = duration.in_thousandths(u64::MAX);
        end = duration.end;
        if end < source.len() && source[end] == SEMICOLON {
            let delay = read_decimal(source, end + 1);
            info.delay = delay.whole_number();
            end = delay.end;
            if end < source.len() && source[end] == SEMICOLON {
                let cycles = read_decimal(source, end + 1);
                info.cycles = cycles.whole_number();
                end = cycles.end;
                if end < source.len() && source[end] == SEMICOLON {
                    let (variation, last) = read_variation(source, end + 1);
                    info.variation = variation;
                    end = last;
                }
            }
        }
    }
    (Some(MusicEntity::SoundCode(info)), end)
}

/// The note that a capital letter names.
fn note_named(letter: u8) -> (note: Option<Note>)
    ensures
        note == note_of(letter),
{
    if letter == 0x41 {
        Some(Note::A)
    } else if letter == 0x42 {
        Some(Note::B)
    } else if letter == 0x43 {
        Some(Note::C)
    } else if letter == 0x44 {
        Some(Note::D)
    } else if letter == 0x45 {
        Some(Note::E)
    } else if letter == 0x46 {
        Some(Note::F)
    } else if letter == 0x47 {
        Some(Note::G)
    } else {
        None
    }
}

/// The command that a capital letter makes of a number.
fn numbered_command(letter: u8, value: usize) -> (entity: Option<MusicEntity>)
    ensures
        entity == numbered(letter, value),
{
    if letter == 0x54 {
        Some(MusicEntity::Tempo(value))
    } else if letter == 0x4c {
        Some(MusicEntity::Length(value))
    } else if letter == 0x4f {
        Some(MusicEntity::Octave(value))
    } else if letter == 0x4e {
        Some(MusicEntity::RawNote(value))
    } else if letter == 0x50 {
        Some(MusicEntity::Pause(value))
    } else {
        None
    }
}

/// The operation that a capital letter names behind an `M`.
fn operation_named(letter: u8) -> (operation: Option<MusicOperation>)
    ensures
        operation == operation_of(letter),
{
    if letter == 0x53 {
        Some(MusicOperation::Articulation(Articulation::Staccato))
    } else if letter == 0x4e {
        Some(MusicOperation::Articulation(Articulation::Normal))
    } else if letter == 0x4c {
        Some(MusicOperation::Articulation(Articulation::Legato))
    } else if letter == 0x46 {
        Some(MusicOperation::Foreground)
    } else if letter == 0x42 {
        Some(MusicOperation::Background)
    } else {
        None
    }
}

/// A number read from a text, held to a `usize`.
fn held_to_usize(value: u64) -> (held: usize)
    ensures
        held == capped(value as nat, usize::MAX as nat),
{
    if value > usize::MAX as u64 {
        usize::MAX
    } else {
        value as usize
    }
}

/// Reads the note whose letter stands at `at`.
fn read_note(source: &[u8], at: usize, note: Note) -> (read: (Option<MusicEntity>, usize))
    requires
        at < source.len(),
    ensures
        read.0 == note_at(source@, at as int, note).entity,
        read.1 == note_at(source@, at as int, note).end,
        at < read.1 <= source.len(),
{
    proof {
        reveal(note_at);
    }
    let mut sign = NoteSign::Natural;
    let mut from: usize = at + 1;
    if from < source.len() {
        let byte = source[from];
        if byte == HASH || byte == PLUS {
            sign = NoteSign::Sharp;
            from = from + 1;
        } else if byte == MINUS {
            sign = NoteSign::Flat;
            from = from + 1;
        }
    }
    let (value, to) = read_digits(source, from);
    let end = read_dots(source, to);
    let length = if to > from {
        Some(held_to_usize(value))
    } else {
        None
    };
    (Some(MusicEntity::Note { note, info: NoteInfo { sign, length, dots: end - to } }), end)
}

/// Reads what stands at `at`: the command there, if there is one, and where
/// reading goes on.
pub fn read_token(source: &[u8], at: usize) -> (read: (Option<MusicEntity>, usize))
    requires
        at < source.len(),
    ensures
        read.0 == token_at(source@, at as int).entity,
        read.1 == token_at(source@, at as int).end,
        at < read.1 <= source.len(),
{
    proof {
        lemma_token_end(source@, at as int);
    }
    let byte = source[at];
    let letter = to_upper(byte);
    if numbered_command(letter, 0).is_some() {
        let (value, to) = read_digits(source, at + 1);
        if to > at + 1 {
            (numbered_command(letter, held_to_usize(value)), to)
        } else {
            (None, at + 1)
        }
    } else if byte == LESS {
        (Some(MusicEntity::DecreaseOctave), at + 1)
    } else if byte == GREATER {
        (Some(MusicEntity::IncreaseOctave), at + 1)
    } else if letter == 0x4d {
        if at + 1 < source.len() {
            match operation_named(to_upper(source[at + 1])) {
                Some(operation) => (Some(MusicEntity::Operation(operation)), at + 2),
                None => (None, at + 1),
            }
        } else {
            (None, at + 1)
        }
    } else {
        match note_named(letter) {
            Some(note) => read_note(source, at, note),
            None => if is_digit(byte) || byte == SEMICOLON {
                read_sound_code(source, at)
            } else {
                (None, at + 1)
            },
        }
    }
}

} // verus!
