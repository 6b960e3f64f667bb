//! The canonical text of a piece: each command written out in one way, with
//! a blank between one command and the next.

use vstd::prelude::*;

use crate::ascii::{digit, spec_digit, DOT, GREATER, HASH, LESS, MINUS, SEMICOLON, SPACE, STAR};
use crate::music::{
    Articulation, MusicEntity, MusicOperation, Note, NoteInfo, NoteSign, SoundCodeInfo, Variation,
};

verus! {

/// `value` in base ten, without leading zeros.
pub open spec fn decimal_digits(value: nat) -> Seq<u8>
    decreases value,
{
    if value < 10 {
        seq![spec_digit(value)]
    } else {
        decimal_digits(value / 10).push(spec_digit(value % 10))
    }
}

/// A number of thousandths as a decimal number: the whole part, and behind a
/// point as many digits as it takes, at most three, none for a whole number.
pub open spec fn thousandths_text(value: nat) -> Seq<u8> {
    let whole = decimal_digits(value / 1000);
    let fraction = value % 1000;
    if fraction == 0 {
        whole
    } else if fraction % 100 == 0 {
        whole + seq![DOT, spec_digit(fraction / 100)]
    } else if fraction % 10 == 0 {
        whole + seq![DOT, spec_digit(fraction / 100), spec_digit(fraction / 10 % 10)]
    } else {
        whole + seq![
            DOT,
            spec_digit(fraction / 100),
            spec_digit(fraction / 10 % 10),
            spec_digit(fraction % 10),
        ]
    }
}

/// A number of thousandths, with a minus sign before it where it is
/// negative.
pub open spec fn signed_thousandths_text(value: int) -> Seq<u8> {
    if value < 0 {
        seq![MINUS] + thousandths_text((-value) as nat)
    } else {
        thousandths_text(value as nat)
    }
}

/// `count` dots.
pub open spec fn dots_text(count: nat) -> Seq<u8> {
    Seq::new(count, |i: int| DOT)
}

/// The capital letter of a note.
pub open spec fn note_letter(note: Note) -> u8 {
    match note {
        Note::A => 0x41,
        Note::B => 0x42,
        Note::C => 0x43,
        Note::D => 0x44,
        Note::E => 0x45,
        Note::F => 0x46,
        Note::G => 0x47,
    }
}

/// The sign of a note: `#` for a sharp, `-` for a flat, nothing for a
/// natural.
pub open spec fn sign_text(sign: NoteSign) -> Seq<u8> {
    match sign {
        NoteSign::Sharp => seq![HASH],
        NoteSign::Natural => Seq::empty(),
        NoteSign::Flat => seq![MINUS],
    }
}

/// The length of a note, where it has one of its own.
pub open spec fn length_text(length: Option<usize>) -> Seq<u8> {
    match length {
        Some(length) => decimal_digits(length as nat),
        None => Seq::empty(),
    }
}

/// A note: its letter, its sign, its length, its dots.
pub open spec fn note_text(note: Note, info: NoteInfo) -> Seq<u8> {
    seq![note_letter(note)] + sign_text(info.sign) + length_text(info.length) + dots_text(
        info.dots as nat,
    )
}

/// The last field of a sound effect: a star for a random variation, the
/// step in hertz for a fixed one, nothing for none.
pub open spec fn variation_text(variation: Option<Variation>) -> Seq<u8> {
    match variation {
        Some(Variation::Random) => seq![STAR],
        Some(Variation::Value(step)) => signed_thousandths_text(step as int),
        None => Seq::empty(),
    }
}

/// The first field of a sound effect: the frequency in hertz, or nothing.
pub open spec fn frequency_text(frequency: Option<i64>) -> Seq<u8> {
    match frequency {
        Some(frequency) => signed_thousandths_text(frequency as int),
        None => Seq::empty(),
    }
}

/// The second field of a sound effect: the duration in ticks, or nothing.
pub open spec fn duration_text(duration: Option<u64>) -> Seq<u8> {
    match duration {
        Some(duration) => thousandths_text(duration as nat),
        None => Seq::empty(),
    }
}

/// A field of a sound effect that holds a whole number, or nothing.
pub open spec fn count_text(count: Option<usize>) -> Seq<u8> {
    match count {
        Some(count) => decimal_digits(count as nat),
        None => Seq::empty(),
    }
}

/// A sound effect: its five fields with a semicolon between one and the
/// next, an empty field for one that is not there.
pub open spec fn sound_code_text(info: SoundCodeInfo) -> Seq<u8> {
    frequency_text(info.frequency) + seq![SEMICOLON] + duration_text(info.duration) + seq![
        SEMICOLON,
    ] + count_text(info.delay) + seq![SEMICOLON] + count_text(info.cycles) + seq![SEMICOLON]
        + variation_text(info.variation)
}

/// The two letters of an operation.
pub open spec fn operation_text(operation: MusicOperation) -> Seq<u8> {
    match operation {
        MusicOperation::Articulation(Articulation::Legato) => seq![0x4du8, 0x4cu8],
        MusicOperation::Articulation(Articulation::Normal) => seq![0x4du8, 0x4eu8],
        MusicOperation::Articulation(Articulation::Staccato) => seq![0x4du8, 0x53u8],
        MusicOperation::Foreground => seq![0x4du8, 0x46u8],
        MusicOperation::Background => seq![0x4du8, 0x42u8],
    }
}

/// One command as it is written in the canonical text.
pub open spec fn entity_text(entity: MusicEntity) -> Seq<u8> {
    match entity {
        MusicEntity::Operation(operation) => operation_text(operation),
        MusicEntity::Tempo(value) => seq![0x54u8] + decimal_digits(value as nat),
        MusicEntity::Octave(value) => seq![0x4fu8] + decimal_digits(value as nat),
        MusicEntity::Length(value) => seq![0x4cu8] + decimal_digits(value as nat),
        MusicEntity::RawNote(value) => seq![0x4eu8] + decimal_digits(value as nat),
        MusicEntity::Pause(value) => seq![0x50u8] + decimal_digits(value as nat),
        MusicEntity::IncreaseOctave => seq![GREATER],
        MusicEntity::DecreaseOctave => seq![LESS],
        MusicEntity::Note { note, info } => note_text(note, info),
        MusicEntity::SoundCode(info) => sound_code_text(info),
    }
}

/// The canonical text of `entities`: each command as `entity_text` writes
/// it, with one blank between a command and the next.
pub open spec fn text_of(entities: Seq<MusicEntity>) -> Seq<u8>
    decreases entities.len(),
{
    if entities.len() == 0 {
        Seq::empty()
    } else if entities.len() == 1 {
        entity_text(entities[0])
    } else {
        text_of(entities.drop_last()) + seq![SPACE] + entity_text(entities.last())
    }
}

/// Appends `value` in base ten.
fn push_number(out: &mut Vec<u8>, value: u64)
    ensures
        final(out)@ == old(out)@ + decimal_digits(value as nat),
    decreases value,
{
    if value >= 10 {
        push_number(out, value / 10);
    }
    out.push(digit((value % 10) as u8));
    assert(final(out)@ =~= old(out)@ + decimal_digits(value as nat));
}

/// Appends a number of thousandths as a decimal number.
fn push_thousandths(out: &mut Vec<u8>, value: u64)
    ensures
        final(out)@ == old(out)@ + thousandths_text(value as nat),
{
    push_number(out, value / 1000);
    let fraction = value % 1000;
    if fraction != 0 {
        out.push(DOT);
        out.push(digit((fraction / 100) as u8));
        if fraction % 100 != 0 {
            out.push(digit((fraction / 10 % 10) as u8));
            if fraction % 10 != 0 {
                out.push(digit((fraction % 10) as u8));
            }
        }
    }
    assert(final(out)@ =~= old(out)@ + thousandths_text(value as nat));
}

/// Appends a number of thousandths with its sign.
fn push_signed_thousandths(out: &mut Vec<u8>, value: i64)
    ensures
        final(out)@ == old(out)@ + signed_thousandths_text(value as int),
{
    if value < 0 {
        out.push(MINUS);
        push_thousandths(out, (0 - (value as i128)) as u64);
    } else {
        push_thousandths(out, value as u64);
    }
    assert(final(out)@ =~= old(out)@ + signed_thousandths_text(value as int));
}

/// Appends a note.
#[verifier::rlimit(30)]
fn push_note(out: &mut Vec<u8>, note: Note, info: NoteInfo)
    ensures
        final(out)@ == old(out)@ + note_text(note, info),
{
    out.push(
        match note {
            Note::A => 0x41,
            Note::B => 0x42,
            Note::C => 0x43,
            Note::D => 0x44,
            Note::E => 0x45,
            Note::F => 0x46,
            Note::G => 0x47,
        },
    );
    match info.sign {
        NoteSign::Sharp => out.push(HASH),
        NoteSign::Natural => {},
        NoteSign::Flat => out.push(MINUS),
    }
    if let Some(length) = info.length {
        push_number(out, length as u64);
    }
    let ghost before = out@;
    let mut dots: usize = 0;
    while dots < info.dots
        invariant
            dots <= info.dots,
            out@ == before + dots_text(dots as nat),
        decreases info.dots - dots,
    {
        out.push(DOT);
        dots = dots + 1;
        assert(out@ =~= before + dots_text(dots as nat));
    }
    assert(final(out)@ =~= old(out)@ + note_text(note, info));
}

/// Appends the frequency of a sound effect.
fn push_frequency(out: &mut Vec<u8>, frequency: Option<i64>)
    ensures
        final(out)@ == old(out)@ + frequency_text(frequency),
{
    if let Some(frequency) = frequency {
        push_signed_thousandths(out, frequency);
    }
    assert(final(out)@ =~= old(out)@ + frequency_text(frequency));
}

/// Appends the duration of a sound effect.
fn push_duration(out: &mut Vec<u8>, duration: Option<u64>)
    ensures
        final(out)@ == old(out)@ + duration_text(duration),
{
    if let Some(duration) = duration {
        push_thousandths(out, duration);
    }
    assert(final(out)@ =~= old(out)@ + duration_text(duration));
}

/// Appends a field of a sound effect that holds a whole number.
fn push_count(out: &mut Vec<u8>, count: Option<usize>)
    ensures
        final(out)@ == old(out)@ + count_text(count),
{
    if let Some(count) = count {
        push_number(out, count as u64);
    }
    assert(final(out)@ =~= old(out)@ + count_text(count));
}

/// Appends the variation of a sound effect.
fn push_variation(out: &mut Vec<u8>, variation: Option<Variation>)
    ensures
        final(out)@ == old(out)@ + variation_text(variation),
{
    match variation {
        Some(Variation::Random) => out.push(STAR),
        Some(Variation::Value(step)) => push_signed_thousandths(out, step),
        None => {},
    }
    assert(final(out)@ =~= old(out)@ + variation_text(variation));
}

/// Five fields appended one after the other, a mark behind each of the first
/// four, are the five fields joined by the mark.
proof fn lemma_fields_joined(
    start: Seq<u8>,
    first: Seq<u8>,
    second: Seq<u8>,
    third: Seq<u8>,
    fourth: Seq<u8>,
    fifth: Seq<u8>,
    mark: u8,
)
    ensures
        ((((start + first).push(mark) + second).push(mark) + third).push(mark) + fourth).push(mark)
            + fifth == start + (first + seq![mark] + second + seq![mark] + third + seq![mark]
            + fourth + seq![mark] + fifth),
{
    assert(((((start + first).push(mark) + second).push(mark) + third).push(mark) + fourth).push(
        mark,
    ) + fifth =~= start + (first + seq![mark] + second + seq![mark] + third + seq![mark] + fourth
        + seq![mark] + fifth));
}

/// Appends a sound effect.
fn push_sound_code(out: &mut Vec<u8>, info: SoundCodeInfo)
    ensures
        final(out)@ == old(out)@ + sound_code_text(info),
{
    push_frequency(out, info.frequency);
    out.push(SEMICOLON);
    push_duration(out, info.duration);
    out.push(SEMICOLON);
    push_count(out, info.delay);
    out.push(SEMICOLON);
    push_count(out, info.cycles);
    out.push(SEMICOLON);
    push_variation(out, info.variation);
    proof {
        lemma_fields_joined(
            old(out)@,
            frequency_text(info.frequency),
            duration_text(info.duration),
            count_text(info.delay),
            count_text(info.cycles),
            variation_text(info.variation),
            SEMICOLON,
        );
    }
}

/// Appends a letter and the number behind it.
fn push_numbered(out: &mut Vec<u8>, letter: u8, value: usize)
    ensures
        final(out)@ == old(out)@ + (seq![letter] + decimal_digits(value as nat)),
{
    out.push(letter);
    push_number(out, value as u64);
    assert(final(out)@ =~= old(out)@ + (seq![letter] + decimal_digits(value as nat)));
}

/// Appends one command as the canonical text writes it.
pub fn push_entity(out: &mut Vec<u8>, entity: MusicEntity)
    ensures
        final(out)@ == old(out)@ + entity_text(entity),
{
    match entity {
        MusicEntity::Operation(operation) => {
            out.push(0x4d);
            out.push(
                match operation {
                    MusicOperation::Articulation(Articulation::Legato) => 0x4c,
                    MusicOperation::Articulation(Articulation::Normal) => 0x4e,
                    MusicOperation::Articulation(Articulation::Staccato) => 0x53,
                    MusicOperation::Foreground => 0x46,
                    MusicOperation::Background => 0x42,
                },
            );
            assert(final(out)@ =~= old(out)@ + entity_text(entity));
        },
        MusicEntity::Tempo(value) => push_numbered(out, 0x54, value),
        MusicEntity::Octave(value) => push_numbered(out, 0x4f, value),
        MusicEntity::Length(value) => push_numbered(out, 0x4c, value),
        MusicEntity::RawNote(value) => push_numbered(out, 0x4e, value),
        MusicEntity::Pause(value) => push_numbered(out, 0x50, value),
        MusicEntity::IncreaseOctave => {
            out.push(GREATER);
            assert(final(out)@ =~= old(out)@ + entity_text(entity));
        },
        MusicEntity::DecreaseOctave => {
            out.push(LESS);
            assert(final(out)@ =~= old(out)@ + entity_text(entity));
        },
        MusicEntity::Note { note, info } => push_note(out, note, info),
        MusicEntity::SoundCode(info) => push_sound_code(out, info),
    }
}

/// Whether every byte of `text` is a printable ASCII character, the blank
/// among them: none is a control byte.
pub open spec fn printable(text: Seq<u8>) -> bool {
    forall|i: int| 0 <= i < text.len() ==> 0x20 <= #[trigger] text[i] <= 0x7e
}

/// Two printable texts joined are printable.
pub proof fn lemma_printable_concat(first: Seq<u8>, second: Seq<u8>)
    requires
        printable(first),
        printable(second),
    ensures
        printable(first + second),
{
}

/// A number is written in digits, at least one.
pub proof fn lemma_decimal_digits_printable(value: nat)
    ensures
        printable(decimal_digits(value)),
        decimal_digits(value).len() >= 1,
    decreases value,
{
    if value >= 10 {
        lemma_decimal_digits_printable(value / 10);
    }
}

/// A number of thousandths is written in printable characters.
pub proof fn lemma_thousandths_printable(value: int)
    ensures
        printable(signed_thousandths_text(value)),
        value >= 0 ==> printable(thousandths_text(value as nat)),
{
    let size = if value < 0 {
        (-value) as nat
    } else {
        value as nat
    };
    lemma_decimal_digits_printable(size / 1000);
    assert(printable(thousandths_text(size)));
    if value < 0 {
        lemma_printable_concat(seq![MINUS], thousandths_text(size));
    }
}

/// A sound effect is written in printable characters.
pub proof fn lemma_sound_code_printable(info: SoundCodeInfo)
    ensures
        printable(sound_code_text(info)),
{
    let mark = seq![SEMICOLON];
    let frequency = frequency_text(info.frequency);
    let duration = duration_text(info.duration);
    let delay = count_text(info.delay);
    let cycles = count_text(info.cycles);
    let variation = variation_text(info.variation);
    if let Some(value) = info.frequency {
        lemma_thousandths_printable(value as int);
    }
    if let Some(value) = info.duration {
        lemma_thousandths_printable(value as int);
    }
    if let Some(value) = info.delay {
        lemma_decimal_digits_printable(value as nat);
    }
    if let Some(value) = info.cycles {
        lemma_decimal_digits_printable(value as nat);
    }
    if let Some(Variation::Value(value)) = info.variation {
        lemma_thousandths_printable(value as int);
    }
    lemma_printable_concat(frequency, mark);
    lemma_printable_concat(frequency + mark, duration);
    lemma_printable_concat(frequency + mark + duration, mark);
    lemma_printable_concat(frequency + mark + duration + mark, delay);
    lemma_printable_concat(frequency + mark + duration + mark + delay, mark);
    lemma_printable_concat(frequency + mark + duration + mark + delay + mark, cycles);
    lemma_printable_concat(frequency + mark + duration + mark + delay + mark + cycles, mark);
    lemma_printable_concat(
        frequency + mark + duration + mark + delay + mark + cycles + mark,
        variation,
    );
}

/// A command is written in printable characters, at least one.
pub proof fn lemma_entity_text_printable(entity: MusicEntity)
    ensures
        printable(entity_text(entity)),
        entity_text(entity).len() >= 1,
{
    match entity {
        MusicEntity::Operation(_) => {},
        MusicEntity::Tempo(value) => lemma_decimal_digits_printable(value as nat),
        MusicEntity::Octave(value) => lemma_decimal_digits_printable(value as nat),
        MusicEntity::Length(value) => lemma_decimal_digits_printable(value as nat),
        MusicEntity::RawNote(value) => lemma_decimal_digits_printable(value as nat),
        MusicEntity::Pause(value) => lemma_decimal_digits_printable(value as nat),
        MusicEntity::IncreaseOctave => {},
        MusicEntity::DecreaseOctave => {},
        MusicEntity::Note { note, info } => {
            if let Some(length) = info.length {
                lemma_decimal_digits_printable(length as nat);
            }
        },
        MusicEntity::SoundCode(info) => lemma_sound_code_printable(info),
    }
}

/// The canonical text holds no control byte.
pub proof fn lemma_text_printable(entities: Seq<MusicEntity>)
    ensures
        printable(text_of(entities)),
    decreases entities.len(),
{
    if entities.len() == 1 {
        lemma_entity_text_printable(entities[0]);
    } else if entities.len() > 1 {
        lemma_text_printable(entities.drop_last());
        lemma_entity_text_printable(entities.last());
    }
}

} // verus!
