use ansimusic::music::{
    Articulation, MusicEntity, MusicOperation, Note, NoteInfo, NoteSign, SoundCodeInfo, Variation,
};
use ansimusic::Music;

fn entities(text: &str) -> Vec<MusicEntity> {
    let music = Music::from(text);
    let mut coming = music.iter();
    let mut found = Vec::new();
    while let Some(entity) = coming.next() {
        found.push(entity);
    }
    found
}

fn note(note: Note) -> MusicEntity {
    MusicEntity::Note { note, info: NoteInfo { sign: NoteSign::Natural, length: None, dots: 0 } }
}

fn note_with(note: Note, sign: NoteSign, length: Option<usize>, dots: usize) -> MusicEntity {
    MusicEntity::Note { note, info: NoteInfo { sign, length, dots } }
}

fn effect(
    frequency: Option<i64>,
    duration: Option<u64>,
    delay: Option<usize>,
    cycles: Option<usize>,
    variation: Option<Variation>,
) -> MusicEntity {
    MusicEntity::SoundCode(SoundCodeInfo { frequency, duration, delay, cycles, variation })
}

#[test]
fn empty_text_has_no_commands() {
    assert_eq!(entities(""), vec![]);
}

#[test]
fn tune_is_read_command_by_command() {
    let found = entities(
        "T200 L8 O4 C < B > C F4 C < G#4 A > C4 < F MS GGG MN G4 A# 892.32;1;8;;-19.04 O3 L2 F P2",
    );
    let expected = vec![
        MusicEntity::Tempo(200),
        MusicEntity::Length(8),
        MusicEntity::Octave(4),
        note(Note::C),
        MusicEntity::DecreaseOctave,
        note(Note::B),
        MusicEntity::IncreaseOctave,
        note(Note::C),
        note_with(Note::F, NoteSign::Natural, Some(4), 0),
        note(Note::C),
        MusicEntity::DecreaseOctave,
        note_with(Note::G, NoteSign::Sharp, Some(4), 0),
        note(Note::A),
        MusicEntity::IncreaseOctave,
        note_with(Note::C, NoteSign::Natural, Some(4), 0),
        MusicEntity::DecreaseOctave,
        note(Note::F),
        MusicEntity::Operation(MusicOperation::Articulation(Articulation::Staccato)),
        note(Note::G),
        note(Note::G),
        note(Note::G),
        MusicEntity::Operation(MusicOperation::Articulation(Articulation::Normal)),
        note_with(Note::G, NoteSign::Natural, Some(4), 0),
        note_with(Note::A, NoteSign::Sharp, None, 0),
        effect(Some(892_320), Some(1_000), Some(8), None, Some(Variation::Value(-19_040))),
        MusicEntity::Octave(3),
        MusicEntity::Length(2),
        note(Note::F),
        MusicEntity::Pause(2),
    ];
    assert_eq!(found, expected);
}

#[test]
fn small_and_capital_letters_count_the_same() {
    assert_eq!(entities("t120l4o3n5p8mlmsmnmfmbcdefgab"), entities("T120L4O3N5P8MLMSMNMFMBCDEFGAB"));
    assert_eq!(
        entities("t120l4o3n5p8ml"),
        vec![
            MusicEntity::Tempo(120),
            MusicEntity::Length(4),
            MusicEntity::Octave(3),
            MusicEntity::RawNote(5),
            MusicEntity::Pause(8),
            MusicEntity::Operation(MusicOperation::Articulation(Articulation::Legato)),
        ]
    );
}

#[test]
fn every_note_letter_is_a_note() {
    assert_eq!(
        entities("abcdefg"),
        vec![
            note(Note::A),
            note(Note::B),
            note(Note::C),
            note(Note::D),
            note(Note::E),
            note(Note::F),
            note(Note::G),
        ]
    );
}

#[test]
fn operations_are_read_behind_an_m() {
    assert_eq!(
        entities("MS MN ML MF MB"),
        vec![
            MusicEntity::Operation(MusicOperation::Articulation(Articulation::Staccato)),
            MusicEntity::Operation(MusicOperation::Articulation(Articulation::Normal)),
            MusicEntity::Operation(MusicOperation::Articulation(Articulation::Legato)),
            MusicEntity::Operation(MusicOperation::Foreground),
            MusicEntity::Operation(MusicOperation::Background),
        ]
    );
}

#[test]
fn an_m_before_anything_else_is_passed_over() {
    assert_eq!(entities("M"), vec![]);
    assert_eq!(entities("MX"), vec![]);
    assert_eq!(entities("MC"), vec![note(Note::C)]);
    assert_eq!(entities("M4"), vec![effect(Some(4_000), None, None, None, None)]);
}

#[test]
fn note_signs_lengths_and_dots() {
    assert_eq!(entities("C#"), vec![note_with(Note::C, NoteSign::Sharp, None, 0)]);
    assert_eq!(entities("C+"), vec![note_with(Note::C, NoteSign::Sharp, None, 0)]);
    assert_eq!(entities("C-"), vec![note_with(Note::C, NoteSign::Flat, None, 0)]);
    assert_eq!(entities("C16"), vec![note_with(Note::C, NoteSign::Natural, Some(16), 0)]);
    assert_eq!(entities("C..."), vec![note_with(Note::C, NoteSign::Natural, None, 3)]);
    assert_eq!(entities("d-8."), vec![note_with(Note::D, NoteSign::Flat, Some(8), 1)]);
    assert_eq!(entities("E#4.."), vec![note_with(Note::E, NoteSign::Sharp, Some(4), 2)]);
    assert_eq!(
        entities("C#-"),
        vec![note_with(Note::C, NoteSign::Sharp, None, 0)]
    );
    assert_eq!(
        entities("C.4"),
        vec![
            note_with(Note::C, NoteSign::Natural, None, 1),
            effect(Some(4_000), None, None, None, None),
        ]
    );
}

#[test]
fn a_letter_without_its_number_is_passed_over() {
    assert_eq!(entities("T"), vec![]);
    assert_eq!(entities("T L O N P"), vec![]);
    assert_eq!(entities("TX"), vec![]);
    assert_eq!(entities("T 120"), vec![effect(Some(120_000), None, None, None, None)]);
    assert_eq!(entities("TL4"), vec![MusicEntity::Length(4)]);
}

#[test]
fn what_is_no_command_is_passed_over() {
    assert_eq!(entities("  \t\r\n"), vec![]);
    assert_eq!(entities("!?@[]{}~hijkqrsuvwxyz"), vec![]);
    assert_eq!(entities("...."), vec![]);
    assert_eq!(entities("-+#*"), vec![]);
    assert_eq!(entities("\u{1b}[MF T120\u{e}"), vec![
        MusicEntity::Operation(MusicOperation::Foreground),
        MusicEntity::Tempo(120),
    ]);
    assert_eq!(entities("zzCzz>zz"), vec![note(Note::C), MusicEntity::IncreaseOctave]);
}

#[test]
fn bytes_that_are_no_text_are_passed_over() {
    let music = Music::new(&[0xff, 0x00, 0x43, 0x80, 0xfe, 0x3c]);
    let mut coming = music.iter();
    assert_eq!(coming.next(), Some(note(Note::C)));
    assert_eq!(coming.next(), Some(MusicEntity::DecreaseOctave));
    assert_eq!(coming.next(), None);
    assert_eq!(coming.next(), None);
}

#[test]
fn octave_steps() {
    assert_eq!(
        entities("<<>"),
        vec![MusicEntity::DecreaseOctave, MusicEntity::DecreaseOctave, MusicEntity::IncreaseOctave]
    );
}

#[test]
fn bird_call_fields() {
    assert_eq!(
        entities("1397;4;2;250"),
        vec![effect(Some(1_397_000), Some(4_000), Some(2), Some(250), None)]
    );
    assert_eq!(
        entities("1397;4;2;250 2600;1.2;4;;150"),
        vec![
            effect(Some(1_397_000), Some(4_000), Some(2), Some(250), None),
            effect(Some(2_600_000), Some(1_200), Some(4), None, Some(Variation::Value(150_000))),
        ]
    );
}

#[test]
fn empty_fields_are_none() {
    assert_eq!(entities(";;;900000"), vec![effect(None, None, None, Some(900_000), None)]);
    assert_eq!(entities(";"), vec![effect(None, None, None, None, None)]);
    assert_eq!(entities(";;;;"), vec![effect(None, None, None, None, None)]);
    assert_eq!(entities("57;15"), vec![effect(Some(57_000), Some(15_000), None, None, None)]);
    assert_eq!(entities("5"), vec![effect(Some(5_000), None, None, None, None)]);
    assert_eq!(entities(";7"), vec![effect(None, Some(7_000), None, None, None)]);
}

#[test]
fn a_sixth_field_starts_a_new_effect() {
    assert_eq!(
        entities("1;2;3;4;5;6"),
        vec![
            effect(Some(1_000), Some(2_000), Some(3), Some(4), Some(Variation::Value(5_000))),
            effect(None, Some(6_000), None, None, None),
        ]
    );
}

#[test]
fn variations() {
    assert_eq!(
        entities("100;2;10;5;*"),
        vec![effect(Some(100_000), Some(2_000), Some(10), Some(5), Some(Variation::Random))]
    );
    assert_eq!(
        entities("7000;.12;200;25;-100"),
        vec![effect(Some(7_000_000), Some(120), Some(200), Some(25), Some(Variation::Value(-100_000)))]
    );
    assert_eq!(
        entities("1;1;1;1;+2.5"),
        vec![effect(Some(1_000), Some(1_000), Some(1), Some(1), Some(Variation::Value(2_500)))]
    );
    assert_eq!(
        entities("1;1;1;1;-"),
        vec![effect(Some(1_000), Some(1_000), Some(1), Some(1), None)]
    );
    assert_eq!(
        entities("1;1;1;1;-0"),
        vec![effect(Some(1_000), Some(1_000), Some(1), Some(1), Some(Variation::Value(0)))]
    );
}

#[test]
fn decimal_fractions() {
    assert_eq!(entities("1.5"), vec![effect(Some(1_500), None, None, None, None)]);
    assert_eq!(entities("1.25"), vec![effect(Some(1_250), None, None, None, None)]);
    assert_eq!(entities("1.125"), vec![effect(Some(1_125), None, None, None, None)]);
    assert_eq!(entities("1.12345"), vec![effect(Some(1_123), None, None, None, None)]);
    assert_eq!(entities("1.9999"), vec![effect(Some(1_999), None, None, None, None)]);
    assert_eq!(entities("1."), vec![effect(Some(1_000), None, None, None, None)]);
    assert_eq!(entities("0.001"), vec![effect(Some(1), None, None, None, None)]);
    assert_eq!(entities(";.5"), vec![effect(None, Some(500), None, None, None)]);
    assert_eq!(entities(";."), vec![effect(None, None, None, None, None)]);
    assert_eq!(entities("007"), vec![effect(Some(7_000), None, None, None, None)]);
}

#[test]
fn whole_fields_pass_over_their_fraction() {
    assert_eq!(
        entities("1;1;2.9;3.1"),
        vec![effect(Some(1_000), Some(1_000), Some(2), Some(3), None)]
    );
    assert_eq!(entities("1;1;.9"), vec![effect(Some(1_000), Some(1_000), Some(0), None, None)]);
}

#[test]
fn numbers_too_large_are_held_to_the_largest() {
    assert_eq!(
        entities("T99999999999999999999999999999999"),
        vec![MusicEntity::Tempo(usize::MAX)]
    );
    assert_eq!(
        entities("C99999999999999999999999999999999"),
        vec![note_with(Note::C, NoteSign::Natural, Some(usize::MAX), 0)]
    );
    assert_eq!(
        entities("99999999999999999999999999;99999999999999999999999999;99999999999999999999999999;99999999999999999999999999;-99999999999999999999999999"),
        vec![effect(
            Some(i64::MAX),
            Some(u64::MAX),
            Some(usize::MAX),
            Some(usize::MAX),
            Some(Variation::Value(-i64::MAX)),
        )]
    );
    assert_eq!(
        entities("9223372036854775.807"),
        vec![effect(Some(i64::MAX), None, None, None, None)]
    );
    assert_eq!(
        entities("9223372036854775.806"),
        vec![effect(Some(i64::MAX - 1), None, None, None, None)]
    );
}

#[test]
fn every_reading_starts_anew() {
    let music = Music::from("T120 C D");
    let mut first = music.iter();
    assert_eq!(first.next(), Some(MusicEntity::Tempo(120)));
    assert_eq!(first.next(), Some(note(Note::C)));
    let mut second = music.iter();
    assert_eq!(second.next(), Some(MusicEntity::Tempo(120)));
    assert_eq!(first.next(), Some(note(Note::D)));
    assert_eq!(first.next(), None);
    assert_eq!(second.next(), Some(note(Note::C)));
    assert_eq!(second.next(), Some(note(Note::D)));
    assert_eq!(second.next(), None);
}

#[test]
fn a_piece_keeps_its_text() {
    let music = Music::new(b"t120  c");
    assert_eq!(music.source(), b"t120  c");
    let music = Music::from("t120  c");
    assert_eq!(music.source(), b"t120  c");
}

#[test]
fn capitals_hold_the_same_commands() {
    for text in [
        "t200 l8 o4 c < b > c f4 ms ggg mn g4 a# 892.32;1;8;;-19.04 o3 l2 f p2 mf mb ml n12",
        "tT lL mM cC hello, world; 1;2;3",
    ] {
        assert_eq!(entities(text), entities(&text.to_ascii_uppercase()));
        assert_eq!(entities(text), entities(&text.to_ascii_lowercase()));
    }
}
