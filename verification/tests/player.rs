use ansimusic::music::{
    Articulation, MusicEntity, MusicOperation, Note, NoteInfo, NoteSign, SoundCodeInfo, Variation,
};
use ansimusic::performance::SinkEvent;
use ansimusic::{Music, Player, SquareWave, Transcript};

fn tone(frequency: i64, ms: usize) -> SinkEvent {
    SinkEvent::Tone { frequency, volume: 200, ms }
}

fn silence(ms: usize) -> SinkEvent {
    SinkEvent::Silence { ms }
}

fn asked(text: &str) -> Vec<SinkEvent> {
    let mut player = Player::with_seed(Transcript::new(), 7);
    player.play(&Music::from(text));
    player.pass_through().events().to_vec()
}

fn lengths(text: &str, length: Option<usize>, dots: usize) -> (usize, usize) {
    let mut player = Player::new(Transcript::new());
    player.play(&Music::from(text));
    player.calculate_length(length, dots)
}

#[test]
fn quarter_note_at_120() {
    let (sounding, silent) = lengths("T120", Some(4), 0);
    assert_eq!(sounding, 375);
    assert_eq!(silent, 125);
    assert_eq!(sounding + silent, 500);
    assert_eq!(lengths("T120 L4", None, 0), (375, 125));
}

#[test]
fn a_new_player_plays_whole_notes_at_120() {
    assert_eq!(lengths("", None, 0), (1500, 500));
    assert_eq!(asked("C"), vec![tone(261_630, 1500), silence(500)]);
}

#[test]
fn articulation_shares_out_the_note() {
    assert_eq!(lengths("T120 L4 ML", None, 0), (438, 63));
    assert_eq!(lengths("T120 L4 MN", None, 0), (375, 125));
    assert_eq!(lengths("T120 L4 MS", None, 0), (500, 0));
}

#[test]
fn lengths_are_rounded_up() {
    assert_eq!(lengths("T7 L3", None, 0), (8572, 2858));
    assert_eq!(lengths("T7 L3 ML", None, 0), (10000, 1429));
    assert_eq!(lengths("T7 L3 MS", None, 0), (11429, 0));
    assert_eq!(lengths("T9 L1", None, 0), (20000, 6667));
}

#[test]
fn the_first_dot_adds_a_half_and_the_others_half_a_millisecond() {
    assert_eq!(lengths("T120", Some(4), 1), (563, 125));
    assert_eq!(lengths("T120", Some(4), 2), (563, 125));
    assert_eq!(lengths("T120", Some(4), 3), (564, 125));
    assert_eq!(lengths("T120", Some(4), 4), (564, 125));
    assert_eq!(lengths("T120", Some(4), 5), (565, 125));
    assert_eq!(lengths("T120 MS", Some(4), 1), (750, 0));
    assert_eq!(lengths("T120 ML", Some(4), 1), (657, 63));
    assert_eq!(lengths("T120", Some(4), 1001), (563 + 500, 125));
}

#[test]
fn a_tempo_or_a_length_of_zero_leaves_only_the_dots() {
    assert_eq!(lengths("T0", None, 0), (0, 0));
    assert_eq!(lengths("L0", None, 0), (0, 0));
    assert_eq!(lengths("T120", Some(0), 0), (0, 0));
    assert_eq!(lengths("T0", None, 1), (0, 0));
    assert_eq!(lengths("T0", None, 2), (1, 0));
    assert_eq!(lengths("T0", None, 3), (1, 0));
    assert_eq!(lengths("T0", None, 4), (2, 0));
    assert_eq!(asked("T0 C"), vec![tone(261_630, 0), silence(0)]);
}

#[test]
fn very_short_notes() {
    assert_eq!(lengths("T1000 L1000", None, 0), (1, 1));
    assert_eq!(lengths("T1000 L1000 MS", None, 0), (1, 0));
    assert_eq!(lengths("T1000 L1000", None, 1), (1, 1));
    assert_eq!(lengths("T1000 L1000", None, 2), (1, 1));
    assert_eq!(lengths("T1000 L1000", None, 3), (2, 1));
    assert_eq!(lengths("T720000 L1 MS", None, 0), (1, 0));
    assert_eq!(lengths("T720001 L1 MS", None, 0), (1, 0));
    assert_eq!(lengths("T720000 L1 MS", None, 2), (1, 0));
    assert_eq!(lengths("T720000 L1 MS", None, 3), (2, 0));
    assert_eq!(lengths("T240000 L1 MS", None, 0), (1, 0));
    assert_eq!(lengths("T239999 L1 MS", None, 0), (2, 0));
    let most = format!("T{} L{}", usize::MAX, usize::MAX);
    assert_eq!(lengths(&most, None, 0), (1, 1));
    assert_eq!(lengths(&most, None, usize::MAX), ((usize::MAX - 1) / 2 + 1, 1));
}

#[test]
fn very_long_notes() {
    assert_eq!(lengths("T1 L1 MS", None, 0), (240_000, 0));
    assert_eq!(lengths("T1 L1", None, 0), (180_000, 60_000));
    assert_eq!(lengths("T1 L1 MS", None, 1), (360_000, 0));
    assert_eq!(lengths("T1 L1 MS", None, usize::MAX), (360_000 + (usize::MAX - 1) / 2, 0));
}

#[test]
fn notes_follow_the_octave() {
    assert_eq!(asked("T120 L4 C"), vec![tone(261_630, 375), silence(125)]);
    assert_eq!(asked("T120 L4 A"), vec![tone(440_000, 375), silence(125)]);
    assert_eq!(asked("T120 L4 O0 C"), vec![tone(16_350, 375), silence(125)]);
    assert_eq!(asked("T120 L4 O8 B"), vec![tone(7_902_130, 375), silence(125)]);
    assert_eq!(asked("T120 L4 > C"), vec![tone(523_250, 375), silence(125)]);
    assert_eq!(asked("T120 L4 < B"), vec![tone(246_940, 375), silence(125)]);
    assert_eq!(asked("T120 L4 C# D- E+"), vec![
        tone(277_180, 375),
        silence(125),
        tone(277_180, 375),
        silence(125),
        tone(349_230, 375),
        silence(125),
    ]);
    assert_eq!(asked("T120 L4 O1 C-"), vec![tone(30_870, 375), silence(125)]);
}

#[test]
fn a_note_has_its_own_length() {
    assert_eq!(asked("T120 L4 C8. D"), vec![
        tone(261_630, 282),
        silence(63),
        tone(293_660, 375),
        silence(125),
    ]);
}

#[test]
fn notes_outside_the_table_are_not_played() {
    assert_eq!(asked("O8 B#"), vec![]);
    assert_eq!(asked("O9 C"), vec![]);
    assert_eq!(asked("O0 C-"), vec![]);
    assert_eq!(asked("O99999999999999999999999 C"), vec![]);
    assert_eq!(asked("O1537228672809129301 C"), vec![]);
    assert_eq!(asked("O1537228672809129302 G"), vec![]);
    assert_eq!(asked("N108"), vec![]);
    assert_eq!(asked("N99999999999999999999999"), vec![]);
}

#[test]
fn flat_of_the_lowest_note_has_no_frequency() {
    let mut player = Player::new(Transcript::new());
    player.play_entity(MusicEntity::Octave(0));
    assert_eq!(player.get_frequency(Note::C, NoteSign::Flat), None);
    assert_eq!(player.get_frequency(Note::C, NoteSign::Natural), Some(16_350));
    assert_eq!(player.get_frequency(Note::D, NoteSign::Flat), Some(17_320));
    player.play_entity(MusicEntity::Note {
        note: Note::C,
        info: NoteInfo { sign: NoteSign::Flat, length: None, dots: 0 },
    });
    assert_eq!(player.pass_through().events(), &[]);
}

#[test]
fn the_octave_stops_at_its_ends() {
    let mut player = Player::new(Transcript::new());
    player.play_entity(MusicEntity::Octave(0));
    player.play_entity(MusicEntity::DecreaseOctave);
    assert_eq!(player.get_frequency(Note::C, NoteSign::Natural), Some(16_350));
    player.play_entity(MusicEntity::DecreaseOctave);
    player.play_entity(MusicEntity::IncreaseOctave);
    assert_eq!(player.get_frequency(Note::C, NoteSign::Natural), Some(32_700));
    player.play_entity(MusicEntity::Octave(usize::MAX));
    player.play_entity(MusicEntity::IncreaseOctave);
    assert_eq!(player.get_frequency(Note::C, NoteSign::Natural), None);
    player.play_entity(MusicEntity::DecreaseOctave);
    assert_eq!(player.get_frequency(Note::C, NoteSign::Natural), None);
    assert_eq!(asked("<<<<< C"), vec![tone(16_350, 1500), silence(500)]);
    assert_eq!(asked("<<<<<< C"), vec![tone(16_350, 1500), silence(500)]);
    assert_eq!(asked("<<<<<< > C"), vec![tone(32_700, 1500), silence(500)]);
}

#[test]
fn frequencies_of_the_octave_in_use() {
    let player = Player::new(Transcript::new());
    assert_eq!(player.get_frequency(Note::C, NoteSign::Natural), Some(261_630));
    assert_eq!(player.get_frequency(Note::D, NoteSign::Natural), Some(293_660));
    assert_eq!(player.get_frequency(Note::E, NoteSign::Natural), Some(329_630));
    assert_eq!(player.get_frequency(Note::F, NoteSign::Natural), Some(349_230));
    assert_eq!(player.get_frequency(Note::G, NoteSign::Natural), Some(392_000));
    assert_eq!(player.get_frequency(Note::A, NoteSign::Natural), Some(440_000));
    assert_eq!(player.get_frequency(Note::B, NoteSign::Natural), Some(493_880));
    assert_eq!(player.get_frequency(Note::A, NoteSign::Sharp), Some(466_160));
    assert_eq!(player.get_frequency(Note::A, NoteSign::Flat), Some(415_300));
    assert_eq!(player.get_frequency(Note::C, NoteSign::Flat), Some(246_940));
}

#[test]
fn raw_notes_go_by_the_table() {
    assert_eq!(asked("N57"), vec![tone(440_000, 1500), silence(500)]);
    assert_eq!(asked("N0"), vec![tone(16_350, 1500), silence(500)]);
    assert_eq!(asked("N107"), vec![tone(7_902_130, 1500), silence(500)]);
    assert_eq!(asked("O0 T120 L4 ML N57"), vec![tone(440_000, 438), silence(63)]);
}

#[test]
fn rests_are_rounded_down() {
    assert_eq!(asked("T120 P4"), vec![silence(500)]);
    assert_eq!(asked("P2"), vec![silence(1000)]);
    assert_eq!(asked("T7 P3"), vec![silence(11_428)]);
    assert_eq!(asked("T240000 P1"), vec![silence(1)]);
    assert_eq!(asked("T240001 P1"), vec![silence(0)]);
    assert_eq!(asked("P0"), vec![silence(0)]);
    assert_eq!(asked("T0 P4"), vec![silence(0)]);
    assert_eq!(asked("T99999999999999999999 P99999999999999999999"), vec![silence(0)]);
    assert_eq!(asked("L4 ML P4"), vec![silence(500)]);
}

#[test]
fn directives_play_nothing() {
    assert_eq!(asked("T200 L8 O3 < > MS MN ML MF MB"), vec![]);
}

#[test]
fn other_operations_change_nothing() {
    let mut player = Player::new(Transcript::new());
    player.play_entity(MusicEntity::Operation(MusicOperation::Articulation(Articulation::Legato)));
    let before = player.calculate_length(Some(4), 0);
    player.play_entity(MusicEntity::Operation(MusicOperation::Foreground));
    player.play_entity(MusicEntity::Operation(MusicOperation::Background));
    assert_eq!(player.calculate_length(Some(4), 0), before);
    assert_eq!(before, (438, 63));
    assert_eq!(player.get_frequency(Note::A, NoteSign::Natural), Some(440_000));
    assert_eq!(player.pass_through().events(), &[]);
}

#[test]
fn bird_call_is_played_cycle_by_cycle() {
    let events = asked("1397;4;2;250");
    assert_eq!(events.len(), 251);
    for event in &events[..250] {
        assert_eq!(*event, tone(1_397_000, 220));
    }
    assert_eq!(events[250], silence(2));
}

#[test]
fn effect_lengths_are_rounded_up() {
    assert_eq!(asked("1;1"), vec![tone(1_000, 55), silence(0)]);
    assert_eq!(asked("2600;1.2;4;;150"), vec![tone(2_600_000, 66), silence(4)]);
    assert_eq!(asked("57;15 37;25"), vec![
        tone(57_000, 825),
        silence(0),
        tone(37_000, 1374),
        silence(0),
    ]);
    assert_eq!(asked("1;18.2"), vec![tone(1_000, 1000), silence(0)]);
    assert_eq!(asked("1;18.201"), vec![tone(1_000, 1001), silence(0)]);
    assert_eq!(asked("1;0"), vec![tone(1_000, 0), silence(0)]);
    assert_eq!(asked("1;0.001"), vec![tone(1_000, 1), silence(0)]);
}

#[test]
fn an_effect_without_frequency_or_duration_is_not_played() {
    assert_eq!(asked(";;;900000"), vec![]);
    assert_eq!(asked("440"), vec![]);
    assert_eq!(asked(";4;2;3;*"), vec![]);
    assert_eq!(asked("440;;2;3;5"), vec![]);
}

#[test]
fn no_cycles_play_the_tone_once() {
    assert_eq!(asked("440;4;10;0"), vec![tone(440_000, 220), silence(10)]);
    assert_eq!(asked("440;4;10;0;100"), vec![tone(440_000, 220), silence(10)]);
    assert_eq!(asked("440;4;10;0;*"), vec![tone(440_000, 220), silence(10)]);
    assert_eq!(asked("440;4;;0"), vec![tone(440_000, 220), silence(0)]);
}

#[test]
fn a_fixed_variation_moves_the_frequency_each_cycle() {
    let events = asked("7000;.12;200;25;-100");
    assert_eq!(events.len(), 26);
    for cycle in 0..25 {
        assert_eq!(events[cycle], tone(7_000_000 - 100_000 * cycle as i64, 7));
    }
    assert_eq!(events[25], silence(200));
    assert_eq!(asked("100;1;;3;50.5"), vec![
        tone(100_000, 55),
        tone(150_500, 55),
        tone(201_000, 55),
        silence(0),
    ]);
    assert_eq!(asked("100;1;;3;-100"), vec![
        tone(100_000, 55),
        tone(0, 55),
        tone(-100_000, 55),
        silence(0),
    ]);
    assert_eq!(asked("100;1;;3"), vec![
        tone(100_000, 55),
        tone(100_000, 55),
        tone(100_000, 55),
        silence(0),
    ]);
}

#[test]
fn the_frequency_is_held_to_what_can_be_counted() {
    let mut player = Player::new(Transcript::new());
    player.play_entity(MusicEntity::SoundCode(SoundCodeInfo {
        frequency: Some(i64::MAX - 1),
        duration: Some(1_000),
        delay: None,
        cycles: Some(3),
        variation: Some(Variation::Value(i64::MAX)),
    }));
    player.play_entity(MusicEntity::SoundCode(SoundCodeInfo {
        frequency: Some(i64::MIN + 1),
        duration: Some(u64::MAX),
        delay: Some(usize::MAX),
        cycles: Some(3),
        variation: Some(Variation::Value(i64::MIN)),
    }));
    let long = ((5 * (u64::MAX as u128) + 90) / 91).min(usize::MAX as u128) as usize;
    assert_eq!(player.pass_through().events(), &[
        tone(i64::MAX - 1, 55),
        tone(i64::MAX, 55),
        tone(i64::MAX, 55),
        silence(0),
        tone(i64::MIN + 1, long),
        tone(i64::MIN, long),
        tone(i64::MIN, long),
        silence(usize::MAX),
    ]);
}

#[test]
fn a_random_variation_steps_within_its_range() {
    let events = asked("100;2;10;200;*");
    assert_eq!(events.len(), 201);
    assert_eq!(events[0], tone(100_000, 110));
    assert_eq!(events[200], silence(10));
    let mut steps = Vec::new();
    for cycle in 1..200 {
        match (events[cycle - 1], events[cycle]) {
            (
                SinkEvent::Tone { frequency: before, .. },
                SinkEvent::Tone { frequency: after, volume: 200, ms: 110 },
            ) => {
                assert!(-512_000 <= after - before && after - before <= 512_000);
                steps.push(after - before);
            },
            _ => panic!("cycle {} is no tone", cycle),
        }
    }
    assert!(steps.iter().any(|step| *step != steps[0]));
    assert!(steps.iter().any(|step| *step != -512_000));
    assert!(steps.iter().any(|step| *step != 512_000));
    assert!(steps.iter().any(|step| *step < 0));
    assert!(steps.iter().any(|step| *step > 0));
}

#[test]
fn the_same_seed_draws_the_same_steps() {
    let music = Music::from("100;2;10;50;* C 440;1;;20;*");
    let mut first = Player::with_seed(Transcript::new(), 42);
    let mut second = Player::with_seed(Transcript::new(), 42);
    let mut third = Player::with_seed(Transcript::new(), 43);
    first.play(&music);
    second.play(&music);
    third.play(&music);
    assert_eq!(first.pass_through().events(), second.pass_through().events());
    assert_ne!(first.pass_through().events(), third.pass_through().events());
    let mut one = Player::with_seed(SquareWave::new(8000), 42);
    let mut other = Player::with_seed(SquareWave::new(8000), 42);
    one.play(&music);
    other.play(&music);
    assert_eq!(one.wav_16_bytes(), other.wav_16_bytes());
}

#[test]
fn a_piece_without_random_variation_is_played_the_same_every_time() {
    let music = Music::from("T200 L8 O4 C < B > C F4 7000;.12;200;25;-100 P2");
    let mut first = Player::new(Transcript::new());
    let mut second = Player::new(Transcript::new());
    first.play(&music);
    second.play(&music);
    assert_eq!(first.pass_through().events(), second.pass_through().events());
}

#[test]
fn what_a_player_remembers_lasts_from_piece_to_piece() {
    let mut player = Player::new(Transcript::new());
    player.play(&Music::from("T120 L4 O5 ML"));
    player.play(&Music::from("C"));
    assert_eq!(player.pass_through().events(), &[tone(523_250, 438), silence(63)]);
    assert_eq!(Player::new(Transcript::new()).calculate_length(None, 0), (1500, 500));
}

#[test]
fn a_transcript_exports_nothing_and_is_cleared() {
    let mut player = Player::new(Transcript::new());
    player.play(&Music::from("C D"));
    assert_eq!(player.pass_through().events().len(), 4);
    assert_eq!(player.wav_16_bytes(), Vec::<u8>::new());
    assert_eq!(player.pass_through().events().len(), 0);
    player.play(&Music::from("C"));
    assert_eq!(player.wav_8_bytes(), Vec::<u8>::new());
    assert_eq!(player.pass_through().events().len(), 0);
}

#[test]
fn a_player_hands_out_what_its_sink_gathered() {
    let mut player = Player::new(SquareWave::new(1000));
    player.play(&Music::from("T120 L4 C"));
    let wav = player.wav_16_bytes();
    assert_eq!(wav.len(), 44 + 2 * 500);
    assert_eq!(player.wav_16_bytes().len(), 44);
    player.play(&Music::from("T120 L4 C"));
    assert_eq!(player.wav_8_bytes().len(), 44 + 500);
    assert_eq!(player.wav_8_bytes().len(), 44);
}
