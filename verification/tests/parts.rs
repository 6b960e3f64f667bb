use ansimusic::ascii::{digit, digit_value, is_digit, is_sign, to_upper};
use ansimusic::frequencies::{frequency, FREQUENCIES, SEMITONES};
use ansimusic::music::{MusicEntity, Note, NoteInfo, NoteSign, Variation};
use ansimusic::parser::read_token;
use ansimusic::performance::{vary, SinkEvent};
use ansimusic::timing::{effect_length, rest_length, share_out};
use ansimusic::{PlayerPassThrough, Transcript};

#[test]
fn classes_of_bytes() {
    for byte in 0..=255u8 {
        assert_eq!(is_digit(byte), byte.is_ascii_digit());
        assert_eq!(to_upper(byte), byte.to_ascii_uppercase());
        assert_eq!(is_sign(byte), byte == b'+' || byte == b'-');
    }
    for value in 0..=9u8 {
        assert_eq!(digit(value), b'0' + value);
        assert_eq!(digit_value(digit(value)), value);
    }
}

#[test]
fn the_table_holds_nine_octaves() {
    assert_eq!(SEMITONES, 108);
    assert_eq!(FREQUENCIES.len(), 108);
    assert_eq!(frequency(0), Some(16_350));
    assert_eq!(frequency(57), Some(440_000));
    assert_eq!(frequency(107), Some(7_902_130));
    assert_eq!(frequency(108), None);
    assert_eq!(frequency(usize::MAX), None);
    for index in 0..108 {
        assert_eq!(frequency(index), Some(FREQUENCIES[index]));
        let exact = 440_000.0 * 2f64.powf((index as f64 - 57.0) / 12.0);
        assert!((FREQUENCIES[index] as f64 - exact).abs() <= 5.0);
        assert_eq!(FREQUENCIES[index] % 10, 0);
    }
    for index in 0..107 {
        assert!(FREQUENCIES[index] < FREQUENCIES[index + 1]);
    }
    for index in 0..96 {
        assert!((FREQUENCIES[index + 12] - 2 * FREQUENCIES[index]).abs() <= 10);
    }
}

#[test]
fn one_cycle_of_an_effect() {
    assert_eq!(effect_length(0), 0);
    assert_eq!(effect_length(1), 1);
    assert_eq!(effect_length(18), 1);
    assert_eq!(effect_length(19), 2);
    assert_eq!(effect_length(1_000), 55);
    assert_eq!(effect_length(4_000), 220);
    assert_eq!(effect_length(18_200), 1000);
    assert_eq!(effect_length(18_201), 1001);
    assert_eq!(
        effect_length(u64::MAX) as u128,
        ((5 * (u64::MAX as u128) + 90) / 91).min(usize::MAX as u128)
    );
}

#[test]
fn the_step_of_a_cycle() {
    assert_eq!(vary(100, None, 7), 100);
    assert_eq!(vary(100, Some(Variation::Value(-30)), 7), 70);
    assert_eq!(vary(100, Some(Variation::Value(30)), 7), 130);
    assert_eq!(vary(100, Some(Variation::Random), 7), 107);
    assert_eq!(vary(100, Some(Variation::Random), -512_000), -511_900);
    assert_eq!(vary(i64::MAX, Some(Variation::Value(1)), 0), i64::MAX);
    assert_eq!(vary(i64::MAX - 1, Some(Variation::Value(1)), 0), i64::MAX);
    assert_eq!(vary(i64::MIN, Some(Variation::Value(-1)), 0), i64::MIN);
    assert_eq!(vary(i64::MIN, Some(Variation::Value(i64::MIN)), 0), i64::MIN);
    assert_eq!(vary(i64::MAX, Some(Variation::Random), i64::MAX), i64::MAX);
    assert_eq!(vary(i64::MIN, Some(Variation::Value(i64::MAX)), 0), -1);
}

#[test]
fn a_token_at_each_place() {
    let text = b"x T12 c#4.";
    assert_eq!(read_token(text, 0), (None, 1));
    assert_eq!(read_token(text, 1), (None, 2));
    assert_eq!(read_token(text, 2), (Some(MusicEntity::Tempo(12)), 5));
    assert_eq!(
        read_token(text, 3),
        (
            Some(MusicEntity::SoundCode(ansimusic::music::SoundCodeInfo {
                frequency: Some(12_000),
                duration: None,
                delay: None,
                cycles: None,
                variation: None,
            })),
            5
        )
    );
    assert_eq!(read_token(text, 5), (None, 6));
    assert_eq!(
        read_token(text, 6),
        (
            Some(MusicEntity::Note {
                note: Note::C,
                info: NoteInfo { sign: NoteSign::Sharp, length: Some(4), dots: 1 },
            }),
            10
        )
    );
    assert_eq!(read_token(text, 7), (None, 8));
    assert_eq!(read_token(text, 9), (None, 10));
}

#[test]
fn a_transcript_keeps_what_it_is_asked() {
    let mut transcript = Transcript::new();
    assert_eq!(transcript.events(), &[]);
    transcript.play_frequency(-5, 1000, 3);
    transcript.pause(9);
    transcript.play_frequency(440_000, 0, 0);
    assert_eq!(transcript.events(), &[
        SinkEvent::Tone { frequency: -5, volume: 1000, ms: 3 },
        SinkEvent::Silence { ms: 9 },
        SinkEvent::Tone { frequency: 440_000, volume: 0, ms: 0 },
    ]);
    assert_eq!(transcript.wav_16_bytes(), Vec::<u8>::new());
    assert_eq!(transcript.events(), &[]);
    transcript.pause(1);
    assert_eq!(transcript.wav_8_bytes(), Vec::<u8>::new());
    assert_eq!(transcript.events(), &[]);
}

#[test]
fn shares_are_rounded_up() {
    assert_eq!(share_out(180_000, 120, 4), 375);
    assert_eq!(share_out(60_000, 120, 4), 125);
    assert_eq!(share_out(540_000, 120, 4), 1125);
    assert_eq!(share_out(180_000, 7, 3), 8572);
    assert_eq!(share_out(180_000, 0, 3), 0);
    assert_eq!(share_out(180_000, 7, 0), 0);
    assert_eq!(share_out(0, 7, 3), 0);
    assert_eq!(share_out(1, usize::MAX, usize::MAX), 1);
    assert_eq!(share_out(u32::MAX, 1, 1), u32::MAX);
    for amount in [1u32, 7, 1000, 240_000, 720_000] {
        for tempo in 1usize..40 {
            for length in 1usize..40 {
                let exact = (amount as usize + tempo * length - 1) / (tempo * length);
                assert_eq!(share_out(amount, tempo, length) as usize, exact);
            }
        }
    }
}

#[test]
fn rests_are_cut_off() {
    assert_eq!(rest_length(120, 4), 500);
    assert_eq!(rest_length(7, 3), 11_428);
    assert_eq!(rest_length(0, 3), 0);
    assert_eq!(rest_length(7, 0), 0);
    assert_eq!(rest_length(usize::MAX, usize::MAX), 0);
    assert_eq!(rest_length(1, 1), 240_000);
    for tempo in 1usize..60 {
        for denominator in 1usize..60 {
            assert_eq!(rest_length(tempo, denominator), 240_000 / (tempo * denominator));
        }
    }
}
