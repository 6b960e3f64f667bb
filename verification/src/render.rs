//! From a text to what is sent out: the WAV stream of the piece and its
//! canonical text.

use vstd::prelude::*;

use crate::music::{ascii_chars, Music, MusicEntity};
use crate::parser::entities_from;
use crate::performance::{
    admissible_all, draws_needed, lemma_performance_volume, lemma_performance_without_draws,
    performance, PlayerState, SinkEvent,
};
use crate::player::{after_events, Player, PlayerPassThrough};
use crate::text::text_of;
use crate::wav::{
    lemma_second_export_is_header_only, lemma_sound_shape, lemma_wav_stream_shape, sample_count,
    SquareWave, WavHeader, WaveModel,
};

verus! {

/// What a rendering hands out.
pub struct Rendering {
    /// The piece as a 16-bit mono WAV stream.
    pub wav: Vec<u8>,
    /// The canonical text of the piece as an escape sequence for a terminal.
    pub ansi: Vec<u8>,
    /// The canonical text of the piece.
    pub text: String,
}

/// The 16-bit WAV stream of `entities`, played in order by a new player into
/// an empty square-wave voice at `sample_rate` samples per second, where
/// `draws` holds the steps drawn for each of them.
pub open spec fn rendered_wav(
    sample_rate: nat,
    entities: Seq<MusicEntity>,
    draws: Seq<Seq<int>>,
) -> Seq<u8> {
    SquareWave::model_wav_16(
        after_events::<SquareWave>(
            WaveModel { sample_rate, phase: 0, samples: Seq::empty() },
            performance(PlayerState::initial(), entities, draws).events,
        ),
    )
}

/// Renders the piece that `command` writes, at `sample_rate` samples per
/// second. Every text is rendered: what is no command in it is passed over,
/// and a text without commands gives a stream without samples.
pub fn render(command: &[u8], sample_rate: usize) -> (rendering: Rendering)
    ensures
        rendering.text@ == ascii_chars(text_of(entities_from(command@, 0))),
        rendering.ansi@ == ansi_escapes(text_of(entities_from(command@, 0))),
        exists|draws: Seq<Seq<int>>| #[trigger]
            admissible_all(draws, entities_from(command@, 0)) && rendering.wav@ == rendered_wav(
                sample_rate as nat,
                entities_from(command@, 0),
                draws,
            ),
{
    let music = Music::new(command);
    let mut player = Player::new(SquareWave::new(sample_rate));
    player.play(&music);
    let wav = player.wav_16_bytes();
    Rendering { wav, ansi: create_ansi_escapes(&music), text: music.to_string() }
}

/// `text` inside the escape sequence that plays it on a terminal:
/// `ESC [ M F`, a blank, the text, and the byte 14 that ends the music.
pub open spec fn ansi_escapes(text: Seq<u8>) -> Seq<u8> {
    seq![0x1bu8, 0x5bu8, 0x4du8, 0x46u8, 0x20u8] + text + seq![0x0eu8]
}

/// The canonical text of `music` as an escape sequence for a terminal.
pub fn create_ansi_escapes(music: &Music) -> (bytes: Vec<u8>)
    ensures
        bytes@ == ansi_escapes(text_of(music.entities())),
{
    let mut bytes: Vec<u8> = Vec::new();
    bytes.push(0x1b);
    bytes.push(0x5b);
    bytes.push(0x4d);
    bytes.push(0x46);
    bytes.push(0x20);
    let mut text = music.text();
    bytes.append(&mut text);
    bytes.push(0x0e);
    assert(bytes@ =~= ansi_escapes(text_of(music.entities())));
    bytes
}

/// The samples that a square-wave voice at `sample_rate` makes of `events`.
pub open spec fn samples_of(sample_rate: nat, events: Seq<SinkEvent>) -> nat
    decreases events.len(),
{
    if events.len() == 0 {
        0
    } else {
        samples_of(sample_rate, events.drop_last()) + sample_count(
            sample_rate,
            match events.last() {
                SinkEvent::Tone { ms, .. } => ms as nat,
                SinkEvent::Silence { ms } => ms as nat,
            },
        )
    }
}

/// A voice that is asked `events` gathers the samples of each of them, and
/// keeps its rate.
pub proof fn lemma_samples_gathered(model: WaveModel, events: Seq<SinkEvent>)
    requires
        forall|i: int|
            0 <= i < events.len() ==> (#[trigger] events[i] matches SinkEvent::Tone { volume, .. }
                ==> volume <= 1000),
    ensures
        after_events::<SquareWave>(model, events).sample_rate == model.sample_rate,
        after_events::<SquareWave>(model, events).samples.len() == model.samples.len()
            + samples_of(model.sample_rate, events),
    decreases events.len(),
{
    if events.len() > 0 {
        let before = after_events::<SquareWave>(model, events.drop_last());
        assert forall|i: int| 0 <= i < events.drop_last().len() implies (
        #[trigger] events.drop_last()[i] matches SinkEvent::Tone { volume, .. } ==> volume
            <= 1000) by {
            assert(events.drop_last()[i] == events[i]);
        }
        lemma_samples_gathered(model, events.drop_last());
        match events.last() {
            SinkEvent::Tone { frequency, volume, ms } => {
                lemma_sound_shape(
                    before,
                    frequency as int,
                    volume as int,
                    sample_count(before.sample_rate, ms as nat),
                );
            },
            SinkEvent::Silence { ms } => {
                lemma_sound_shape(before, 0, 0, sample_count(before.sample_rate, ms as nat));
            },
        }
    }
}

/// The stream of a piece is its header and two bytes for every sample of
/// its tones and silences.
pub proof fn lemma_rendered_length(
    sample_rate: nat,
    entities: Seq<MusicEntity>,
    draws: Seq<Seq<int>>,
)
    ensures
        rendered_wav(sample_rate, entities, draws).len() == 44 + 2 * samples_of(
            sample_rate,
            performance(PlayerState::initial(), entities, draws).events,
        ),
{
    let model = WaveModel { sample_rate, phase: 0, samples: Seq::empty() };
    let events = performance(PlayerState::initial(), entities, draws).events;
    lemma_performance_volume(PlayerState::initial(), entities, draws);
    lemma_samples_gathered(model, events);
    let after = after_events::<SquareWave>(model, events);
    lemma_wav_stream_shape(sample_rate, after.samples, 2);
}

/// A piece in which nothing varies at random renders to one stream, whatever
/// was drawn.
pub proof fn lemma_rendering_without_draws(
    sample_rate: nat,
    entities: Seq<MusicEntity>,
    draws: Seq<Seq<int>>,
    others: Seq<Seq<int>>,
)
    requires
        forall|i: int| 0 <= i < entities.len() ==> draws_needed(#[trigger] entities[i]) == 0,
        admissible_all(draws, entities),
        admissible_all(others, entities),
    ensures
        rendered_wav(sample_rate, entities, draws) == rendered_wav(sample_rate, entities, others),
{
    lemma_performance_without_draws(PlayerState::initial(), entities, draws, others);
}

/// A text without commands, the empty text among them, renders to the 44
/// bytes of a header for no data, whatever the sample rate.
pub proof fn lemma_no_commands_render_header(
    source: Seq<u8>,
    sample_rate: nat,
    draws: Seq<Seq<int>>,
)
    requires
        entities_from(source, 0).len() == 0,
    ensures
        rendered_wav(sample_rate, entities_from(source, 0), draws) == WavHeader::spec_new_pcm(
            1,
            sample_rate,
            16,
            0,
        ).spec_bytes(),
        rendered_wav(sample_rate, entities_from(source, 0), draws).len() == 44,
        text_of(entities_from(source, 0)).len() == 0,
        entities_from(Seq::<u8>::empty(), 0).len() == 0,
{
    let model = WaveModel { sample_rate, phase: 0, samples: Seq::empty() };
    lemma_second_export_is_header_only(model);
    assert(SquareWave::model_drained(model) == model);
}

} // verus!
