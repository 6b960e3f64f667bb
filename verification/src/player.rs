//! The interpreter of a piece and the sink it drives.

use rand::rngs::StdRng;
use rand::{Rng, SeedableRng};
use vstd::prelude::*;

use crate::frequencies::frequency;
use crate::music::{
    Articulation, Music, MusicEntity, MusicOperation, Note, NoteInfo, NoteSign, SoundCodeInfo,
    Variation,
};
use crate::performance::{
    admissible, admissible_all, draws_needed, effect_tones, entity_events,
    lemma_swept_frequency_prefix, next_state, note_events, note_frequency, performance,
    sound_code_events, step_taken, swept_frequency, variation_step, vary, PlayerState, SinkEvent,
    NOTE_VOLUME, RANDOM_STEP,
};
use crate::timing::{effect_length, length_or, rest_length, share_out, silent_ms, sounding_ms};

verus! {

/// An audio sink: it takes timed tones and silences and hands out what it has
/// gathered as a WAV byte stream, which empties it.
///
/// Frequencies are in millihertz and may be negative; volumes are in
/// thousandths of full scale.
pub trait PlayerPassThrough {
    /// What a sink holds, as a mathematical value.
    type Model;

    /// The sink's present value.
    spec fn model(&self) -> Self::Model;

    /// The sink after a tone.
    spec fn model_play(model: Self::Model, frequency: int, volume: int, ms: nat) -> Self::Model;

    /// The sink after a silence.
    spec fn model_pause(model: Self::Model, ms: nat) -> Self::Model;

    /// The 16-bit WAV stream of what the sink holds.
    spec fn model_wav_16(model: Self::Model) -> Seq<u8>;

    /// The 8-bit WAV stream of what the sink holds.
    spec fn model_wav_8(model: Self::Model) -> Seq<u8>;

    /// The sink after it has handed out a stream.
    spec fn model_drained(model: Self::Model) -> Self::Model;

    /// Takes a tone of `frequency` millihertz at `volume` thousandths of
    /// full scale for `ms` milliseconds.
    fn play_frequency(&mut self, frequency: i64, volume: u16, ms: usize)
        requires
            volume <= 1000,
        ensures
            final(self).model() == Self::model_play(
                old(self).model(),
                frequency as int,
                volume as int,
                ms as nat,
            ),
    ;

    /// Takes a silence of `ms` milliseconds.
    fn pause(&mut self, ms: usize)
        ensures
            final(self).model() == Self::model_pause(old(self).model(), ms as nat),
    ;

    /// Hands out what was gathered as a WAV stream of 16 bits per sample.
    fn wav_16_bytes(&mut self) -> (bytes: Vec<u8>)
        ensures
            bytes@ == Self::model_wav_16(old(self).model()),
            final(self).model() == Self::model_drained(old(self).model()),
    ;

    /// Hands out what was gathered as a WAV stream of 8 bits per sample.
    fn wav_8_bytes(&mut self) -> (bytes: Vec<u8>)
        ensures
            bytes@ == Self::model_wav_8(old(self).model()),
            final(self).model() == Self::model_drained(old(self).model()),
    ;
}

/// The sink `model` after one request.
pub open spec fn after_event<T: PlayerPassThrough>(model: T::Model, event: SinkEvent) -> T::Model {
    match event {
        SinkEvent::Tone { frequency, volume, ms } => T::model_play(
            model,
            frequency as int,
            volume as int,
            ms as nat,
        ),
        SinkEvent::Silence { ms } => T::model_pause(model, ms as nat),
    }
}

/// The sink `model` after the requests `events`, first to last.
pub open spec fn after_events<T: PlayerPassThrough>(
    model: T::Model,
    events: Seq<SinkEvent>,
) -> T::Model
    decreases events.len(),
{
    if events.len() == 0 {
        model
    } else {
        after_event::<T>(after_events::<T>(model, events.drop_last()), events.last())
    }
}

/// The random number generator that a player draws its steps from.
#[verifier::external_type_specification]
#[verifier::external_body]
pub struct ExStdRng(StdRng);

/// `rand::random`: a number that differs from call to call. Nothing is
/// claimed of it.
#[verifier::external_body]
fn random_seed() -> u64 {
    rand::random()
}

/// `SeedableRng::seed_from_u64` for `StdRng`: a generator started from
/// `seed`. Nothing is claimed of what it will draw.
#[verifier::external_body]
fn seeded_generator(seed: u64) -> StdRng {
    StdRng::seed_from_u64(seed)
}

/// `Rng::gen_range` on the closed range from `low` to `high`, which must not
/// be empty: the number drawn lies in the range. Which one it is differs
/// from call to call.
#[verifier::external_body]
fn draw_between(generator: &mut StdRng, low: i64, high: i64) -> (drawn: i64)
    requires
        low <= high,
    ensures
        low <= drawn <= high,
{
    generator.gen_range(low..=high)
}

/// Requests made one run after another come to the same as all of them made
/// in one run.
pub proof fn lemma_after_events_concat<T: PlayerPassThrough>(
    model: T::Model,
    first: Seq<SinkEvent>,
    second: Seq<SinkEvent>,
)
    ensures
        after_events::<T>(model, first + second) == after_events::<T>(
            after_events::<T>(model, first),
            second,
        ),
    decreases second.len(),
{
    if second.len() == 0 {
        assert(first + second =~= first);
    } else {
        lemma_after_events_concat::<T>(model, first, second.drop_last());
        assert((first + second).drop_last() =~= first + second.drop_last());
        assert((first + second).last() == second.last());
    }
}

/// One more request comes after those made before.
pub proof fn lemma_after_events_push<T: PlayerPassThrough>(
    model: T::Model,
    events: Seq<SinkEvent>,
    event: SinkEvent,
)
    ensures
        after_events::<T>(model, events.push(event)) == after_event::<T>(
            after_events::<T>(model, events),
            event,
        ),
{
    assert(events.push(event).drop_last() =~= events);
    assert(events.push(event).last() == event);
}

/// The interpreter of a piece. It remembers tempo, length, octave and
/// articulation from one command to the next and turns each command into
/// requests to its sink.
pub struct Player<T: PlayerPassThrough> {
    tempo: usize,
    length: usize,
    octave: usize,
    articulation: Articulation,
    rng: StdRng,
    pass_through: T,
}

impl<T: PlayerPassThrough> Player<T> {
    /// What the player remembers.
    pub closed spec fn state(&self) -> PlayerState {
        PlayerState {
            tempo: self.tempo,
            length: self.length,
            octave: self.octave,
            articulation: self.articulation,
        }
    }

    /// What the player's sink holds.
    pub closed spec fn sink(&self) -> T::Model {
        self.pass_through.model()
    }

    /// The player's sink.
    pub fn pass_through(&self) -> (sink: &T)
        ensures
            sink.model() == self.sink(),
    {
        &self.pass_through
    }

    /// A player in its initial state that draws the steps of random
    /// variations from a generator seeded anew.
    pub fn new(pass_through: T) -> (player: Player<T>)
        ensures
            player.state() == PlayerState::initial(),
            player.sink() == pass_through.model(),
    {
        Player::with_seed(pass_through, random_seed())
    }

    /// A player in its initial state that draws the steps of random
    /// variations from a generator seeded with `seed`.
    pub fn with_seed(pass_through: T, seed: u64) -> (player: Player<T>)
        ensures
            player.state() == PlayerState::initial(),
            player.sink() == pass_through.model(),
    {
        Player {
            tempo: 120,
            length: 1,
            octave: 4,
            articulation: Articulation::Normal,
            rng: seeded_generator(seed),
            pass_through,
        }
    }

    /// The frequency of `note` in the present octave.
    pub fn get_frequency(&self, note: Note, sign: NoteSign) -> (found: Option<i64>)
        ensures
            found == note_frequency(self.state().octave as nat, note, sign),
    {
        let offset: usize = match note {
            Note::A => 9,
            Note::B => 11,
            Note::C => 0,
            Note::D => 2,
            Note::E => 4,
            Note::F => 5,
            Note::G => 7,
        };
        let base = match self.octave.checked_mul(12) {
            Some(base) => base,
            None => { return None; },
        };
        let index = match base.checked_add(offset) {
            Some(index) => index,
            None => { return None; },
        };
        match sign {
            NoteSign::Sharp => match index.checked_add(1) {
                Some(raised) => frequency(raised),
                None => None,
            },
            NoteSign::Natural => frequency(index),
            NoteSign::Flat => if index == 0 {
                None
            } else {
                frequency(index - 1)
            },
        }
    }

    /// The milliseconds for which a note of `dots` dots sounds, and those of
    /// the silence that ends it. A note without a length of its own has the
    /// player's.
    pub fn calculate_length(&self, length: Option<usize>, dots: usize) -> (lengths: (usize, usize))
        ensures
            lengths.0 == sounding_ms(
                self.state().tempo as nat,
                length_or(length, self.state().length) as nat,
                self.state().articulation,
                dots as nat,
            ),
            lengths.1 == silent_ms(
                self.state().tempo as nat,
                length_or(length, self.state().length) as nat,
                self.state().articulation,
            ),
    {
        let length = match length {
            Some(own) => own,
            None => self.length,
        };
        let eighths: u32 = match self.articulation {
            Articulation::Legato => 7,
            Articulation::Normal => 6,
            Articulation::Staccato => 8,
        };
        let silent = share_out(30_000 * (8 - eighths), self.tempo, length);
        if dots == 0 {
            let sounding = share_out(30_000 * eighths, self.tempo, length);
            (sounding as usize, silent as usize)
        } else {
            let doubled = share_out(90_000 * eighths, self.tempo, length);
            let sounding: u128 = (doubled as u128 + dots as u128) / 2;
            (sounding as usize, silent as usize)
        }
    }

    /// Plays a sound effect: see `sound_code_events`.
    fn play_sound_code(&mut self, info: SoundCodeInfo)
        ensures
            final(self).state() == old(self).state(),
            exists|draws: Seq<int>|
                admissible(draws, MusicEntity::SoundCode(info)) && final(self).sink()
                    == after_events::<T>(old(self).sink(), sound_code_events(info, draws)),
    {
        let ghost sink = self.sink();
        let ghost state = self.state();
        let (start, duration) = match (info.frequency, info.duration) {
            (Some(start), Some(duration)) => (start, duration),
            _ => {
                assert(admissible(Seq::<int>::empty(), MusicEntity::SoundCode(info)));
                return ;
            },
        };
        let play_ms = effect_length(duration);
        let pause_ms = match info.delay {
            Some(delay) => delay,
            None => 0,
        };
        let cycles = match info.cycles {
            Some(cycles) => cycles,
            None => 1,
        };
        let ghost mut draws = Seq::<int>::empty();
        if cycles == 0 {
            self.pass_through.play_frequency(start, NOTE_VOLUME, play_ms);
            proof {
                let tone = SinkEvent::Tone { frequency: start, volume: NOTE_VOLUME, ms: play_ms };
                assert(effect_tones(start, info.variation, draws, play_ms, 1) =~= seq![tone]);
                assert(seq![tone] =~= Seq::<SinkEvent>::empty().push(tone));
                lemma_after_events_push::<T>(sink, Seq::empty(), tone);
            }
        } else {
            let mut frequency = start;
            let mut cycle: usize = 0;
            assert(effect_tones(start, info.variation, draws, play_ms, 0) =~= Seq::empty());
            while cycle < cycles
                invariant
                    cycle <= cycles,
                    self.state() == state,
                    self.sink() == after_events::<T>(
                        sink,
                        effect_tones(start, info.variation, draws, play_ms, cycle as nat),
                    ),
                    frequency == swept_frequency(start, info.variation, draws, cycle as nat),
                    draws.len() == if info.variation == Some(Variation::Random) {
                        cycle as nat
                    } else {
                        0nat
                    },
                    forall|i: int|
                        0 <= i < draws.len() ==> -RANDOM_STEP <= #[trigger] draws[i] <= RANDOM_STEP,
                decreases cycles - cycle,
            {
                let ghost tones = effect_tones(start, info.variation, draws, play_ms, cycle as nat);
                let ghost earlier = draws;
                self.pass_through.play_frequency(frequency, NOTE_VOLUME, play_ms);
                let drawn: i64 = match info.variation {
                    Some(Variation::Random) => {
                        let drawn = draw_between(&mut self.rng, -RANDOM_STEP, RANDOM_STEP);
                        proof {
                            draws = draws.push(drawn as int);
                        }
                        drawn
                    },
                    _ => 0,
                };
                proof {
                    let tone = SinkEvent::Tone { frequency, volume: NOTE_VOLUME, ms: play_ms };
                    lemma_after_events_push::<T>(sink, tones, tone);
                    assert forall|i: nat| i <= cycle implies swept_frequency(
                        start,
                        info.variation,
                        earlier,
                        i,
                    ) == swept_frequency(start, info.variation, draws, i) by {
                        lemma_swept_frequency_prefix(start, info.variation, earlier, draws, i);
                    }
                    assert(effect_tones(start, info.variation, draws, play_ms, (cycle + 1) as nat)
                        =~= tones.push(tone));
                    assert(variation_step(info.variation, draws, cycle as int) == step_taken(
                        info.variation,
                        drawn as int,
                    ));
                }
                frequency = vary(frequency, info.variation, drawn);
                cycle = cycle + 1;
            }
        }
        let ghost tones = effect_tones(start, info.variation, draws, play_ms, if cycles == 0 {
            1nat
        } else {
            cycles as nat
        });
        self.pass_through.pause(pause_ms);
        proof {
            lemma_after_events_push::<T>(sink, tones, SinkEvent::Silence { ms: pause_ms });
            assert(admissible(draws, MusicEntity::SoundCode(info)));
        }
    }

    /// Rests for a note of denominator `quarter_notes`.
    fn pause(&mut self, quarter_notes: usize)
        ensures
            final(self).state() == old(self).state(),
            final(self).sink() == after_events::<T>(
                old(self).sink(),
                entity_events(old(self).state(), MusicEntity::Pause(quarter_notes), Seq::empty()),
            ),
    {
        let pause_ms = rest_length(self.tempo, quarter_notes);
        let ghost sink = self.sink();
        self.pass_through.pause(pause_ms);
        proof {
            let silence = SinkEvent::Silence { ms: pause_ms };
            assert(seq![silence] =~= Seq::<SinkEvent>::empty().push(silence));
            lemma_after_events_push::<T>(sink, Seq::empty(), silence);
        }
    }

    /// Plays `frequency`, where there is one, for the time of a note of
    /// `dots` dots and of length `length`, and the silence that ends it.
    fn play_tone(&mut self, frequency: Option<i64>, length: Option<usize>, dots: usize)
        ensures
            final(self).state() == old(self).state(),
            final(self).sink() == after_events::<T>(
                old(self).sink(),
                note_events(old(self).state(), frequency, length, dots),
            ),
    {
        let (play_ms, pause_ms) = self.calculate_length(length, dots);
        let ghost sink = self.sink();
        if let Some(frequency) = frequency {
            self.pass_through.play_frequency(frequency, NOTE_VOLUME, play_ms);
            self.pass_through.pause(pause_ms);
            proof {
                let tone = SinkEvent::Tone { frequency, volume: NOTE_VOLUME, ms: play_ms };
                let silence = SinkEvent::Silence { ms: pause_ms };
                assert(seq![tone, silence] =~= Seq::<SinkEvent>::empty().push(tone).push(silence));
                lemma_after_events_push::<T>(sink, Seq::empty(), tone);
                lemma_after_events_push::<T>(sink, Seq::empty().push(tone), silence);
            }
        }
    }

    /// Plays a note in the present octave.
    fn play_note(&mut self, note: Note, info: NoteInfo)
        ensures
            final(self).state() == old(self).state(),
            final(self).sink() == after_events::<T>(
                old(self).sink(),
                entity_events(old(self).state(), MusicEntity::Note { note, info }, Seq::empty()),
            ),
    {
        let frequency = self.get_frequency(note, info.sign);
        self.play_tone(frequency, info.length, info.dots);
    }

    /// Plays the entry `value` of the frequency table at the player's length.
    fn play_raw_note(&mut self, value: usize)
        ensures
            final(self).state() == old(self).state(),
            final(self).sink() == after_events::<T>(
                old(self).sink(),
                entity_events(old(self).state(), MusicEntity::RawNote(value), Seq::empty()),
            ),
    {
        self.play_tone(frequency(value), None, 0);
    }

    /// Carries out one command: the player remembers what `next_state` says,
    /// and the sink has been asked what `entity_events` says, in that order.
    /// The steps of a random variation are drawn here; whatever they were,
    /// each was admissible.
    pub fn play_entity(&mut self, entity: MusicEntity)
        ensures
            final(self).state() == next_state(old(self).state(), entity),
            exists|draws: Seq<int>|
                admissible(draws, entity) && final(self).sink() == after_events::<T>(
                    old(self).sink(),
                    entity_events(old(self).state(), entity, draws),
                ),
            draws_needed(entity) == 0 ==> final(self).sink() == after_events::<T>(
                old(self).sink(),
                entity_events(old(self).state(), entity, Seq::empty()),
            ),
    {
        let ghost none = Seq::<int>::empty();
        match entity {
            MusicEntity::Operation(MusicOperation::Articulation(articulation)) => {
                self.articulation = articulation;
                assert(admissible(none, entity));
            },
            MusicEntity::Operation(_operation) => {
                assert(admissible(none, entity));
            },
            MusicEntity::Tempo(value) => {
                self.tempo = value;
                assert(admissible(none, entity));
            },
            MusicEntity::Octave(value) => {
                self.octave = value;
                assert(admissible(none, entity));
            },
            MusicEntity::Length(value) => {
                self.length = value;
                assert(admissible(none, entity));
            },
            MusicEntity::RawNote(value) => {
                self.play_raw_note(value);
                assert(admissible(none, entity));
            },
            MusicEntity::Pause(value) => {
                self.pause(value);
                assert(admissible(none, entity));
            },
            MusicEntity::IncreaseOctave => {
                if self.octave < usize::MAX {
                    self.octave = self.octave + 1;
                }
                assert(admissible(none, entity));
            },
            MusicEntity::DecreaseOctave => {
                if self.octave > 0 {
                    self.octave = self.octave - 1;
                }
                assert(admissible(none, entity));
            },
            MusicEntity::Note { note, info } => {
                self.play_note(note, info);
                assert(admissible(none, entity));
            },
            MusicEntity::SoundCode(info) => {
                self.play_sound_code(info);
                proof {
                    if draws_needed(entity) == 0 {
                        let draws = choose|draws: Seq<int>|
                            admissible(draws, entity) && final(self).sink() == after_events::<T>(
                                old(self).sink(),
                                sound_code_events(info, draws),
                            );
                        assert(draws =~= none);
                    }
                }
            },
        }
    }

    /// Carries out the commands of `music`, first to last: see
    /// `performance`. The steps of random variations are drawn here;
    /// whatever they were, each was admissible.
    pub fn play(&mut self, music: &Music)
        ensures
            exists|draws: Seq<Seq<int>>|
                {
                    &&& #[trigger] admissible_all(draws, music.entities())
                    &&& final(self).state() == performance(
                        old(self).state(),
                        music.entities(),
                        draws,
                    ).state
                    &&& final(self).sink() == after_events::<T>(
                        old(self).sink(),
                        performance(old(self).state(), music.entities(), draws).events,
                    )
                },
    {
        let ghost state = self.state();
        let ghost sink = self.sink();
        let ghost mut played = Seq::<MusicEntity>::empty();
        let ghost mut draws = Seq::<Seq<int>>::empty();
        let mut entities = music.iter();
        assert(played + entities.remaining() =~= music.entities());
        loop
            invariant
                played + entities.remaining() == music.entities(),
                admissible_all(draws, played),
                self.state() == performance(state, played, draws).state,
                self.sink() == after_events::<T>(sink, performance(state, played, draws).events),
                state == old(self).state(),
                sink == old(self).sink(),
            ensures
                entities.remaining().len() == 0,
                played + entities.remaining() == music.entities(),
                admissible_all(draws, played),
                self.state() == performance(state, played, draws).state,
                self.sink() == after_events::<T>(sink, performance(state, played, draws).events),
            decreases entities.remaining().len(),
        {
            let ghost coming = entities.remaining();
            let ghost before = performance(state, played, draws);
            let ghost mine = self.sink();
            let entity = match entities.next() {
                Some(entity) => entity,
                None => { break ; },
            };
            self.play_entity(entity);
            proof {
                let drawn = choose|drawn: Seq<int>|
                    admissible(drawn, entity) && self.sink() == after_events::<T>(
                        mine,
                        entity_events(before.state, entity, drawn),
                    );
                lemma_after_events_concat::<T>(
                    sink,
                    before.events,
                    entity_events(before.state, entity, drawn),
                );
                assert(played.push(entity).drop_last() =~= played);
                assert(draws.push(drawn).drop_last() =~= draws);
                assert(played.push(entity) + entities.remaining() =~= played + coming);
                played = played.push(entity);
                draws = draws.push(drawn);
            }
        }
        assert(played =~= music.entities());
    }

    /// The 16-bit WAV stream of what the sink has gathered, which empties
    /// the sink.
    pub fn wav_16_bytes(&mut self) -> (bytes: Vec<u8>)
        ensures
            bytes@ == T::model_wav_16(old(self).sink()),
            final(self).sink() == T::model_drained(old(self).sink()),
            final(self).state() == old(self).state(),
    {
        self.pass_through.wav_16_bytes()
    }

    /// The 8-bit WAV stream of what the sink has gathered, which empties
    /// the sink.
    pub fn wav_8_bytes(&mut self) -> (bytes: Vec<u8>)
        ensures
            bytes@ == T::model_wav_8(old(self).sink()),
            final(self).sink() == T::model_drained(old(self).sink()),
            final(self).state() == old(self).state(),
    {
        self.pass_through.wav_8_bytes()
    }
}

} // verus!
