//! What a piece means: what the player remembers after each command and
//! what each command asks of the sink.

use vstd::prelude::*;

use crate::frequencies::spec_frequency;
use crate::music::{
    Articulation, MusicEntity, MusicOperation, Note, NoteInfo, NoteSign, SoundCodeInfo, Variation,
};
use crate::timing::{effect_ms, length_or, rest_ms, silent_ms, sounding_ms};

verus! {

/// The volume of every note and sound effect, in thousandths of full scale.
pub const NOTE_VOLUME: u16 = 200;

/// The largest step, in millihertz, that a random variation takes up or down.
pub const RANDOM_STEP: i64 = 512_000;

/// One request made of an audio sink.
#[derive(Clone, Copy, Debug, PartialEq, Eq)]
pub enum SinkEvent {
    /// A tone of `frequency` millihertz at `volume` thousandths of full scale
    /// for `ms` milliseconds.
    Tone { frequency: i64, volume: u16, ms: usize },
    /// Silence for `ms` milliseconds.
    Silence { ms: usize },
}

/// What a player remembers from one command to the next.
#[derive(Clone, Copy, Debug, PartialEq, Eq)]
pub struct PlayerState {
    /// Quarter notes per minute.
    pub tempo: usize,
    /// The length of a note that names none, as a denominator.
    pub length: usize,
    pub octave: usize,
    pub articulation: Articulation,
}

impl PlayerState {
    /// The state of a new player: 120 quarter notes per minute, whole
    /// notes, octave 4, normal articulation.
    pub open spec fn initial() -> PlayerState {
        PlayerState { tempo: 120, length: 1, octave: 4, articulation: Articulation::Normal }
    }
}

/// The semitones from C up to `note`.
pub open spec fn semitone(note: Note) -> int {
    match note {
        Note::C => 0,
        Note::D => 2,
        Note::E => 4,
        Note::F => 5,
        Note::G => 7,
        Note::A => 9,
        Note::B => 11,
    }
}

/// The semitones by which `sign` moves a note.
pub open spec fn shift(sign: NoteSign) -> int {
    match sign {
        NoteSign::Sharp => 1,
        NoteSign::Natural => 0,
        NoteSign::Flat => -1,
    }
}

/// The frequency of a note: the entry of the table at twelve times the
/// octave, plus the note's semitones, moved by the sign. A note below the
/// table (C flat in octave 0) or above it has none.
pub open spec fn note_frequency(octave: nat, note: Note, sign: NoteSign) -> Option<i64> {
    spec_frequency(octave * 12 + semitone(note) + shift(sign))
}

/// What the player remembers after `entity`. The octave neither falls below
/// 0 nor rises above what a `usize` holds: a step beyond leaves it where it
/// is.
pub open spec fn next_state(state: PlayerState, entity: MusicEntity) -> PlayerState {
    match entity {
        MusicEntity::Operation(MusicOperation::Articulation(articulation)) => PlayerState {
            articulation,
            ..state
        },
        MusicEntity::Tempo(tempo) => PlayerState { tempo, ..state },
        MusicEntity::Octave(octave) => PlayerState { octave, ..state },
        MusicEntity::Length(length) => PlayerState { length, ..state },
        MusicEntity::IncreaseOctave => PlayerState {
            octave: if state.octave < usize::MAX {
                (state.octave + 1) as usize
            } else {
                state.octave
            },
            ..state
        },
        MusicEntity::DecreaseOctave => PlayerState {
            octave: if state.octave > 0 {
                (state.octave - 1) as usize
            } else {
                state.octave
            },
            ..state
        },
        _ => state,
    }
}

/// What a note of a known frequency asks of the sink: the tone, then the
/// silence that ends it. A note without a frequency asks nothing.
pub open spec fn note_events(
    state: PlayerState,
    frequency: Option<i64>,
    length: Option<usize>,
    dots: usize,
) -> Seq<SinkEvent> {
    match frequency {
        Some(frequency) => seq![
            SinkEvent::Tone {
                frequency,
                volume: NOTE_VOLUME,
                ms: sounding_ms(
                    state.tempo as nat,
                    length_or(length, state.length) as nat,
                    state.articulation,
                    dots as nat,
                ) as usize,
            },
            SinkEvent::Silence {
                ms: silent_ms(
                    state.tempo as nat,
                    length_or(length, state.length) as nat,
                    state.articulation,
                ) as usize,
            },
        ],
        None => Seq::empty(),
    }
}

/// `value`, held to what an `i64` can hold.
pub open spec fn hold_i64(value: int) -> i64 {
    if value < i64::MIN {
        i64::MIN
    } else if value > i64::MAX {
        i64::MAX
    } else {
        value as i64
    }
}

/// The step that a sound effect of variation `variation` takes from one
/// cycle to the next: the value of a fixed variation, `drawn` for a random
/// one, nothing without a variation.
pub open spec fn step_taken(variation: Option<Variation>, drawn: int) -> int {
    match variation {
        Some(Variation::Value(step)) => step as int,
        Some(Variation::Random) => drawn,
        None => 0,
    }
}

/// The step that a sound effect takes after cycle `cycle`, where `draws`
/// holds the step drawn in each cycle.
pub open spec fn variation_step(variation: Option<Variation>, draws: Seq<int>, cycle: int) -> int {
    step_taken(
        variation,
        if 0 <= cycle < draws.len() {
            draws[cycle]
        } else {
            0
        },
    )
}

/// The frequency of cycle `cycle` of a sound effect that starts at `start`:
/// each cycle adds its step to the frequency of the one before, and the sum
/// is held to an `i64`.
pub open spec fn swept_frequency(
    start: i64,
    variation: Option<Variation>,
    draws: Seq<int>,
    cycle: nat,
) -> i64
    decreases cycle,
{
    if cycle == 0 {
        start
    } else {
        hold_i64(
            swept_frequency(start, variation, draws, (cycle - 1) as nat) + variation_step(
                variation,
                draws,
                cycle - 1,
            ),
        )
    }
}

/// The frequency that follows `frequency` in a sound effect of variation
/// `variation`, where `drawn` is the step drawn for this cycle: the
/// frequency moved by the step, held to an `i64`.
pub fn vary(frequency: i64, variation: Option<Variation>, drawn: i64) -> (next: i64)
    ensures
        next == hold_i64(frequency + step_taken(variation, drawn as int)),
{
    let step: i64 = match variation {
        Some(Variation::Value(value)) => value,
        Some(Variation::Random) => drawn,
        None => 0,
    };
    let sum: i128 = frequency as i128 + step as i128;
    if sum < i64::MIN as i128 {
        i64::MIN
    } else if sum > i64::MAX as i128 {
        i64::MAX
    } else {
        sum as i64
    }
}

/// The first `count` tones of a sound effect, each `ms` milliseconds long.
pub open spec fn effect_tones(
    start: i64,
    variation: Option<Variation>,
    draws: Seq<int>,
    ms: usize,
    count: nat,
) -> Seq<SinkEvent> {
    Seq::new(
        count,
        |cycle: int|
            SinkEvent::Tone {
                frequency: swept_frequency(start, variation, draws, cycle as nat),
                volume: NOTE_VOLUME,
                ms,
            },
    )
}

/// The silence after a sound effect: the delay it names, else none.
pub open spec fn effect_delay(info: SoundCodeInfo) -> usize {
    match info.delay {
        Some(delay) => delay,
        None => 0,
    }
}

/// The cycles of a sound effect: the count it names, else one.
pub open spec fn effect_cycles(info: SoundCodeInfo) -> usize {
    match info.cycles {
        Some(cycles) => cycles,
        None => 1,
    }
}

/// What a sound effect asks of the sink. One without a frequency or without
/// a duration asks nothing. One of no cycles asks for its tone once, at the
/// frequency it names. Any other asks for one tone per cycle, the frequency
/// moving from cycle to cycle. A silence of the delay ends both.
pub open spec fn sound_code_events(info: SoundCodeInfo, draws: Seq<int>) -> Seq<SinkEvent> {
    match (info.frequency, info.duration) {
        (Some(start), Some(duration)) => {
            let ms = effect_ms(duration as nat) as usize;
            let cycles = effect_cycles(info);
            let tones = if cycles == 0 {
                1nat
            } else {
                cycles as nat
            };
            effect_tones(start, info.variation, draws, ms, tones).push(
                SinkEvent::Silence { ms: effect_delay(info) },
            )
        },
        _ => Seq::empty(),
    }
}

/// What `entity` asks of the sink when the player is in `state`. `draws`
/// are the steps drawn for a random variation, one per cycle.
pub open spec fn entity_events(
    state: PlayerState,
    entity: MusicEntity,
    draws: Seq<int>,
) -> Seq<SinkEvent> {
    match entity {
        MusicEntity::Note { note, info } => note_events(
            state,
            note_frequency(state.octave as nat, note, info.sign),
            info.length,
            info.dots,
        ),
        MusicEntity::RawNote(index) => note_events(state, spec_frequency(index as int), None, 0),
        MusicEntity::Pause(denominator) => seq![
            SinkEvent::Silence { ms: rest_ms(state.tempo as nat, denominator as nat) as usize },
        ],
        MusicEntity::SoundCode(info) => sound_code_events(info, draws),
        _ => Seq::empty(),
    }
}

/// The number of steps that `entity` draws: one per cycle of a sound effect
/// that sounds and varies at random, none for anything else.
pub open spec fn draws_needed(entity: MusicEntity) -> nat {
    match entity {
        MusicEntity::SoundCode(info) => if info.frequency is Some && info.duration is Some
            && info.variation == Some(Variation::Random) {
            effect_cycles(info) as nat
        } else {
            0
        },
        _ => 0,
    }
}

/// Whether `draws` can be the steps drawn for `entity`: as many as it needs,
/// each no more than `RANDOM_STEP` up or down.
pub open spec fn admissible(draws: Seq<int>, entity: MusicEntity) -> bool {
    &&& draws.len() == draws_needed(entity)
    &&& forall|i: int| 0 <= i < draws.len() ==> -RANDOM_STEP <= #[trigger] draws[i] <= RANDOM_STEP
}

/// Whether `draws` can be the steps drawn over `entities`: for each of them
/// its own, admissible for it.
pub open spec fn admissible_all(draws: Seq<Seq<int>>, entities: Seq<MusicEntity>) -> bool {
    &&& draws.len() == entities.len()
    &&& forall|i: int| 0 <= i < entities.len() ==> admissible(#[trigger] draws[i], entities[i])
}

/// What a player has come to: what it remembers, and what it has asked of
/// its sink.
pub struct Performance {
    pub state: PlayerState,
    pub events: Seq<SinkEvent>,
}

/// What a player that starts in `state` comes to over `entities`, carried
/// out first to last, where `draws` holds for each of them the steps drawn
/// for it.
pub open spec fn performance(
    state: PlayerState,
    entities: Seq<MusicEntity>,
    draws: Seq<Seq<int>>,
) -> Performance
    decreases entities.len(),
{
    if entities.len() == 0 {
        Performance { state, events: Seq::empty() }
    } else {
        let before = performance(state, entities.drop_last(), draws.drop_last());
        Performance {
            state: next_state(before.state, entities.last()),
            events: before.events + entity_events(before.state, entities.last(), draws.last()),
        }
    }
}

/// The frequency of a cycle depends on the steps of the cycles before it
/// alone.
pub proof fn lemma_swept_frequency_prefix(
    start: i64,
    variation: Option<Variation>,
    draws: Seq<int>,
    longer: Seq<int>,
    cycle: nat,
)
    requires
        forall|i: int|
            0 <= i < cycle ==> variation_step(variation, draws, i) == variation_step(
                variation,
                longer,
                i,
            ),
    ensures
        swept_frequency(start, variation, draws, cycle) == swept_frequency(
            start,
            variation,
            longer,
            cycle,
        ),
    decreases cycle,
{
    if cycle > 0 {
        lemma_swept_frequency_prefix(start, variation, draws, longer, (cycle - 1) as nat);
    }
}

/// A sound effect of no cycles asks for its tone once, at the frequency it
/// names and for the time of one cycle, and then for the silence of its
/// delay. It draws no step, and no variation moves the frequency.
pub proof fn lemma_no_cycles_play_once(info: SoundCodeInfo, draws: Seq<int>)
    requires
        info.frequency is Some,
        info.duration is Some,
        info.cycles == Some(0usize),
    ensures
        sound_code_events(info, draws) == seq![
            SinkEvent::Tone {
                frequency: info.frequency.unwrap(),
                volume: NOTE_VOLUME,
                ms: effect_ms(info.duration.unwrap() as nat) as usize,
            },
            SinkEvent::Silence { ms: effect_delay(info) },
        ],
        draws_needed(MusicEntity::SoundCode(info)) == 0,
{
    assert(sound_code_events(info, draws) =~= seq![
        SinkEvent::Tone {
            frequency: info.frequency.unwrap(),
            volume: NOTE_VOLUME,
            ms: effect_ms(info.duration.unwrap() as nat) as usize,
        },
        SinkEvent::Silence { ms: effect_delay(info) },
    ]);
}

/// A sound effect asks for one tone per cycle, or for one tone where it has
/// no cycles, and then for one silence.
pub proof fn lemma_sound_code_event_count(info: SoundCodeInfo, draws: Seq<int>)
    requires
        info.frequency is Some,
        info.duration is Some,
    ensures
        sound_code_events(info, draws).len() == (if effect_cycles(info) == 0 {
            1nat
        } else {
            effect_cycles(info) as nat
        }) + 1,
        sound_code_events(info, draws).last() == (SinkEvent::Silence { ms: effect_delay(info) }),
        sound_code_events(info, draws)[0] == (SinkEvent::Tone {
            frequency: info.frequency.unwrap(),
            volume: NOTE_VOLUME,
            ms: effect_ms(info.duration.unwrap() as nat) as usize,
        }),
{
}

/// At the lower ends nothing is left undefined: in octave 0 a step down
/// leaves the player as it is, and the flat of the lowest C, which would lie
/// below the table, has no frequency and asks nothing of the sink.
pub proof fn lemma_lower_ends(state: PlayerState, info: NoteInfo, draws: Seq<int>)
    requires
        state.octave == 0,
        info.sign == NoteSign::Flat,
    ensures
        next_state(state, MusicEntity::DecreaseOctave) == state,
        note_frequency(0, Note::C, NoteSign::Flat) is None,
        entity_events(state, MusicEntity::Note { note: Note::C, info }, draws) == Seq::<
            SinkEvent,
        >::empty(),
{
}

/// A piece in which nothing varies at random comes to the same whatever was
/// drawn: its performance is a function of the piece alone.
pub proof fn lemma_performance_without_draws(
    state: PlayerState,
    entities: Seq<MusicEntity>,
    draws: Seq<Seq<int>>,
    others: Seq<Seq<int>>,
)
    requires
        forall|i: int| 0 <= i < entities.len() ==> draws_needed(#[trigger] entities[i]) == 0,
        admissible_all(draws, entities),
        admissible_all(others, entities),
    ensures
        performance(state, entities, draws) == performance(state, entities, others),
    decreases entities.len(),
{
    if entities.len() > 0 {
        let last = entities.len() - 1;
        assert(admissible_all(draws.drop_last(), entities.drop_last())) by {
            assert forall|i: int| 0 <= i < entities.drop_last().len() implies admissible(
                #[trigger] draws.drop_last()[i],
                entities.drop_last()[i],
            ) by {
                assert(admissible(draws[i], entities[i]));
            }
        }
        assert(admissible_all(others.drop_last(), entities.drop_last())) by {
            assert forall|i: int| 0 <= i < entities.drop_last().len() implies admissible(
                #[trigger] others.drop_last()[i],
                entities.drop_last()[i],
            ) by {
                assert(admissible(others[i], entities[i]));
            }
        }
        assert forall|i: int| 0 <= i < entities.drop_last().len() implies draws_needed(
            #[trigger] entities.drop_last()[i],
        ) == 0 by {
            assert(draws_needed(entities[i]) == 0);
        }
        lemma_performance_without_draws(
            state,
            entities.drop_last(),
            draws.drop_last(),
            others.drop_last(),
        );
        assert(admissible(draws[last], entities[last]));
        assert(admissible(others[last], entities[last]));
        assert(draws_needed(entities[last]) == 0);
        assert(draws.last() =~= others.last());
    }
}

/// Whether every tone among `events` has the volume of a note.
pub open spec fn at_note_volume(events: Seq<SinkEvent>) -> bool {
    forall|i: int|
        0 <= i < events.len() ==> (#[trigger] events[i] matches SinkEvent::Tone { volume, .. }
            ==> volume == NOTE_VOLUME)
}

/// Every tone that a command asks for has the volume of a note.
pub proof fn lemma_entity_volume(state: PlayerState, entity: MusicEntity, draws: Seq<int>)
    ensures
        at_note_volume(entity_events(state, entity, draws)),
{
}

/// Every tone of a performance has the volume of a note.
pub proof fn lemma_performance_volume(
    state: PlayerState,
    entities: Seq<MusicEntity>,
    draws: Seq<Seq<int>>,
)
    ensures
        at_note_volume(performance(state, entities, draws).events),
    decreases entities.len(),
{
    if entities.len() > 0 {
        let before = performance(state, entities.drop_last(), draws.drop_last());
        lemma_performance_volume(state, entities.drop_last(), draws.drop_last());
        lemma_entity_volume(before.state, entities.last(), draws.last());
    }
}

} // verus!
