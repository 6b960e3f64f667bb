//! A sink that synthesises nothing and keeps what it was asked: for reading
//! a piece's notation without rendering it.

use vstd::prelude::*;

use crate::performance::SinkEvent;
use crate::player::{after_events, PlayerPassThrough};

verus! {

/// The requests made of a sink, in the order in which they were made.
pub struct Transcript {
    events: Vec<SinkEvent>,
}

impl View for Transcript {
    type V = Seq<SinkEvent>;

    /// The requests kept so far.
    closed spec fn view(&self) -> Seq<SinkEvent> {
        self.events@
    }
}

impl Transcript {
    /// A transcript without requests.
    pub fn new() -> (transcript: Transcript)
        ensures
            transcript@ == Seq::<SinkEvent>::empty(),
    {
        Transcript { events: Vec::new() }
    }

    /// The requests kept so far.
    pub fn events(&self) -> (events: &[SinkEvent])
        ensures
            events@ == self@,
    {
        self.events.as_slice()
    }
}

impl PlayerPassThrough for Transcript {
    type Model = Seq<SinkEvent>;

    open spec fn model(&self) -> Seq<SinkEvent> {
        self@
    }

    /// A tone is kept as it was asked.
    open spec fn model_play(
        model: Seq<SinkEvent>,
        frequency: int,
        volume: int,
        ms: nat,
    ) -> Seq<SinkEvent> {
        model.push(
            SinkEvent::Tone { frequency: frequency as i64, volume: volume as u16, ms: ms as usize },
        )
    }

    /// A silence is kept as it was asked.
    open spec fn model_pause(model: Seq<SinkEvent>, ms: nat) -> Seq<SinkEvent> {
        model.push(SinkEvent::Silence { ms: ms as usize })
    }

    /// A transcript holds no sound: its stream is empty.
    open spec fn model_wav_16(model: Seq<SinkEvent>) -> Seq<u8> {
        Seq::empty()
    }

    /// A transcript holds no sound: its stream is empty.
    open spec fn model_wav_8(model: Seq<SinkEvent>) -> Seq<u8> {
        Seq::empty()
    }

    /// An export clears the transcript.
    open spec fn model_drained(model: Seq<SinkEvent>) -> Seq<SinkEvent> {
        Seq::empty()
    }

    fn play_frequency(&mut self, frequency: i64, volume: u16, ms: usize) {
        self.events.push(SinkEvent::Tone { frequency, volume, ms });
    }

    fn pause(&mut self, ms: usize) {
        self.events.push(SinkEvent::Silence { ms });
    }

    fn wav_16_bytes(&mut self) -> (bytes: Vec<u8>) {
        self.events.clear();
        Vec::new()
    }

    fn wav_8_bytes(&mut self) -> (bytes: Vec<u8>) {
        self.events.clear();
        Vec::new()
    }
}

/// A transcript that is asked `events` holds them behind what it held.
pub proof fn lemma_transcript_keeps(model: Seq<SinkEvent>, events: Seq<SinkEvent>)
    ensures
        after_events::<Transcript>(model, events) == model + events,
    decreases events.len(),
{
    if events.len() == 0 {
        assert(model + events =~= model);
    } else {
        lemma_transcript_keeps(model, events.drop_last());
        assert(model + events =~= (model + events.drop_last()).push(events.last()));
    }
}

} // verus!
