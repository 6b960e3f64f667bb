//! A piece of ANSI Music and the commands it is made of.

use vstd::prelude::*;
use vstd::slice::slice_to_vec;
use vstd::std_specs::convert::FromSpecImpl;
use vstd::string::StringSliceAdditionalSpecFns;
use vstd::utf8::{
    decode_utf8, encode_utf8, encode_utf8_decode_utf8, encode_utf8_valid_utf8, is_ascii_chars,
    is_ascii_chars_encode_utf8, valid_utf8,
};

use crate::ascii::SPACE;
use crate::music_sequence_iterator::IntoMusicSequenceIter;
use crate::parser::entities_from;
use crate::text::{lemma_text_printable, push_entity, text_of};

verus! {

/// How much of a note's time is sounded.
#[derive(Clone, Copy, Debug, PartialEq, Eq)]
pub enum Articulation {
    /// Seven eighths sound, one eighth is silent.
    Legato,
    /// Three quarters sound, one quarter is silent.
    Normal,
    /// The whole note sounds.
    Staccato,
}

/// A command that plays nothing.
#[derive(Clone, Copy, Debug, PartialEq, Eq)]
pub enum MusicOperation {
    /// Sets the articulation of the notes that follow.
    Articulation(Articulation),
    /// Asks for playback in the foreground; the player takes no notice.
    Foreground,
    /// Asks for playback in the background; the player takes no notice.
    Background,
}

/// The seven note letters.
#[derive(Clone, Copy, Debug, PartialEq, Eq)]
pub enum Note {
    A,
    B,
    C,
    D,
    E,
    F,
    G,
}

/// Whether a note is raised or lowered by a semitone.
#[derive(Clone, Copy, Debug, PartialEq, Eq)]
pub enum NoteSign {
    Sharp,
    Natural,
    Flat,
}

/// What is written behind a note letter.
#[derive(Clone, Copy, Debug, PartialEq, Eq)]
pub struct NoteInfo {
    pub sign: NoteSign,
    /// The note's own length as a denominator, where one is written.
    pub length: Option<usize>,
    /// The number of dots.
    pub dots: usize,
}

/// How the frequency of a sound effect moves from one cycle to the next.
#[derive(Clone, Copy, Debug, PartialEq, Eq)]
pub enum Variation {
    /// By this many millihertz.
    Value(i64),
    /// By a step drawn anew for each cycle.
    Random,
}

/// The five fields of a sound effect. A field that was left empty is `None`.
#[derive(Clone, Copy, Debug, PartialEq, Eq)]
pub struct SoundCodeInfo {
    /// In millihertz.
    pub frequency: Option<i64>,
    /// In thousandths of a clock tick, of which there are 18.2 in a second.
    pub duration: Option<u64>,
    /// The silence after the effect, in milliseconds.
    pub delay: Option<usize>,
    /// How often the tone is played.
    pub cycles: Option<usize>,
    pub variation: Option<Variation>,
}

/// One command of a piece.
#[derive(Clone, Copy, Debug, PartialEq, Eq)]
pub enum MusicEntity {
    Operation(MusicOperation),
    /// Quarter notes per minute.
    Tempo(usize),
    Octave(usize),
    /// The length of the notes that follow, as a denominator: 1 is a whole
    /// note, 4 a quarter.
    Length(usize),
    /// A note by its place in the frequency table.
    RawNote(usize),
    /// A rest, by its length as a denominator.
    Pause(usize),
    IncreaseOctave,
    DecreaseOctave,
    Note { note: Note, info: NoteInfo },
    SoundCode(SoundCodeInfo),
}

/// `String::from_utf8`: the string that `bytes` spell in UTF-8, or nothing
/// where they spell none.
#[verifier::external_body]
fn string_from_utf8(bytes: Vec<u8>) -> (text: Option<String>)
    ensures
        text is Some <==> valid_utf8(bytes@),
        text is Some ==> text.unwrap()@ == decode_utf8(bytes@),
{
    String::from_utf8(bytes).ok()
}

/// ASCII bytes as the characters they stand for.
pub open spec fn ascii_chars(bytes: Seq<u8>) -> Seq<char> {
    Seq::new(bytes.len(), |i: int| bytes[i] as char)
}

/// A piece: the text it was written as.
pub struct Music {
    source: Vec<u8>,
}

impl View for Music {
    type V = Seq<u8>;

    /// The text of the piece.
    closed spec fn view(&self) -> Seq<u8> {
        self.source@
    }
}

impl Music {
    /// The commands of the piece, in the order in which they stand.
    pub open spec fn entities(&self) -> Seq<MusicEntity> {
        entities_from(self@, 0)
    }

    /// The piece that `source` writes. Any text is a piece: what is no
    /// command in it is passed over.
    pub fn new(source: &[u8]) -> (music: Music)
        ensures
            music@ == source@,
    {
        Music { source: slice_to_vec(source) }
    }

    /// The text of the piece.
    pub fn source(&self) -> (source: &[u8])
        ensures
            source@ == self@,
    {
        self.source.as_slice()
    }

    /// The canonical text of the piece: its commands, each written out in
    /// one way, with a blank between one and the next. What the piece's own
    /// text holds besides is not in it.
    pub fn text(&self) -> (text: Vec<u8>)
        ensures
            text@ == text_of(self.entities()),
    {
        let mut text: Vec<u8> = Vec::new();
        let mut entities = self.iter();
        let mut first = true;
        let ghost mut written = Seq::<MusicEntity>::empty();
        assert(written + entities.remaining() =~= self.entities());
        loop
            invariant
                written + entities.remaining() == self.entities(),
                text@ == text_of(written),
                first == (written.len() == 0),
            ensures
                entities.remaining().len() == 0,
                written + entities.remaining() == self.entities(),
                text@ == text_of(written),
            decreases entities.remaining().len(),
        {
            let ghost coming = entities.remaining();
            let entity = match entities.next() {
                Some(entity) => entity,
                None => { break ; },
            };
            if !first {
                text.push(SPACE);
            }
            first = false;
            push_entity(&mut text, entity);
            proof {
                assert(written.push(entity).drop_last() =~= written);
                assert(written.push(entity) + entities.remaining() =~= written + coming);
                written = written.push(entity);
            }
        }
        assert(written =~= self.entities());
        text
    }

    /// The canonical text of the piece as a string.
    pub fn to_string(&self) -> (text: String)
        ensures
            text@ == ascii_chars(text_of(self.entities())),
    {
        let bytes = self.text();
        proof {
            let chars = ascii_chars(bytes@);
            lemma_text_printable(self.entities());
            assert(is_ascii_chars(chars));
            is_ascii_chars_encode_utf8(chars);
            assert(encode_utf8(chars) =~= bytes@);
            encode_utf8_valid_utf8(chars);
            encode_utf8_decode_utf8(chars);
        }
        match string_from_utf8(bytes) {
            Some(text) => text,
            None => String::new(),
        }
    }

    /// The commands of the piece from the first on, one at each call of
    /// `next`. Every call of `iter` starts anew.
    pub fn iter(&self) -> (entities: IntoMusicSequenceIter<'_>)
        ensures
            entities.remaining() == self.entities(),
    {
        IntoMusicSequenceIter::new(self.source.as_slice())
    }
}

impl<'a> From<&'a str> for Music {
    /// The piece that `text` writes.
    fn from(text: &'a str) -> (music: Music)
        ensures
            music@ == text.spec_bytes(),
    {
        Music::new(text.as_bytes())
    }
}

impl<'a> FromSpecImpl<&'a str> for Music {
    /// A piece is known by its text alone: see the contract of `from`.
    open spec fn obeys_from_spec() -> bool {
        false
    }

    open spec fn from_spec(text: &'a str) -> Music {
        arbitrary()
    }
}

} // verus!
