//! Rendering of ANSI Music: a short text notation of tempo, octave, note and
//! sound-effect commands, turned into square-wave samples in a WAV byte stream
//! and into a canonical text of the piece.
//!
//! Frequencies are whole numbers of millihertz, volumes and samples whole
//! numbers of thousandths of full scale, and the durations of sound effects
//! whole numbers of thousandths of a clock tick: all arithmetic is exact.

pub mod ascii;
pub mod canonical;
pub mod frequencies;
pub mod letter_case;
pub mod music;
pub mod music_sequence_iterator;
pub mod parser;
pub mod performance;
pub mod player;
pub mod render;
pub mod text;
pub mod timing;
pub mod transcript;
pub mod wav;

pub use music::Music;
pub use music_sequence_iterator::IntoMusicSequenceIter;
pub use player::{Player, PlayerPassThrough};
pub use render::{create_ansi_escapes, render, Rendering};
pub use transcript::Transcript;
pub use wav::{SquareWave, WavHeader};
