//! The WAV encoder and the square-wave sink that fills it.

use std::mem::swap;
use vstd::arithmetic::div_mod::{
    lemma_breakdown, lemma_fundamental_div_mod, lemma_fundamental_div_mod_converse, lemma_mod_mod,
    lemma_mul_mod_noop_general, lemma_small_mod,
};
use vstd::prelude::*;

use crate::player::PlayerPassThrough;

verus! {

/// Byte `index` (0 to 3) of `value` written little-endian.
pub open spec fn le_byte(value: nat, index: nat) -> u8 {
    let shifted = if index == 0 {
        value
    } else if index == 1 {
        value / 0x100
    } else if index == 2 {
        value / 0x1_0000
    } else {
        value / 0x100_0000
    };
    (shifted % 256) as u8
}

/// The number spelled by the two bytes of `bytes` from `at` on, least
/// significant first.
pub open spec fn le_u16_at(bytes: Seq<u8>, at: int) -> nat {
    bytes[at] as nat + 0x100 * bytes[at + 1] as nat
}

/// The number spelled by the four bytes of `bytes` from `at` on, least
/// significant first.
pub open spec fn le_u32_at(bytes: Seq<u8>, at: int) -> nat {
    bytes[at] as nat + 0x100 * bytes[at + 1] as nat + 0x1_0000 * bytes[at + 2] as nat + 0x100_0000
        * bytes[at + 3] as nat
}

/// `a * b * c / 8`, cut to the 32 bits of a header field.
#[verifier::opaque]
pub open spec fn eighth_of_product_u32(a: nat, b: nat, c: nat) -> nat {
    (a * b * c / 8) % 0x1_0000_0000
}

/// The numeric fields of a WAV header, in the order in which they are written.
#[derive(Clone, Copy, Debug, PartialEq, Eq)]
pub struct WavHeader {
    pub chunk_size: u32,
    pub subchunk1_size: u32,
    pub audio_format: u16,
    pub num_channels: u16,
    pub sample_rate: u32,
    pub byte_rate: u32,
    pub block_align: u16,
    pub bits_per_sample: u16,
    pub subchunk2_size: u32,
}

/// Byte `index` of `value` written little-endian.
fn byte_of(value: u32, index: u8) -> (byte: u8)
    requires
        index < 4,
    ensures
        byte == le_byte(value as nat, index as nat),
{
    if index == 0 {
        (value % 0x100) as u8
    } else if index == 1 {
        (value / 0x100 % 0x100) as u8
    } else if index == 2 {
        (value / 0x1_0000 % 0x100) as u8
    } else {
        (value / 0x100_0000 % 0x100) as u8
    }
}

/// `a * b * c / 8` in the low 32 bits, for factors of any size.
fn eighth_of_product(a: usize, b: usize, c: usize) -> (low: u32)
    ensures
        low == eighth_of_product_u32(a as nat, b as nat, c as nat),
{
    let modulus: u128 = 0x8_0000_0000;
    let x: u128 = (a as u128) % modulus;
    let y: u128 = (b as u128) % modulus;
    let z: u128 = (c as u128) % modulus;
    assert(x * y < 0x8_0000_0000 * 0x8_0000_0000) by (nonlinear_arith)
        requires
            x < 0x8_0000_0000,
            y < 0x8_0000_0000,
    ;
    let xy: u128 = (x * y) % modulus;
    assert(xy * z < 0x8_0000_0000 * 0x8_0000_0000) by (nonlinear_arith)
        requires
            xy < 0x8_0000_0000,
            z < 0x8_0000_0000,
    ;
    let xyz: u128 = (xy * z) % modulus;
    proof {
        reveal(eighth_of_product_u32);
        let m = 0x8_0000_0000int;
        let product = (a as int) * (b as int) * (c as int);
        lemma_mul_mod_noop_general(a as int, b as int, m);
        lemma_mul_mod_noop_general((a as int) * (b as int), c as int, m);
        assert(xyz as int == product % m);
        assert(0 <= product) by (nonlinear_arith)
            requires
                product == (a as int) * (b as int) * (c as int),
                0 <= a,
                0 <= b,
                0 <= c,
        ;
        lemma_breakdown(product, 8, 0x1_0000_0000);
        assert(8 * 0x1_0000_0000 == m);
        assert(product % m == 8 * ((product / 8) % 0x1_0000_0000) + product % 8);
    }
    (xyz / 8) as u32
}

impl WavHeader {
    /// The header of `num_of_samples` PCM samples. A value that does not fit
    /// its field is cut to the field's width.
    pub open spec fn spec_new_pcm(
        num_channels: nat,
        sample_rate: nat,
        bits_per_sample: nat,
        num_of_samples: nat,
    ) -> WavHeader {
        let data = eighth_of_product_u32(num_of_samples, num_channels, bits_per_sample);
        WavHeader {
            chunk_size: ((data + 36) % 0x1_0000_0000) as u32,
            subchunk1_size: 16,
            audio_format: 1,
            num_channels: (num_channels % 0x1_0000) as u16,
            sample_rate: (sample_rate % 0x1_0000_0000) as u32,
            byte_rate: eighth_of_product_u32(sample_rate, num_channels, bits_per_sample) as u32,
            block_align: ((num_channels * bits_per_sample / 8) % 0x1_0000) as u16,
            bits_per_sample: (bits_per_sample % 0x1_0000) as u16,
            subchunk2_size: data as u32,
        }
    }

    /// The 44 bytes of the header: `RIFF`, the chunk size, `WAVE`, `fmt `, the
    /// seven format fields, `data` and the data size; tags in ASCII, numbers
    /// little-endian.
    #[verifier::opaque]
    pub open spec fn spec_bytes(self) -> Seq<u8> {
        seq![
            0x52u8,
            0x49u8,
            0x46u8,
            0x46u8,
            le_byte(self.chunk_size as nat, 0),
            le_byte(self.chunk_size as nat, 1),
            le_byte(self.chunk_size as nat, 2),
            le_byte(self.chunk_size as nat, 3),
            0x57u8,
            0x41u8,
            0x56u8,
            0x45u8,
            0x66u8,
            0x6du8,
            0x74u8,
            0x20u8,
            le_byte(self.subchunk1_size as nat, 0),
            le_byte(self.subchunk1_size as nat, 1),
            le_byte(self.subchunk1_size as nat, 2),
            le_byte(self.subchunk1_size as nat, 3),
            le_byte(self.audio_format as nat, 0),
            le_byte(self.audio_format as nat, 1),
            le_byte(self.num_channels as nat, 0),
            le_byte(self.num_channels as nat, 1),
            le_byte(self.sample_rate as nat, 0),
            le_byte(self.sample_rate as nat, 1),
            le_byte(self.sample_rate as nat, 2),
            le_byte(self.sample_rate as nat, 3),
            le_byte(self.byte_rate as nat, 0),
            le_byte(self.byte_rate as nat, 1),
            le_byte(self.byte_rate as nat, 2),
            le_byte(self.byte_rate as nat, 3),
            le_byte(self.block_align as nat, 0),
            le_byte(self.block_align as nat, 1),
            le_byte(self.bits_per_sample as nat, 0),
            le_byte(self.bits_per_sample as nat, 1),
            0x64u8,
            0x61u8,
            0x74u8,
            0x61u8,
            le_byte(self.subchunk2_size as nat, 0),
            le_byte(self.subchunk2_size as nat, 1),
            le_byte(self.subchunk2_size as nat, 2),
            le_byte(self.subchunk2_size as nat, 3),
        ]
    }

    /// Builds the header of a PCM stream from its shape: see `spec_new_pcm`,
    /// which the second clause on spells out field by field.
    pub fn new_pcm(
        num_channels: usize,
        sample_rate: usize,
        bits_per_sample: usize,
        num_of_samples: usize,
    ) -> (header: WavHeader)
        ensures
            header == WavHeader::spec_new_pcm(
                num_channels as nat,
                sample_rate as nat,
                bits_per_sample as nat,
                num_of_samples as nat,
            ),
            header == (WavHeader {
                chunk_size: (((num_of_samples * num_channels * bits_per_sample / 8) % 0x1_0000_0000
                    + 36) % 0x1_0000_0000) as u32,
                subchunk1_size: 16,
                audio_format: 1,
                num_channels: (num_channels % 0x1_0000) as u16,
                sample_rate: (sample_rate as nat % 0x1_0000_0000) as u32,
                byte_rate: ((sample_rate * num_channels * bits_per_sample / 8) % 0x1_0000_0000)
                    as u32,
                block_align: ((num_channels * bits_per_sample / 8) % 0x1_0000) as u16,
                bits_per_sample: (bits_per_sample % 0x1_0000) as u16,
                subchunk2_size: ((num_of_samples * num_channels * bits_per_sample / 8)
                    % 0x1_0000_0000) as u32,
            }),
    {
        proof {
            reveal(eighth_of_product_u32);
        }
        let subchunk2_size = eighth_of_product(num_of_samples, num_channels, bits_per_sample);
        let block = eighth_of_product(1, num_channels, bits_per_sample);
        proof {
            reveal(eighth_of_product_u32);
            let product = 1 * (num_channels as nat) * (bits_per_sample as nat) / 8;
            lemma_mod_mod(product as int, 0x1_0000, 0x1_0000);
            assert(0x1_0000 * 0x1_0000 == 0x1_0000_0000);
        }
        WavHeader {
            chunk_size: ((subchunk2_size as u64 + 36) % 0x1_0000_0000) as u32,
            subchunk1_size: 16,
            audio_format: 1,
            num_channels: (num_channels % 0x1_0000) as u16,
            sample_rate: (sample_rate as u128 % 0x1_0000_0000) as u32,
            byte_rate: eighth_of_product(sample_rate, num_channels, bits_per_sample),
            block_align: (block % 0x1_0000) as u16,
            bits_per_sample: (bits_per_sample % 0x1_0000) as u16,
            subchunk2_size,
        }
    }

    /// Writes the header out.
    #[verifier::rlimit(30)]
    pub fn to_bytes(&self) -> (bytes: [u8; 44])
        ensures
            bytes@ == self.spec_bytes(),
    {
        let bytes: [u8; 44] = [
            0x52,
            0x49,
            0x46,
            0x46,
            byte_of(self.chunk_size, 0),
            byte_of(self.chunk_size, 1),
            byte_of(self.chunk_size, 2),
            byte_of(self.chunk_size, 3),
            0x57,
            0x41,
            0x56,
            0x45,
            0x66,
            0x6d,
            0x74,
            0x20,
            byte_of(self.subchunk1_size, 0),
            byte_of(self.subchunk1_size, 1),
            byte_of(self.subchunk1_size, 2),
            byte_of(self.subchunk1_size, 3),
            byte_of(self.audio_format as u32, 0),
            byte_of(self.audio_format as u32, 1),
            byte_of(self.num_channels as u32, 0),
            byte_of(self.num_channels as u32, 1),
            byte_of(self.sample_rate, 0),
            byte_of(self.sample_rate, 1),
            byte_of(self.sample_rate, 2),
            byte_of(self.sample_rate, 3),
            byte_of(self.byte_rate, 0),
            byte_of(self.byte_rate, 1),
            byte_of(self.byte_rate, 2),
            byte_of(self.byte_rate, 3),
            byte_of(self.block_align as u32, 0),
            byte_of(self.block_align as u32, 1),
            byte_of(self.bits_per_sample as u32, 0),
            byte_of(self.bits_per_sample as u32, 1),
            0x64,
            0x61,
            0x74,
            0x61,
            byte_of(self.subchunk2_size, 0),
            byte_of(self.subchunk2_size, 1),
            byte_of(self.subchunk2_size, 2),
            byte_of(self.subchunk2_size, 3),
        ];
        proof {
            reveal(WavHeader::spec_bytes);
            assert(bytes@ =~= self.spec_bytes());
        }
        bytes
    }
}

/// A square-wave voice as a mathematical value.
pub struct WaveModel {
    /// Samples per second.
    pub sample_rate: nat,
    /// Where the voice stands in its cycle, in thousandths of a sample step:
    /// a cycle is `sample_rate * 1000` long.
    pub phase: int,
    /// The samples gathered so far, in thousandths of full scale.
    pub samples: Seq<i16>,
}

/// The phase one sample later: the frequency in millihertz is added, and the
/// sum is taken modulo the cycle.
pub open spec fn advance(sample_rate: nat, phase: int, frequency: int) -> int {
    if sample_rate == 0 {
        phase
    } else {
        (phase + frequency) % (sample_rate * 1000) as int
    }
}

/// The sample at `phase`: `volume` strictly inside the first half of the
/// cycle, `-volume` elsewhere.
pub open spec fn level(sample_rate: nat, phase: int, volume: int) -> int {
    if 0 < 2 * phase < sample_rate * 1000 {
        volume
    } else {
        -volume
    }
}

/// The number of samples in `ms` milliseconds: whole samples per millisecond
/// times `ms`, held to what a `usize` can count.
pub open spec fn sample_count(sample_rate: nat, ms: nat) -> nat {
    let count = (sample_rate / 1000) * ms;
    if count <= usize::MAX {
        count
    } else {
        usize::MAX as nat
    }
}

/// The voice after `count` more samples of one frequency and volume.
pub open spec fn sound(model: WaveModel, frequency: int, volume: int, count: nat) -> WaveModel
    decreases count,
{
    if count == 0 {
        model
    } else {
        let before = sound(model, frequency, volume, (count - 1) as nat);
        let phase = advance(before.sample_rate, before.phase, frequency);
        WaveModel {
            sample_rate: before.sample_rate,
            phase,
            samples: before.samples.push(level(before.sample_rate, phase, volume) as i16),
        }
    }
}

/// `numerator / 1000`, rounded to the nearest whole number, a half upwards.
pub open spec fn round_thousandths(numerator: nat) -> nat {
    (2 * numerator + 1000) / 2000
}

/// A sample in thousandths of full scale as a signed PCM value whose lowest
/// value is `-lowest`: a negative sample is scaled by `lowest`, another by
/// `lowest - 1`, and the result is rounded to the nearest whole number.
pub open spec fn quantize(sample: int, lowest: nat) -> int {
    if sample < 0 {
        -(round_thousandths((-sample * lowest) as nat) as int)
    } else {
        round_thousandths((sample * (lowest - 1)) as nat) as int
    }
}

/// The bytes of one sample in a stream of `width` bytes per sample (1 or 2):
/// the quantized value in two's complement, low byte first.
pub open spec fn pcm_sample(sample: i16, width: nat) -> Seq<u8> {
    if width == 1 {
        seq![le_byte((quantize(sample as int, 128) % 0x100) as nat, 0)]
    } else {
        let value = (quantize(sample as int, 32768) % 0x1_0000) as nat;
        seq![le_byte(value, 0), le_byte(value, 1)]
    }
}

/// The bytes of `samples`, one after the other.
pub open spec fn pcm(samples: Seq<i16>, width: nat) -> Seq<u8>
    decreases samples.len(),
{
    if samples.len() == 0 {
        Seq::empty()
    } else {
        pcm(samples.drop_last(), width) + pcm_sample(samples.last(), width)
    }
}

/// The mono WAV stream of `samples` at `width` bytes per sample: the header,
/// then the samples.
pub open spec fn wav_stream(sample_rate: nat, samples: Seq<i16>, width: nat) -> Seq<u8> {
    WavHeader::spec_new_pcm(1, sample_rate, 8 * width, samples.len()).spec_bytes() + pcm(
        samples,
        width,
    )
}

/// A sample as a 16-bit PCM value.
fn quantized_16(sample: i16) -> (value: i32)
    requires
        -1000 <= sample <= 1000,
    ensures
        value == quantize(sample as int, 32768),
        -32768 <= value <= 32767,
{
    let wide: i32 = sample as i32;
    if wide < 0 {
        let scaled: i32 = (0 - wide) * 32768;
        -((2 * scaled + 1000) / 2000)
    } else {
        let scaled: i32 = wide * 32767;
        (2 * scaled + 1000) / 2000
    }
}

/// A sample as an 8-bit PCM value.
fn quantized_8(sample: i16) -> (value: i32)
    requires
        -1000 <= sample <= 1000,
    ensures
        value == quantize(sample as int, 128),
        -128 <= value <= 127,
{
    let wide: i32 = sample as i32;
    if wide < 0 {
        let scaled: i32 = (0 - wide) * 128;
        -((2 * scaled + 1000) / 2000)
    } else {
        let scaled: i32 = wide * 127;
        (2 * scaled + 1000) / 2000
    }
}

/// Appends one quantized sample to `bytes`.
fn push_sample(bytes: &mut Vec<u8>, sample: i16, wide: bool)
    requires
        -1000 <= sample <= 1000,
    ensures
        final(bytes)@ == old(bytes)@ + pcm_sample(sample, if wide { 2nat } else { 1nat }),
{
    if wide {
        let value = quantized_16(sample);
        let low: i32 = if value < 0 {
            value + 0x1_0000
        } else {
            value
        };
        assert(low == value as int % 0x1_0000);
        bytes.push((low % 0x100) as u8);
        bytes.push((low / 0x100 % 0x100) as u8);
        assert(final(bytes)@ =~= old(bytes)@ + pcm_sample(sample, 2));
    } else {
        let value = quantized_8(sample);
        let low: i32 = if value < 0 {
            value + 0x100
        } else {
            value
        };
        assert(low == value as int % 0x100);
        bytes.push((low % 0x100) as u8);
        assert(final(bytes)@ =~= old(bytes)@ + pcm_sample(sample, 1));
    }
}

/// Encodes `samples` as a mono WAV stream of one or two bytes per sample.
fn encode(sample_rate: usize, samples: &Vec<i16>, wide: bool) -> (bytes: Vec<u8>)
    requires
        forall|i: int| 0 <= i < samples@.len() ==> -1000 <= #[trigger] samples@[i] <= 1000,
    ensures
        bytes@ == wav_stream(sample_rate as nat, samples@, if wide { 2nat } else { 1nat }),
{
    let ghost width = if wide { 2nat } else { 1nat };
    let header = WavHeader::new_pcm(1, sample_rate, if wide { 16 } else { 8 }, samples.len());
    let head = header.to_bytes();
    let mut bytes: Vec<u8> = Vec::new();
    bytes.extend_from_slice(head.as_slice());
    let mut at: usize = 0;
    assert(samples@.take(0) =~= Seq::<i16>::empty());
    assert(bytes@ =~= head@ + pcm(samples@.take(0), width));
    while at < samples.len()
        invariant
            at <= samples.len(),
            width == if wide { 2nat } else { 1nat },
            forall|i: int| 0 <= i < samples@.len() ==> -1000 <= #[trigger] samples@[i] <= 1000,
            bytes@ == head@ + pcm(samples@.take(at as int), width),
        decreases samples.len() - at,
    {
        let ghost before = bytes@;
        push_sample(&mut bytes, samples[at], wide);
        proof {
            let next = samples@.take(at + 1);
            assert(next.drop_last() =~= samples@.take(at as int));
            assert(next.last() == samples@[at as int]);
            assert(bytes@ =~= before + pcm_sample(samples@[at as int], width));
            assert(bytes@ =~= head@ + pcm(next, width));
        }
        at = at + 1;
    }
    assert(samples@.take(at as int) =~= samples@);
    bytes
}

/// A sink that synthesises a square wave and exports it as PCM.
pub struct SquareWave {
    value: u128,
    sample_rate: usize,
    samples: Vec<i16>,
}

impl View for SquareWave {
    type V = WaveModel;

    closed spec fn view(&self) -> WaveModel {
        WaveModel {
            sample_rate: self.sample_rate as nat,
            phase: self.value as int,
            samples: self.samples@,
        }
    }
}

impl SquareWave {
    #[verifier::type_invariant]
    spec fn well_formed(self) -> bool {
        &&& self.sample_rate > 0 ==> self.value < self.sample_rate * 1000
        &&& forall|i: int|
            0 <= i < self.samples@.len() ==> -1000 <= #[trigger] self.samples@[i] <= 1000
    }

    /// An empty voice at `sample_rate` samples per second.
    pub fn new(sample_rate: usize) -> (wave: SquareWave)
        ensures
            wave@ == (WaveModel {
                sample_rate: sample_rate as nat,
                phase: 0,
                samples: Seq::empty(),
            }),
    {
        SquareWave { value: 0, sample_rate, samples: Vec::new() }
    }

    /// The 8-bit WAV stream of what the voice holds, which stays as it is.
    pub fn export_8_bits(&self) -> (bytes: Vec<u8>)
        ensures
            bytes@ == wav_stream(self@.sample_rate, self@.samples, 1),
    {
        proof {
            use_type_invariant(self);
        }
        encode(self.sample_rate, &self.samples, false)
    }

    /// Takes the samples out and encodes them.
    fn export(&mut self, wide: bool) -> (bytes: Vec<u8>)
        ensures
            bytes@ == wav_stream(
                old(self)@.sample_rate,
                old(self)@.samples,
                if wide { 2nat } else { 1nat },
            ),
            final(self)@ == (WaveModel { samples: Seq::empty(), ..old(self)@ }),
    {
        proof {
            use_type_invariant(&*self);
        }
        let mut samples: Vec<i16> = Vec::new();
        swap(&mut self.samples, &mut samples);
        encode(self.sample_rate, &samples, wide)
    }

    /// Adds the samples of `ms` milliseconds at one frequency and volume.
    fn generate(&mut self, frequency: i64, volume: u16, ms: usize)
        requires
            volume <= 1000,
        ensures
            final(self)@ == sound(
                old(self)@,
                frequency as int,
                volume as int,
                sample_count(old(self)@.sample_rate, ms as nat),
            ),
    {
        proof {
            use_type_invariant(&*self);
        }
        let per_ms = self.sample_rate / 1000;
        let count: usize = match per_ms.checked_mul(ms) {
            Some(count) => count,
            None => usize::MAX,
        };
        let ghost start = self@;
        let sample_rate = self.sample_rate;
        let mut value = self.value;
        let mut samples: Vec<i16> = Vec::new();
        swap(&mut self.samples, &mut samples);
        let mut done: usize = 0;
        while done < count
            invariant
                done <= count,
                volume <= 1000,
                sample_rate > 0 ==> value < sample_rate * 1000,
                forall|i: int| 0 <= i < samples@.len() ==> -1000 <= #[trigger] samples@[i] <= 1000,
                start.sample_rate == sample_rate,
                (WaveModel {
                    sample_rate: sample_rate as nat,
                    phase: value as int,
                    samples: samples@,
                }) == sound(start, frequency as int, volume as int, done as nat),
            decreases count - done,
        {
            value = sample(&mut samples, sample_rate, value, frequency, volume);
            done = done + 1;
        }
        self.value = value;
        self.samples = samples;
    }
}

impl Default for SquareWave {
    /// An empty voice at 44100 samples per second.
    fn default() -> (wave: SquareWave)
        ensures
            wave@ == (WaveModel { sample_rate: 44100, phase: 0, samples: Seq::empty() }),
    {
        SquareWave { value: 0, sample_rate: 44100, samples: Vec::new() }
    }
}

impl PlayerPassThrough for SquareWave {
    type Model = WaveModel;

    open spec fn model(&self) -> WaveModel {
        self@
    }

    /// A tone adds `sample_count` samples of the square wave.
    open spec fn model_play(model: WaveModel, frequency: int, volume: int, ms: nat) -> WaveModel {
        sound(model, frequency, volume, sample_count(model.sample_rate, ms))
    }

    /// A silence adds `sample_count` samples of value zero and leaves the
    /// phase where it is.
    open spec fn model_pause(model: WaveModel, ms: nat) -> WaveModel {
        sound(model, 0, 0, sample_count(model.sample_rate, ms))
    }

    open spec fn model_wav_16(model: WaveModel) -> Seq<u8> {
        wav_stream(model.sample_rate, model.samples, 2)
    }

    open spec fn model_wav_8(model: WaveModel) -> Seq<u8> {
        wav_stream(model.sample_rate, model.samples, 1)
    }

    /// An export takes the samples and keeps the rate and the phase.
    open spec fn model_drained(model: WaveModel) -> WaveModel {
        WaveModel { samples: Seq::empty(), ..model }
    }

    fn play_frequency(&mut self, frequency: i64, volume: u16, ms: usize) {
        self.generate(frequency, volume, ms);
    }

    fn pause(&mut self, ms: usize) {
        self.generate(0, 0, ms);
    }

    fn wav_16_bytes(&mut self) -> (bytes: Vec<u8>) {
        self.export(true)
    }

    fn wav_8_bytes(&mut self) -> (bytes: Vec<u8>) {
        self.export(false)
    }
}

/// Moves the phase `value` on by one sample and appends that sample.
fn sample(
    samples: &mut Vec<i16>,
    sample_rate: usize,
    value: u128,
    frequency: i64,
    volume: u16,
) -> (next: u128)
    requires
        volume <= 1000,
        sample_rate > 0 ==> value < sample_rate * 1000,
    ensures
        next == advance(sample_rate as nat, value as int, frequency as int),
        sample_rate > 0 ==> next < sample_rate * 1000,
        final(samples)@ == old(samples)@.push(
            level(sample_rate as nat, next as int, volume as int) as i16,
        ),
{
    let mut next = value;
    let mut high = false;
    if sample_rate > 0 {
        let period: i128 = sample_rate as i128 * 1000;
        let moved: i128 = value as i128 + frequency as i128;
        let mut phase: i128 = moved % period;
        proof {
            if moved < 0 {
                let back = -(moved as int);
                lemma_fundamental_div_mod(back, period as int);
                let quotient = back / (period as int);
                assert((-quotient) * (period as int) == -((period as int) * quotient)
                    && (-quotient - 1) * (period as int) == -((period as int) * quotient) - (
                period as int)) by (nonlinear_arith);
                if back % (period as int) == 0 {
                    lemma_fundamental_div_mod_converse(moved as int, period as int, -quotient, 0);
                } else {
                    lemma_fundamental_div_mod_converse(
                        moved as int,
                        period as int,
                        -quotient - 1,
                        period - back % (period as int),
                    );
                }
            }
        }
        if phase < 0 {
            phase = phase + period;
        }
        next = phase as u128;
        high = 0 < phase && 2 * phase < period;
    }
    if high {
        samples.push(volume as i16);
    } else {
        samples.push(-(volume as i16));
    }
    next
}

/// A number below 2^16 is spelled back by its two little-endian bytes.
pub proof fn lemma_le_u16_round_trip(value: nat)
    requires
        value < 0x1_0000,
    ensures
        le_byte(value, 0) as nat + 0x100 * le_byte(value, 1) as nat == value,
{
    let second = value / 0x100;
    assert(value == 0x100 * second + value % 0x100);
    assert(second < 0x100);
}

/// A number below 2^32 is spelled back by its four little-endian bytes.
pub proof fn lemma_le_u32_round_trip(value: nat)
    requires
        value < 0x1_0000_0000,
    ensures
        le_byte(value, 0) as nat + 0x100 * le_byte(value, 1) as nat + 0x1_0000 * le_byte(
            value,
            2,
        ) as nat + 0x100_0000 * le_byte(value, 3) as nat == value,
{
    let second = value / 0x100;
    let third = second / 0x100;
    let fourth = third / 0x100;
    assert(value == 0x100 * second + value % 0x100);
    assert(second == 0x100 * third + second % 0x100);
    assert(third == 0x100 * fourth + third % 0x100);
    assert(third == value / 0x1_0000);
    assert(fourth == value / 0x100_0000);
    assert(fourth < 0x100);
}

/// Where each byte of a header's fields stands among its 44 bytes.
#[verifier::rlimit(30)]
pub proof fn lemma_header_layout(header: WavHeader)
    ensures
        header.spec_bytes().len() == 44,
        header.spec_bytes().subrange(0, 4) == seq![0x52u8, 0x49u8, 0x46u8, 0x46u8],
        header.spec_bytes().subrange(8, 16) == seq![
            0x57u8,
            0x41u8,
            0x56u8,
            0x45u8,
            0x66u8,
            0x6du8,
            0x74u8,
            0x20u8,
        ],
        header.spec_bytes().subrange(36, 40) == seq![0x64u8, 0x61u8, 0x74u8, 0x61u8],
        header.spec_bytes()[4] == le_byte(header.chunk_size as nat, 0),
        header.spec_bytes()[5] == le_byte(header.chunk_size as nat, 1),
        header.spec_bytes()[6] == le_byte(header.chunk_size as nat, 2),
        header.spec_bytes()[7] == le_byte(header.chunk_size as nat, 3),
        header.spec_bytes()[16] == le_byte(header.subchunk1_size as nat, 0),
        header.spec_bytes()[17] == le_byte(header.subchunk1_size as nat, 1),
        header.spec_bytes()[18] == le_byte(header.subchunk1_size as nat, 2),
        header.spec_bytes()[19] == le_byte(header.subchunk1_size as nat, 3),
        header.spec_bytes()[20] == le_byte(header.audio_format as nat, 0),
        header.spec_bytes()[21] == le_byte(header.audio_format as nat, 1),
        header.spec_bytes()[22] == le_byte(header.num_channels as nat, 0),
        header.spec_bytes()[23] == le_byte(header.num_channels as nat, 1),
        header.spec_bytes()[24] == le_byte(header.sample_rate as nat, 0),
        header.spec_bytes()[25] == le_byte(header.sample_rate as nat, 1),
        header.spec_bytes()[26] == le_byte(header.sample_rate as nat, 2),
        header.spec_bytes()[27] == le_byte(header.sample_rate as nat, 3),
        header.spec_bytes()[28] == le_byte(header.byte_rate as nat, 0),
        header.spec_bytes()[29] == le_byte(header.byte_rate as nat, 1),
        header.spec_bytes()[30] == le_byte(header.byte_rate as nat, 2),
        header.spec_bytes()[31] == le_byte(header.byte_rate as nat, 3),
        header.spec_bytes()[32] == le_byte(header.block_align as nat, 0),
        header.spec_bytes()[33] == le_byte(header.block_align as nat, 1),
        header.spec_bytes()[34] == le_byte(header.bits_per_sample as nat, 0),
        header.spec_bytes()[35] == le_byte(header.bits_per_sample as nat, 1),
        header.spec_bytes()[40] == le_byte(header.subchunk2_size as nat, 0),
        header.spec_bytes()[41] == le_byte(header.subchunk2_size as nat, 1),
        header.spec_bytes()[42] == le_byte(header.subchunk2_size as nat, 2),
        header.spec_bytes()[43] == le_byte(header.subchunk2_size as nat, 3),
{
    reveal(WavHeader::spec_bytes);
    let bytes = header.spec_bytes();
    assert(bytes.subrange(0, 4) =~= seq![0x52u8, 0x49u8, 0x46u8, 0x46u8]);
    assert(bytes.subrange(8, 16) =~= seq![
        0x57u8,
        0x41u8,
        0x56u8,
        0x45u8,
        0x66u8,
        0x6du8,
        0x74u8,
        0x20u8,
    ]);
    assert(bytes.subrange(36, 40) =~= seq![0x64u8, 0x61u8, 0x74u8, 0x61u8]);
}

/// A header is 44 bytes long, and each of its fields is read back from its
/// place in them.
pub proof fn lemma_header_decodes(header: WavHeader)
    ensures
        header.spec_bytes().len() == 44,
        le_u32_at(header.spec_bytes(), 4) == header.chunk_size,
        le_u32_at(header.spec_bytes(), 16) == header.subchunk1_size,
        le_u16_at(header.spec_bytes(), 20) == header.audio_format,
        le_u16_at(header.spec_bytes(), 22) == header.num_channels,
        le_u32_at(header.spec_bytes(), 24) == header.sample_rate,
        le_u32_at(header.spec_bytes(), 28) == header.byte_rate,
        le_u16_at(header.spec_bytes(), 32) == header.block_align,
        le_u16_at(header.spec_bytes(), 34) == header.bits_per_sample,
        le_u32_at(header.spec_bytes(), 40) == header.subchunk2_size,
{
    lemma_header_layout(header);
    lemma_le_u32_round_trip(header.chunk_size as nat);
    lemma_le_u32_round_trip(header.subchunk1_size as nat);
    lemma_le_u16_round_trip(header.audio_format as nat);
    lemma_le_u16_round_trip(header.num_channels as nat);
    lemma_le_u32_round_trip(header.sample_rate as nat);
    lemma_le_u32_round_trip(header.byte_rate as nat);
    lemma_le_u16_round_trip(header.block_align as nat);
    lemma_le_u16_round_trip(header.bits_per_sample as nat);
    lemma_le_u32_round_trip(header.subchunk2_size as nat);
}

/// The samples of a stream take `width` bytes each.
pub proof fn lemma_pcm_len(samples: Seq<i16>, width: nat)
    requires
        width == 1 || width == 2,
    ensures
        pcm(samples, width).len() == samples.len() * width,
    decreases samples.len(),
{
    if samples.len() > 0 {
        lemma_pcm_len(samples.drop_last(), width);
        assert(samples.len() * width == samples.drop_last().len() * width + width)
            by (nonlinear_arith)
            requires
                samples.len() == samples.drop_last().len() + 1,
        ;
    }
}

/// What stands in the first part of a byte string is read from that part
/// alone.
pub proof fn lemma_prefix_reads(head: Seq<u8>, tail: Seq<u8>, at: int)
    requires
        0 <= at,
        at + 4 <= head.len(),
    ensures
        le_u16_at(head + tail, at) == le_u16_at(head, at),
        le_u32_at(head + tail, at) == le_u32_at(head, at),
{
}

/// The fields of a header are read back from a stream that starts with it.
pub proof fn lemma_stream_reads_header(header: WavHeader, tail: Seq<u8>)
    ensures
        (header.spec_bytes() + tail).len() == 44 + tail.len(),
        le_u32_at(header.spec_bytes() + tail, 4) == header.chunk_size,
        le_u16_at(header.spec_bytes() + tail, 20) == header.audio_format,
        le_u16_at(header.spec_bytes() + tail, 22) == header.num_channels,
        le_u32_at(header.spec_bytes() + tail, 24) == header.sample_rate,
        le_u32_at(header.spec_bytes() + tail, 28) == header.byte_rate,
        le_u16_at(header.spec_bytes() + tail, 32) == header.block_align,
        le_u16_at(header.spec_bytes() + tail, 34) == header.bits_per_sample,
        le_u32_at(header.spec_bytes() + tail, 40) == header.subchunk2_size,
{
    let head = header.spec_bytes();
    lemma_header_decodes(header);
    lemma_prefix_reads(head, tail, 4);
    lemma_prefix_reads(head, tail, 20);
    lemma_prefix_reads(head, tail, 22);
    lemma_prefix_reads(head, tail, 24);
    lemma_prefix_reads(head, tail, 28);
    lemma_prefix_reads(head, tail, 32);
    lemma_prefix_reads(head, tail, 34);
    lemma_prefix_reads(head, tail, 40);
}

/// The header fields of a mono stream of `count` samples of `width` bytes,
/// where `data` is the size of the samples and `rate` that of a second.
pub proof fn lemma_mono_header_fields(
    sample_rate: nat,
    count: nat,
    width: nat,
    data: nat,
    rate: nat,
)
    requires
        width == 1 || width == 2,
        data == count * width,
        rate == sample_rate * width,
    ensures
        ({
            let header = WavHeader::spec_new_pcm(1, sample_rate, 8 * width, count);
            &&& header.audio_format == 1
            &&& header.num_channels == 1
            &&& header.bits_per_sample == 8 * width
            &&& header.block_align == width
            &&& header.sample_rate == sample_rate % 0x1_0000_0000
            &&& header.byte_rate == rate % 0x1_0000_0000
            &&& header.subchunk2_size == data % 0x1_0000_0000
            &&& header.chunk_size == (data % 0x1_0000_0000 + 36) % 0x1_0000_0000
        }),
{
    reveal(eighth_of_product_u32);
    assert(count * 1 * (8 * width) / 8 == count * width) by (nonlinear_arith)
        requires
            width == 1 || width == 2,
    ;
    assert(sample_rate * 1 * (8 * width) / 8 == sample_rate * width) by (nonlinear_arith)
        requires
            width == 1 || width == 2,
    ;
    assert(1 * (8 * width) / 8 == width) by (nonlinear_arith)
        requires
            width == 1 || width == 2,
    ;
}

/// A stream of `S` samples of `width` bytes is `44 + S * width` bytes long,
/// starts with its header, and that header reads back as PCM, one channel,
/// `8 * width` bits per sample, and as the sample rate and the size of the
/// data wherever these fit their 32 bits.
pub proof fn lemma_wav_stream_shape(sample_rate: nat, samples: Seq<i16>, width: nat)
    requires
        width == 1 || width == 2,
    ensures
        wav_stream(sample_rate, samples, width).len() == 44 + samples.len() * width,
        le_u16_at(wav_stream(sample_rate, samples, width), 20) == 1,
        le_u16_at(wav_stream(sample_rate, samples, width), 22) == 1,
        le_u16_at(wav_stream(sample_rate, samples, width), 34) == 8 * width,
        le_u16_at(wav_stream(sample_rate, samples, width), 32) == width,
        sample_rate <= u32::MAX ==> le_u32_at(wav_stream(sample_rate, samples, width), 24)
            == sample_rate,
        sample_rate * width <= u32::MAX ==> le_u32_at(wav_stream(sample_rate, samples, width), 28)
            == sample_rate * width,
        samples.len() * width <= u32::MAX ==> le_u32_at(
            wav_stream(sample_rate, samples, width),
            40,
        ) == samples.len() * width,
        samples.len() * width + 36 <= u32::MAX ==> le_u32_at(
            wav_stream(sample_rate, samples, width),
            4,
        ) == samples.len() * width + 36,
{
    let header = WavHeader::spec_new_pcm(1, sample_rate, 8 * width, samples.len());
    let data = samples.len() * width;
    let rate = sample_rate * width;
    lemma_stream_reads_header(header, pcm(samples, width));
    lemma_mono_header_fields(sample_rate, samples.len(), width, data, rate);
    lemma_pcm_len(samples, width);
    lemma_small_or_cut(sample_rate);
    lemma_small_or_cut(rate);
    lemma_small_or_cut(data);
    lemma_small_or_cut(data + 36);
}

/// A number that fits 32 bits is not changed by being cut to them.
proof fn lemma_small_or_cut(value: nat)
    ensures
        value <= u32::MAX ==> value % 0x1_0000_0000 == value,
{
}

/// Sounding adds one sample per step, each of them the volume or its
/// negative, and keeps the rate and the samples that were there.
pub proof fn lemma_sound_shape(model: WaveModel, frequency: int, volume: int, count: nat)
    requires
        0 <= volume <= 1000,
    ensures
        sound(model, frequency, volume, count).sample_rate == model.sample_rate,
        sound(model, frequency, volume, count).samples.len() == model.samples.len() + count,
        sound(model, frequency, volume, count).samples.take(model.samples.len() as int)
            == model.samples,
        forall|i: int|
            model.samples.len() <= i < model.samples.len() + count ==> {
                let sample = #[trigger] sound(model, frequency, volume, count).samples[i];
                sample == volume || sample == -volume
            },
    decreases count,
{
    let after = sound(model, frequency, volume, count);
    if count == 0 {
        assert(after.samples.take(model.samples.len() as int) =~= model.samples);
    } else {
        let before = sound(model, frequency, volume, (count - 1) as nat);
        lemma_sound_shape(model, frequency, volume, (count - 1) as nat);
        assert(after.samples.take(model.samples.len() as int) =~= before.samples.take(
            model.samples.len() as int,
        ));
        assert forall|i: int| model.samples.len() <= i < model.samples.len() + count implies {
            let sample = #[trigger] after.samples[i];
            sample == volume || sample == -volume
        } by {
            if i < before.samples.len() {
                assert(after.samples[i] == before.samples[i]);
            }
        }
    }
}

/// A silence adds samples of value zero and leaves the voice where it
/// stands in its cycle.
pub proof fn lemma_silence_is_zero(model: WaveModel, count: nat)
    requires
        model.sample_rate > 0 ==> 0 <= model.phase < model.sample_rate * 1000,
    ensures
        sound(model, 0, 0, count) == (WaveModel {
            samples: model.samples + Seq::new(count, |i: int| 0i16),
            ..model
        }),
    decreases count,
{
    let zeros = Seq::new(count, |i: int| 0i16);
    if count == 0 {
        assert(model.samples + zeros =~= model.samples);
    } else {
        let fewer = Seq::new((count - 1) as nat, |i: int| 0i16);
        lemma_silence_is_zero(model, (count - 1) as nat);
        if model.sample_rate > 0 {
            lemma_small_mod(model.phase as nat, (model.sample_rate * 1000) as nat);
        }
        assert((model.samples + fewer).push(0i16) =~= model.samples + zeros);
    }
}

/// A voice that has been exported holds no samples: the next export, with
/// nothing played in between, is the 44 bytes of a header for no data.
pub proof fn lemma_second_export_is_header_only(model: WaveModel)
    ensures
        SquareWave::model_wav_16(SquareWave::model_drained(model)) == WavHeader::spec_new_pcm(
            1,
            model.sample_rate,
            16,
            0,
        ).spec_bytes(),
        SquareWave::model_wav_16(SquareWave::model_drained(model)).len() == 44,
        SquareWave::model_wav_8(SquareWave::model_drained(model)) == WavHeader::spec_new_pcm(
            1,
            model.sample_rate,
            8,
            0,
        ).spec_bytes(),
        SquareWave::model_wav_8(SquareWave::model_drained(model)).len() == 44,
{
    let empty = Seq::<i16>::empty();
    lemma_header_decodes(WavHeader::spec_new_pcm(1, model.sample_rate, 16, 0));
    lemma_header_decodes(WavHeader::spec_new_pcm(1, model.sample_rate, 8, 0));
    assert(wav_stream(model.sample_rate, empty, 2) =~= WavHeader::spec_new_pcm(
        1,
        model.sample_rate,
        16,
        0,
    ).spec_bytes());
    assert(wav_stream(model.sample_rate, empty, 1) =~= WavHeader::spec_new_pcm(
        1,
        model.sample_rate,
        8,
        0,
    ).spec_bytes());
}

} // verus!
