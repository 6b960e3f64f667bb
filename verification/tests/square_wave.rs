use ansimusic::{PlayerPassThrough, SquareWave, WavHeader};

fn header(sample_rate: u32, bits: u16, data: u32) -> Vec<u8> {
    let mut bytes = Vec::new();
    bytes.extend_from_slice(b"RIFF");
    bytes.extend_from_slice(&(data + 36).to_le_bytes());
    bytes.extend_from_slice(b"WAVEfmt ");
    bytes.extend_from_slice(&16u32.to_le_bytes());
    bytes.extend_from_slice(&1u16.to_le_bytes());
    bytes.extend_from_slice(&1u16.to_le_bytes());
    bytes.extend_from_slice(&sample_rate.to_le_bytes());
    bytes.extend_from_slice(&(sample_rate * (bits as u32 / 8)).to_le_bytes());
    bytes.extend_from_slice(&(bits / 8).to_le_bytes());
    bytes.extend_from_slice(&bits.to_le_bytes());
    bytes.extend_from_slice(b"data");
    bytes.extend_from_slice(&data.to_le_bytes());
    bytes
}

fn samples_16(wav: &[u8]) -> Vec<i16> {
    wav[44..].chunks(2).map(|pair| i16::from_le_bytes([pair[0], pair[1]])).collect()
}

fn samples_8(wav: &[u8]) -> Vec<i8> {
    wav[44..].iter().map(|byte| *byte as i8).collect()
}

#[test]
fn wav_test() {
    let mut wave = SquareWave::new(22050);
    wave.play_frequency(440_000, 300, 250);
    let buf = wave.export_8_bits();
    assert_eq!(buf.len(), 44 + 22 * 250);
    assert_eq!(&buf[..44], &header(22050, 8, 5500)[..]);
    assert!(samples_8(&buf).iter().all(|sample| *sample == 38 || *sample == -38));
    assert_eq!(wave.export_8_bits(), buf);
    assert_eq!(wave.wav_8_bytes(), buf);
}

#[test]
fn header_of_a_thousand_samples() {
    let header = WavHeader::new_pcm(1, 44100, 16, 1000);
    assert_eq!(
        header,
        WavHeader {
            chunk_size: 2036,
            subchunk1_size: 16,
            audio_format: 1,
            num_channels: 1,
            sample_rate: 44100,
            byte_rate: 88200,
            block_align: 2,
            bits_per_sample: 16,
            subchunk2_size: 2000,
        }
    );
    assert_eq!(
        header.to_bytes(),
        [
            0x52, 0x49, 0x46, 0x46, 0xf4, 0x07, 0x00, 0x00, 0x57, 0x41, 0x56, 0x45, 0x66, 0x6d,
            0x74, 0x20, 0x10, 0x00, 0x00, 0x00, 0x01, 0x00, 0x01, 0x00, 0x44, 0xac, 0x00, 0x00,
            0x88, 0x58, 0x01, 0x00, 0x02, 0x00, 0x10, 0x00, 0x64, 0x61, 0x74, 0x61, 0xd0, 0x07,
            0x00, 0x00,
        ]
    );
}

#[test]
fn header_of_other_shapes() {
    let stereo = WavHeader::new_pcm(2, 48000, 24, 10);
    assert_eq!(stereo.num_channels, 2);
    assert_eq!(stereo.bits_per_sample, 24);
    assert_eq!(stereo.block_align, 6);
    assert_eq!(stereo.byte_rate, 288_000);
    assert_eq!(stereo.subchunk2_size, 60);
    assert_eq!(stereo.chunk_size, 96);
    let odd = WavHeader::new_pcm(1, 7, 12, 3);
    assert_eq!(odd.block_align, 1);
    assert_eq!(odd.byte_rate, 10);
    assert_eq!(odd.subchunk2_size, 4);
    let none = WavHeader::new_pcm(0, 0, 0, 0);
    assert_eq!(none.chunk_size, 36);
    assert_eq!(none.subchunk2_size, 0);
    assert_eq!(none.to_bytes().to_vec(), {
        let mut bytes = header(0, 0, 0);
        bytes[22] = 0;
        bytes
    });
}

#[test]
fn header_fields_keep_their_low_bits() {
    let header = WavHeader::new_pcm(0x1_0001, usize::MAX, 0x2_0010, 0);
    assert_eq!(header.num_channels, 1);
    assert_eq!(header.bits_per_sample, 0x10);
    assert_eq!(header.sample_rate, 0xffff_ffff);
    let full = WavHeader::new_pcm(1, 1, 16, usize::MAX);
    assert_eq!(full.subchunk2_size, 0xffff_fffe);
    assert_eq!(full.chunk_size, 34);
    let large = WavHeader::new_pcm(usize::MAX, usize::MAX, usize::MAX, usize::MAX);
    let cube = (usize::MAX as u128 % (1 << 35)).pow(3) % (1 << 35);
    assert_eq!(large.subchunk2_size as u128, cube / 8);
    assert_eq!(large.byte_rate as u128, cube / 8);
    let square = (usize::MAX as u128 % (1 << 19)).pow(2) % (1 << 19);
    assert_eq!(large.block_align as u128, square / 8);
}

#[test]
fn a_square_wave_is_high_inside_the_first_half_of_its_cycle() {
    let mut wave = SquareWave::new(8000);
    wave.play_frequency(2_000_000, 1000, 1);
    let wav = wave.wav_16_bytes();
    assert_eq!(&wav[..44], &header(8000, 16, 16)[..]);
    assert_eq!(
        samples_16(&wav),
        vec![32767, -32768, -32768, -32768, 32767, -32768, -32768, -32768]
    );
    let mut wave = SquareWave::new(8000);
    wave.play_frequency(1_000_000, 1000, 1);
    assert_eq!(
        samples_16(&wave.wav_16_bytes()),
        vec![32767, 32767, 32767, -32768, -32768, -32768, -32768, -32768]
    );
    let mut wave = SquareWave::new(8000);
    wave.play_frequency(440_000, 1000, 2);
    assert_eq!(
        samples_16(&wave.wav_16_bytes()),
        vec![
            32767, 32767, 32767, 32767, 32767, 32767, 32767, 32767, 32767, -32768, -32768, -32768,
            -32768, -32768, -32768, -32768,
        ]
    );
}

#[test]
fn a_frequency_may_be_negative_or_above_the_rate() {
    let mut wave = SquareWave::new(8000);
    wave.play_frequency(-2_000_000, 1000, 1);
    assert_eq!(
        samples_16(&wave.wav_16_bytes()),
        vec![-32768, -32768, 32767, -32768, -32768, -32768, 32767, -32768]
    );
    let mut wave = SquareWave::new(8000);
    wave.play_frequency(10_000_000, 1000, 1);
    assert_eq!(
        samples_16(&wave.wav_16_bytes()),
        vec![32767, -32768, -32768, -32768, 32767, -32768, -32768, -32768]
    );
    let mut wave = SquareWave::new(8000);
    wave.play_frequency(i64::MIN, 1000, 1);
    wave.play_frequency(i64::MAX, 1000, 1);
    assert_eq!(wave.wav_16_bytes().len(), 44 + 32);
    let mut wave = SquareWave::new(8000);
    wave.play_frequency(0, 1000, 1);
    assert_eq!(samples_16(&wave.wav_16_bytes()), vec![-32768; 8]);
}

#[test]
fn samples_are_rounded_to_the_nearest_value() {
    let mut wave = SquareWave::new(2000);
    wave.play_frequency(500_000, 200, 1);
    assert_eq!(wave.export_8_bits()[44..], [0x19, 0xe6]);
    let wav = wave.wav_16_bytes();
    assert_eq!(wav[44..], [0x99, 0x19, 0x66, 0xe6]);
    assert_eq!(samples_16(&wav), vec![6553, -6554]);
    let mut wave = SquareWave::new(2000);
    wave.play_frequency(500_000, 500, 1);
    assert_eq!(samples_8(&wave.export_8_bits()), vec![64, -64]);
    assert_eq!(samples_16(&wave.wav_16_bytes()), vec![16384, -16384]);
    let mut wave = SquareWave::new(2000);
    wave.play_frequency(500_000, 1, 1);
    assert_eq!(samples_8(&wave.export_8_bits()), vec![0, 0]);
    assert_eq!(samples_16(&wave.wav_16_bytes()), vec![33, -33]);
    let mut wave = SquareWave::new(2000);
    wave.play_frequency(500_000, 4, 1);
    assert_eq!(samples_8(&wave.export_8_bits()), vec![1, -1]);
    let mut wave = SquareWave::new(2000);
    wave.play_frequency(500_000, 1000, 1);
    assert_eq!(samples_8(&wave.wav_8_bytes()), vec![127, -128]);
    let mut wave = SquareWave::new(2000);
    wave.play_frequency(500_000, 0, 1);
    assert_eq!(samples_16(&wave.wav_16_bytes()), vec![0, 0]);
}

#[test]
fn a_pause_is_silent_and_keeps_the_phase() {
    let mut wave = SquareWave::new(1000);
    wave.play_frequency(250_000, 1000, 1);
    wave.pause(2);
    wave.play_frequency(250_000, 1000, 3);
    wave.pause(0);
    wave.play_frequency(250_000, 1000, 1);
    assert_eq!(
        samples_16(&wave.wav_16_bytes()),
        vec![32767, 0, 0, -32768, -32768, -32768, 32767]
    );
}

#[test]
fn an_export_keeps_the_phase() {
    let mut wave = SquareWave::new(1000);
    wave.play_frequency(250_000, 1000, 3);
    assert_eq!(samples_16(&wave.wav_16_bytes()), vec![32767, -32768, -32768]);
    wave.play_frequency(250_000, 1000, 3);
    assert_eq!(samples_16(&wave.wav_16_bytes()), vec![-32768, 32767, -32768]);
}

#[test]
fn whole_samples_per_millisecond_are_counted() {
    let mut wave = SquareWave::new(44_999);
    wave.play_frequency(440_000, 200, 3);
    wave.pause(2);
    assert_eq!(wave.wav_16_bytes().len(), 44 + 2 * 44 * 5);
    let mut slow = SquareWave::new(999);
    slow.play_frequency(440_000, 200, 1000);
    slow.pause(1000);
    assert_eq!(slow.wav_16_bytes(), header(999, 16, 0));
    let mut none = SquareWave::new(0);
    none.play_frequency(440_000, 200, 1000);
    assert_eq!(none.wav_8_bytes(), header(0, 8, 0));
    let mut brief = SquareWave::new(44_100);
    brief.play_frequency(440_000, 200, 0);
    assert_eq!(brief.wav_16_bytes(), header(44_100, 16, 0));
}

#[test]
fn the_stream_is_the_header_and_the_samples() {
    for (rate, ms) in [(1000usize, 0usize), (1000, 1), (8000, 3), (22_050, 10), (44_100, 7)] {
        let mut wave = SquareWave::new(rate);
        wave.play_frequency(440_000, 200, ms);
        let count = rate / 1000 * ms;
        let narrow = wave.export_8_bits();
        let wide = wave.wav_16_bytes();
        assert_eq!(narrow.len(), 44 + count);
        assert_eq!(wide.len(), 44 + count * 2);
        assert_eq!(&narrow[..44], &header(rate as u32, 8, count as u32)[..]);
        assert_eq!(&wide[..44], &header(rate as u32, 16, count as u32 * 2)[..]);
        assert_eq!(u16::from_le_bytes([wide[20], wide[21]]), 1);
        assert_eq!(u16::from_le_bytes([wide[22], wide[23]]), 1);
        assert_eq!(u32::from_le_bytes([wide[24], wide[25], wide[26], wide[27]]), rate as u32);
        assert_eq!(u16::from_le_bytes([wide[34], wide[35]]), 16);
        assert_eq!(u16::from_le_bytes([narrow[34], narrow[35]]), 8);
    }
}

#[test]
fn a_second_export_is_the_header_alone() {
    let mut wave = SquareWave::new(8000);
    wave.play_frequency(440_000, 200, 5);
    assert_eq!(wave.wav_16_bytes().len(), 44 + 80);
    assert_eq!(wave.wav_16_bytes(), header(8000, 16, 0));
    assert_eq!(wave.wav_8_bytes(), header(8000, 8, 0));
    wave.pause(1);
    assert_eq!(wave.wav_8_bytes().len(), 44 + 8);
    assert_eq!(wave.wav_8_bytes().len(), 44);
    assert_eq!(wave.export_8_bits().len(), 44);
}

#[test]
fn a_new_voice_is_empty() {
    assert_eq!(SquareWave::default().wav_16_bytes(), header(44_100, 16, 0));
    assert_eq!(SquareWave::new(44_800).wav_16_bytes(), header(44_800, 16, 0));
    assert_eq!(SquareWave::new(11_025).export_8_bits(), header(11_025, 8, 0));
}
