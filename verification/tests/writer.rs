use num::traits::{Bounded, FromPrimitive, Num, Zero};
use synthrs::errors::{IoErrorKind, ParseErrorKind, SynthrsError};
use synthrs::synthesizer::quantization_levels;
use synthrs::writer::{read_wav, write_pcm, write_wav, Wave};

fn eof<T>() -> Result<T, SynthrsError> {
    Err(SynthrsError::Io(IoErrorKind::UnexpectedEof))
}

fn parse<T>(kind: ParseErrorKind) -> Result<T, SynthrsError> {
    Err(SynthrsError::Parse(kind))
}

fn quantize_sample<T>(input: f64) -> T
where
    T: Num + FromPrimitive + Bounded + Zero,
{
    let levels = quantization_levels(std::mem::size_of::<T>()).unwrap() as f64;
    T::from_f64(input * (levels / 2.0)).unwrap_or(T::zero())
}

fn sine_samples(length: f64, sample_rate: usize, frequency: f64) -> Vec<i16> {
    let num_samples = (sample_rate as f64 * length).floor() as usize;
    (0..num_samples)
        .map(|i| {
            let t = i as f64 / sample_rate as f64;
            quantize_sample::<i16>((t * frequency * 2.0 * std::f64::consts::PI).sin())
        })
        .collect()
}

#[test]
fn test_write_read_wav() {
    let bytes = write_wav(44_100, &sine_samples(0.1, 44_100, 440.0)).unwrap();

    let wave = read_wav(&bytes).unwrap();
    assert_eq!(wave.format, 0x5741_5645); // WAVE
    assert_eq!(wave.audio_format, 1);
    assert_eq!(wave.num_channels, 1);
    assert_eq!(wave.sample_rate, 44_100);
    assert_eq!(wave.byte_rate, 88_200);
    assert_eq!(wave.block_align, 2);
    assert_eq!(wave.bits_per_sample, 16);
    assert_eq!(wave.subchunk_2_size, 8820);
    assert_eq!(wave.pcm.len(), 8820);
}

#[test]
fn pcm_is_little_endian() {
    assert_eq!(write_pcm(&[]), Vec::<u8>::new());
    assert_eq!(write_pcm(&[1]), vec![0x01, 0x00]);
    assert_eq!(write_pcm(&[0x1234, -2]), vec![0x34, 0x12, 0xfe, 0xff]);
    assert_eq!(write_pcm(&[i16::MAX, i16::MIN, -1, 0]), vec![0xff, 0x7f, 0x00, 0x80, 0xff, 0xff, 0, 0]);
}

#[test]
fn wav_header_layout() {
    let bytes = write_wav(44_100, &[1, -1, 0x0102]).unwrap();
    let expected: Vec<u8> = vec![
        b'R', b'I', b'F', b'F', 42, 0, 0, 0, b'W', b'A', b'V', b'E', // RIFF, 36 + 6, WAVE
        b'f', b'm', b't', b' ', 16, 0, 0, 0, 1, 0, 1, 0, // fmt, 16, PCM, mono
        0x44, 0xac, 0, 0, 0x88, 0x58, 0x01, 0, 2, 0, 16, 0, // rate, byte rate, align, bits
        b'd', b'a', b't', b'a', 6, 0, 0, 0, // data, 6 bytes
        1, 0, 0xff, 0xff, 0x02, 0x01,
    ];
    assert_eq!(bytes, expected);
    assert_eq!(write_wav(8000, &[]).unwrap().len(), 44);
}

#[test]
fn wav_round_trip_keeps_the_samples() {
    let samples: Vec<i16> = vec![0, 1, -1, 300, -300, i16::MAX, i16::MIN];
    let wave = read_wav(&write_wav(22_050, &samples).unwrap()).unwrap();
    let mut pcm = samples.clone();
    pcm.extend(vec![0i16; samples.len()]);
    let expected = Wave {
        chunk_id: 0x5249_4646,
        chunk_size: 36 + 14,
        format: 0x5741_5645,
        subchunk_1_id: 0x666d_7420,
        subchunk_1_size: 16,
        audio_format: 1,
        num_channels: 1,
        sample_rate: 22_050,
        byte_rate: 44_100,
        block_align: 2,
        bits_per_sample: 16,
        subchunk_2_id: 0x6461_7461,
        subchunk_2_size: 14,
        pcm,
    };
    assert_eq!(wave, expected);
}

#[test]
fn write_wav_refuses_more_samples_than_the_size_fields_hold() {
    // The samples are never touched, so the pages are never mapped.
    let limit = (i32::MAX as usize - 36) / 2;
    let samples = vec![0i16; limit + 1];
    assert_eq!(write_wav(44_100, &samples), parse(ParseErrorKind::TooManySamples));
    assert_eq!(write_wav(usize::MAX, &samples), parse(ParseErrorKind::TooManySamples));
}

#[test]
fn write_wav_refuses_what_the_header_cannot_hold() {
    assert_eq!(write_wav(0x4000_0000, &[0]), parse(ParseErrorKind::SampleRateTooHigh));
    assert_eq!(write_wav(usize::MAX, &[]), parse(ParseErrorKind::SampleRateTooHigh));
    assert!(write_wav(0x3fff_ffff, &[0]).is_ok());
    let wave = read_wav(&write_wav(0x3fff_ffff, &[0]).unwrap()).unwrap();
    assert_eq!(wave.sample_rate, 0x3fff_ffff);
    assert_eq!(wave.byte_rate, 0x7fff_fffe);
}

fn wav(fmt_size: i32, extension: &[u8], data_tag: &[u8; 4], data_size: i32, data: &[u8]) -> Vec<u8> {
    let mut bytes = b"RIFF".to_vec();
    bytes.extend(100i32.to_le_bytes());
    bytes.extend(b"WAVEfmt ");
    bytes.extend(fmt_size.to_le_bytes());
    bytes.extend(1i16.to_le_bytes());
    bytes.extend(1i16.to_le_bytes());
    bytes.extend(8000i32.to_le_bytes());
    bytes.extend(16000i32.to_le_bytes());
    bytes.extend(2i16.to_le_bytes());
    bytes.extend(16i16.to_le_bytes());
    bytes.extend(extension);
    bytes.extend(data_tag);
    bytes.extend(data_size.to_le_bytes());
    bytes.extend(data);
    bytes
}

#[test]
fn read_wav_pads_missing_samples_with_zero() {
    let wave = read_wav(&wav(16, &[], b"data", 4, &[1, 0, 2, 0, 3])).unwrap();
    assert_eq!(wave.subchunk_2_size, 4);
    assert_eq!(wave.pcm, vec![1, 2, 0, 0]);
    let wave = read_wav(&wav(16, &[], b"data", 2, &[1, 0, 2, 0, 3, 0])).unwrap();
    assert_eq!(wave.pcm, vec![1, 2]);
    let wave = read_wav(&wav(16, &[], b"data", 0, &[1, 0])).unwrap();
    assert_eq!(wave.pcm, Vec::<i16>::new());
    assert_eq!(wave.chunk_size, 100);
    assert_eq!(wave.sample_rate, 8000);
}

#[test]
fn read_wav_passes_over_a_format_extension() {
    let wave = read_wav(&wav(18, &[0, 0], b"data", 1, &[0xfe, 0xff])).unwrap();
    assert_eq!(wave.subchunk_1_size, 18);
    assert_eq!(wave.pcm, vec![-2]);
    let wave = read_wav(&wav(40, &[22, 0, 1, 2, 3, 4, 5, 6], b"data", 1, &[7, 0])).unwrap();
    assert_eq!(wave.pcm, vec![7]);
    // A format chunk of 16 bytes or fewer has no extension.
    let wave = read_wav(&wav(12, &[], b"data", 1, &[7, 0])).unwrap();
    assert_eq!(wave.subchunk_1_size, 12);
    assert_eq!(wave.pcm, vec![7]);
}

#[test]
fn read_wav_errors() {
    let good = wav(16, &[], b"data", 1, &[7, 0]);
    assert_eq!(read_wav(&[]), eof());
    for cut in 0..44 {
        assert_eq!(read_wav(&good[..cut]), eof(), "cut at {}", cut);
    }
    assert!(read_wav(&good[..44]).is_ok());

    let mut bytes = good.clone();
    bytes[8] = b'w';
    assert_eq!(read_wav(&bytes), parse(ParseErrorKind::NotWave));
    assert_eq!(read_wav(&bytes[..12]), parse(ParseErrorKind::NotWave));
    let mut bytes = good.clone();
    bytes[20] = 3;
    assert_eq!(read_wav(&bytes), parse(ParseErrorKind::UnsupportedAudioFormat));
    assert_eq!(read_wav(&wav(18, &[5, 0], b"data", 0, &[])), parse(ParseErrorKind::BadExtensionSize));
    assert_eq!(read_wav(&wav(18, &[0, 1], b"data", 0, &[])), parse(ParseErrorKind::BadExtensionSize));
    assert_eq!(read_wav(&wav(16, &[], b"LIST", 0, &[])), parse(ParseErrorKind::MissingDataChunk));
    assert_eq!(read_wav(&wav(16, &[], b"data", -1, &[])), parse(ParseErrorKind::NegativeDataSize));
    let extended = wav(40, &[22, 0, 1, 2, 3, 4, 5, 6], b"data", 0, &[]);
    assert_eq!(extended.len(), 52);
    for cut in 36..52 {
        assert_eq!(read_wav(&extended[..cut]), eof(), "cut at {}", cut);
    }
    assert!(read_wav(&extended).is_ok());
}

#[test]
fn read_wav_takes_the_first_tags_as_they_come() {
    let mut bytes = wav(16, &[], b"data", 1, &[7, 0]);
    bytes[0] = b'X';
    bytes[12] = b'g';
    let wave = read_wav(&bytes).unwrap();
    assert_eq!(wave.chunk_id, 0x5849_4646);
    assert_eq!(wave.subchunk_1_id, 0x676d_7420);
    assert_eq!(wave.subchunk_2_id, 0x6461_7461);
}
