//! Raw PCM and WAVE as bytes: samples to bytes and bytes to samples.
//!
//! Samples are signed 16-bit numbers, little-endian, one channel.

use crate::endian::{
    be32, be32_bytes, le16, le16_bytes, le32, le32_bytes, lemma_be32_round_trip,
    lemma_le16_round_trip, lemma_le32_round_trip, pattern16, pattern32, read_i16_le, read_i32_be,
    read_i32_le, signed16, signed32, write_i16_le, write_i32_be, write_i32_le,
};
use crate::errors::{IoErrorKind, ParseErrorKind, SynthrsError};
use vstd::prelude::*;
use vstd::slice::slice_subrange;

verus! {

/// The tag `RIFF` as a big-endian number.
pub const RIFF_TAG: i32 = 0x5249_4646;

/// The tag `WAVE` as a big-endian number.
pub const WAVE_TAG: i32 = 0x5741_5645;

/// The tag `fmt ` as a big-endian number.
pub const FMT_TAG: i32 = 0x666d_7420;

/// The tag `data` as a big-endian number.
pub const DATA_TAG: i32 = 0x6461_7461;

/// The samples as raw PCM: two bytes each, low byte first.
pub open spec fn pcm_bytes(samples: Seq<i16>) -> Seq<u8>
    decreases samples.len(),
{
    if samples.len() == 0 {
        Seq::<u8>::empty()
    } else {
        pcm_bytes(samples.drop_last()) + le16_bytes(pattern16(samples.last() as int))
    }
}

/// Raw PCM has two bytes for each sample, those of sample `k` at `2k`.
pub proof fn lemma_pcm_bytes(samples: Seq<i16>)
    ensures
        pcm_bytes(samples).len() == 2 * samples.len(),
        forall|k: int|
            0 <= k < samples.len() ==> #[trigger] pcm_bytes(samples).subrange(2 * k, 2 * k + 2)
                == le16_bytes(pattern16(samples[k] as int)),
    decreases samples.len(),
{
    if samples.len() > 0 {
        let head = samples.drop_last();
        lemma_pcm_bytes(head);
        let tail = le16_bytes(pattern16(samples.last() as int));
        assert forall|k: int| 0 <= k < samples.len() implies #[trigger] pcm_bytes(
            samples,
        ).subrange(2 * k, 2 * k + 2) == le16_bytes(pattern16(samples[k] as int)) by {
            if k < head.len() {
                assert(pcm_bytes(samples).subrange(2 * k, 2 * k + 2) =~= pcm_bytes(head).subrange(
                    2 * k,
                    2 * k + 2,
                ));
                assert(head[k] == samples[k]);
            } else {
                assert(pcm_bytes(samples).subrange(2 * k, 2 * k + 2) =~= tail);
            }
        }
    }
}

/// Serialises samples as raw PCM.
pub fn write_pcm(samples: &[i16]) -> (out: Vec<u8>)
    ensures
        out@ == pcm_bytes(samples@),
{
    let mut out: Vec<u8> = Vec::new();
    let n: usize = samples.len();
    let mut i: usize = 0;
    assert(samples@.take(0) =~= Seq::<i16>::empty());
    while i < n
        invariant
            n == samples@.len(),
            i <= n,
            out@ == pcm_bytes(samples@.take(i as int)),
        decreases n - i,
    {
        let pair: [u8; 2] = write_i16_le(samples[i]);
        let ghost before = out@;
        out.push(pair[0]);
        out.push(pair[1]);
        proof {
            assert(samples@.take(i + 1).drop_last() =~= samples@.take(i as int));
            assert(samples@.take(i + 1).last() == samples@[i as int]);
            assert(out@ =~= before + pair@);
        }
        i = i + 1;
    }
    assert(samples@.take(n as int) =~= samples@);
    out
}

/// The 44 bytes that precede the samples of a WAVE file of `count` samples
/// at `sample_rate` samples per second: one channel, 16 bits per sample,
/// linear PCM.
pub open spec fn wav_header(sample_rate: int, count: int) -> Seq<u8> {
    be32_bytes(RIFF_TAG as int) + le32_bytes(36 + 2 * count) + be32_bytes(WAVE_TAG as int)
        + be32_bytes(FMT_TAG as int) + le32_bytes(16) + le16_bytes(1) + le16_bytes(1)
        + le32_bytes(sample_rate) + le32_bytes(2 * sample_rate) + le16_bytes(2) + le16_bytes(16)
        + be32_bytes(DATA_TAG as int) + le32_bytes(2 * count)
}

/// A WAVE file of these samples.
pub open spec fn wav_bytes(sample_rate: int, samples: Seq<i16>) -> Seq<u8> {
    wav_header(sample_rate, samples.len() as int) + pcm_bytes(samples)
}

/// Appends four bytes.
fn put4(out: &mut Vec<u8>, bytes: [u8; 4])
    ensures
        final(out)@ == old(out)@ + bytes@,
{
    out.push(bytes[0]);
    out.push(bytes[1]);
    out.push(bytes[2]);
    out.push(bytes[3]);
    assert(final(out)@ =~= old(out)@ + bytes@);
}

/// Appends two bytes.
fn put2(out: &mut Vec<u8>, bytes: [u8; 2])
    ensures
        final(out)@ == old(out)@ + bytes@,
{
    out.push(bytes[0]);
    out.push(bytes[1]);
    assert(final(out)@ =~= old(out)@ + bytes@);
}

/// Serialises samples as a WAVE file: the header, then the samples as raw
/// PCM.
///
/// The sizes and rates of the header are 32-bit signed fields. Samples whose
/// bytes with the header's 36 do not fit one are refused, and so is a sample
/// rate whose byte rate does not fit.
pub fn write_wav(sample_rate: usize, samples: &[i16]) -> (r: Result<Vec<u8>, SynthrsError>)
    ensures
        36 + 2 * samples@.len() > i32::MAX ==> r == Err::<Vec<u8>, SynthrsError>(
            SynthrsError::Parse(ParseErrorKind::TooManySamples),
        ),
        36 + 2 * samples@.len() <= i32::MAX && 2 * sample_rate > i32::MAX ==> r == Err::<
            Vec<u8>,
            SynthrsError,
        >(SynthrsError::Parse(ParseErrorKind::SampleRateTooHigh)),
        36 + 2 * samples@.len() <= i32::MAX && 2 * sample_rate <= i32::MAX ==> (r matches Ok(out)
            && out@ == wav_bytes(sample_rate as int, samples@)),
{
    if samples.len() > (i32::MAX as usize - 36) / 2 {
        return Err(SynthrsError::Parse(ParseErrorKind::TooManySamples));
    }
    if sample_rate > (i32::MAX as usize) / 2 {
        return Err(SynthrsError::Parse(ParseErrorKind::SampleRateTooHigh));
    }
    // One channel of 16 bits: two bytes per sample.
    let channels: i16 = 1;
    let bit_depth: i16 = 16;
    let block_align: i16 = 2;
    let subchunk_2_size: usize = samples.len() * 2;
    let chunk_size: i32 = 36 + subchunk_2_size as i32;
    let byte_rate: i32 = (sample_rate * 2) as i32;

    let mut out: Vec<u8> = Vec::new();
    put4(&mut out, write_i32_be(RIFF_TAG));
    put4(&mut out, write_i32_le(chunk_size));
    put4(&mut out, write_i32_be(WAVE_TAG));

    put4(&mut out, write_i32_be(FMT_TAG));
    put4(&mut out, write_i32_le(16));
    put2(&mut out, write_i16_le(1));
    put2(&mut out, write_i16_le(channels));
    put4(&mut out, write_i32_le(sample_rate as i32));
    put4(&mut out, write_i32_le(byte_rate));
    put2(&mut out, write_i16_le(block_align));
    put2(&mut out, write_i16_le(bit_depth));

    put4(&mut out, write_i32_be(DATA_TAG));
    put4(&mut out, write_i32_le(subchunk_2_size as i32));
    assert(out@ =~= wav_header(sample_rate as int, samples@.len() as int));

    let mut payload: Vec<u8> = write_pcm(samples);
    out.append(&mut payload);
    Ok(out)
}

/// A WAVE file read into its fields. Fields of extended formats are not
/// kept.
#[derive(Debug, Clone, PartialEq, Eq)]
pub struct Wave {
    pub chunk_id: i32,
    pub chunk_size: i32,
    pub format: i32,
    pub subchunk_1_id: i32,
    pub subchunk_1_size: i32,
    /// 1 = PCM
    pub audio_format: i16,
    pub num_channels: i16,
    pub sample_rate: i32,
    pub byte_rate: i32,
    pub block_align: i16,
    pub bits_per_sample: i16,
    pub subchunk_2_id: i32,
    pub subchunk_2_size: i32,
    pub pcm: Vec<i16>,
}

/// What a `Wave` holds, as mathematical values.
pub struct WaveData {
    pub chunk_id: i32,
    pub chunk_size: i32,
    pub format: i32,
    pub subchunk_1_id: i32,
    pub subchunk_1_size: i32,
    pub audio_format: i16,
    pub num_channels: i16,
    pub sample_rate: i32,
    pub byte_rate: i32,
    pub block_align: i16,
    pub bits_per_sample: i16,
    pub subchunk_2_id: i32,
    pub subchunk_2_size: i32,
    pub pcm: Seq<i16>,
}

impl View for Wave {
    type V = WaveData;

    open spec fn view(&self) -> WaveData {
        WaveData {
            chunk_id: self.chunk_id,
            chunk_size: self.chunk_size,
            format: self.format,
            subchunk_1_id: self.subchunk_1_id,
            subchunk_1_size: self.subchunk_1_size,
            audio_format: self.audio_format,
            num_channels: self.num_channels,
            sample_rate: self.sample_rate,
            byte_rate: self.byte_rate,
            block_align: self.block_align,
            bits_per_sample: self.bits_per_sample,
            subchunk_2_id: self.subchunk_2_id,
            subchunk_2_size: self.subchunk_2_size,
            pcm: self.pcm@,
        }
    }
}

/// The big-endian signed number in the four bytes from `at`.
pub open spec fn i32_be_at(bytes: Seq<u8>, at: int) -> i32 {
    signed32(be32(bytes.subrange(at, at + 4))) as i32
}

/// The little-endian signed number in the four bytes from `at`.
pub open spec fn i32_le_at(bytes: Seq<u8>, at: int) -> i32 {
    signed32(le32(bytes.subrange(at, at + 4))) as i32
}

/// The little-endian signed number in the two bytes from `at`.
pub open spec fn i16_le_at(bytes: Seq<u8>, at: int) -> i16 {
    signed16(le16(bytes.subrange(at, at + 2))) as i16
}

/// Whether the format chunk is longer than the 16 bytes of plain PCM, so
/// that an extension size follows it.
pub open spec fn has_extension(bytes: Seq<u8>) -> bool {
    i32_le_at(bytes, 16) > 16
}

/// Where the data chunk starts: after the 36 bytes up to the end of the
/// plain format chunk, after an extension size of 0, or after an extension
/// size of 22 and the three 16-bit fields read of it.
pub open spec fn data_chunk_start(bytes: Seq<u8>) -> int {
    if !has_extension(bytes) {
        36
    } else if i16_le_at(bytes, 36) == 22 {
        44
    } else {
        38
    }
}

/// Sample `k` of the data that starts at `start`: the two bytes at
/// `start + 2k`, or 0 where the input ends before them.
pub open spec fn pcm_sample(bytes: Seq<u8>, start: int, k: int) -> i16 {
    if start + 2 * k + 2 <= bytes.len() {
        i16_le_at(bytes, start + 2 * k)
    } else {
        0
    }
}

/// The `Wave` that a byte sequence decodes to.
///
/// The form type must be `WAVE`, the audio format 1, an extension size 0 or
/// 22, and the chunk after the format chunk `data`. The first tag, the
/// format chunk's tag and the sizes are taken as they come. There are as
/// many samples as the data chunk's size says, although that size counts
/// bytes: samples beyond the end of the input are 0.
pub open spec fn spec_read_wav(bytes: Seq<u8>) -> Result<WaveData, SynthrsError> {
    let p = data_chunk_start(bytes);
    if bytes.len() < 12 {
        Err(SynthrsError::eof())
    } else if i32_be_at(bytes, 8) != WAVE_TAG {
        Err(SynthrsError::Parse(ParseErrorKind::NotWave))
    } else if bytes.len() < 22 {
        Err(SynthrsError::eof())
    } else if i16_le_at(bytes, 20) != 1 {
        Err(SynthrsError::Parse(ParseErrorKind::UnsupportedAudioFormat))
    } else if bytes.len() < 36 {
        Err(SynthrsError::eof())
    } else if has_extension(bytes) && bytes.len() < 38 {
        Err(SynthrsError::eof())
    } else if has_extension(bytes) && i16_le_at(bytes, 36) != 22 && i16_le_at(bytes, 36) != 0 {
        Err(SynthrsError::Parse(ParseErrorKind::BadExtensionSize))
    } else if bytes.len() < p + 4 {
        Err(SynthrsError::eof())
    } else if i32_be_at(bytes, p) != DATA_TAG {
        Err(SynthrsError::Parse(ParseErrorKind::MissingDataChunk))
    } else if bytes.len() < p + 8 {
        Err(SynthrsError::eof())
    } else if i32_le_at(bytes, p + 4) < 0 {
        Err(SynthrsError::Parse(ParseErrorKind::NegativeDataSize))
    } else {
        Ok(
            WaveData {
                chunk_id: i32_be_at(bytes, 0),
                chunk_size: i32_le_at(bytes, 4),
                format: i32_be_at(bytes, 8),
                subchunk_1_id: i32_be_at(bytes, 12),
                subchunk_1_size: i32_le_at(bytes, 16),
                audio_format: i16_le_at(bytes, 20),
                num_channels: i16_le_at(bytes, 22),
                sample_rate: i32_le_at(bytes, 24),
                byte_rate: i32_le_at(bytes, 28),
                block_align: i16_le_at(bytes, 32),
                bits_per_sample: i16_le_at(bytes, 34),
                subchunk_2_id: i32_be_at(bytes, p),
                subchunk_2_size: i32_le_at(bytes, p + 4),
                pcm: Seq::new(
                    i32_le_at(bytes, p + 4) as nat,
                    |k: int| pcm_sample(bytes, p + 8, k),
                ),
            },
        )
    }
}

/// The big-endian signed number at `at`.
fn get_i32_be(bytes: &[u8], at: usize) -> (v: i32)
    requires
        at + 4 <= bytes@.len(),
    ensures
        v == i32_be_at(bytes@, at as int),
{
    proof {
        vstd::slice::axiom_spec_len(bytes);
    }
    read_i32_be(slice_subrange(bytes, at, at + 4))
}

/// The little-endian signed number at `at`.
fn get_i32_le(bytes: &[u8], at: usize) -> (v: i32)
    requires
        at + 4 <= bytes@.len(),
    ensures
        v == i32_le_at(bytes@, at as int),
{
    proof {
        vstd::slice::axiom_spec_len(bytes);
    }
    read_i32_le(slice_subrange(bytes, at, at + 4))
}

/// The little-endian signed 16-bit number at `at`.
fn get_i16_le(bytes: &[u8], at: usize) -> (v: i16)
    requires
        at + 2 <= bytes@.len(),
    ensures
        v == i16_le_at(bytes@, at as int),
{
    proof {
        vstd::slice::axiom_spec_len(bytes);
    }
    read_i16_le(slice_subrange(bytes, at, at + 2))
}

/// Decodes a WAVE file held in memory. Only one channel of 16-bit
/// little-endian signed PCM is understood.
pub fn read_wav(bytes: &[u8]) -> (r: Result<Wave, SynthrsError>)
    ensures
        match spec_read_wav(bytes@) {
            Ok(data) => r matches Ok(wave) && wave@ == data,
            Err(e) => r matches Err(err) && err == e,
        },
{
    let len: usize = bytes.len();
    if len < 12 {
        return Err(SynthrsError::Io(IoErrorKind::UnexpectedEof));
    }
    let chunk_id: i32 = get_i32_be(bytes, 0);
    let chunk_size: i32 = get_i32_le(bytes, 4);
    let format: i32 = get_i32_be(bytes, 8);
    if format != WAVE_TAG {
        return Err(SynthrsError::Parse(ParseErrorKind::NotWave));
    }
    if len < 22 {
        return Err(SynthrsError::Io(IoErrorKind::UnexpectedEof));
    }
    let subchunk_1_id: i32 = get_i32_be(bytes, 12);
    let subchunk_1_size: i32 = get_i32_le(bytes, 16);
    let audio_format: i16 = get_i16_le(bytes, 20);
    if audio_format != 1 {
        return Err(SynthrsError::Parse(ParseErrorKind::UnsupportedAudioFormat));
    }
    if len < 36 {
        return Err(SynthrsError::Io(IoErrorKind::UnexpectedEof));
    }
    let num_channels: i16 = get_i16_le(bytes, 22);
    let sample_rate: i32 = get_i32_le(bytes, 24);
    let byte_rate: i32 = get_i32_le(bytes, 28);
    let block_align: i16 = get_i16_le(bytes, 32);
    let bits_per_sample: i16 = get_i16_le(bytes, 34);

    let mut pos: usize = 36;
    if subchunk_1_size > 16 {
        if len < 38 {
            return Err(SynthrsError::Io(IoErrorKind::UnexpectedEof));
        }
        let extension_size: i16 = get_i16_le(bytes, 36);
        if extension_size == 22 {
            pos = 44;
        } else if extension_size != 0 {
            return Err(SynthrsError::Parse(ParseErrorKind::BadExtensionSize));
        } else {
            pos = 38;
        }
    }
    if len - 4 < pos {
        return Err(SynthrsError::Io(IoErrorKind::UnexpectedEof));
    }
    let subchunk_2_id: i32 = get_i32_be(bytes, pos);
    if subchunk_2_id != DATA_TAG {
        return Err(SynthrsError::Parse(ParseErrorKind::MissingDataChunk));
    }
    if len - 8 < pos {
        return Err(SynthrsError::Io(IoErrorKind::UnexpectedEof));
    }
    let subchunk_2_size: i32 = get_i32_le(bytes, pos + 4);
    if subchunk_2_size < 0 {
        return Err(SynthrsError::Parse(ParseErrorKind::NegativeDataSize));
    }
    let start: usize = pos + 8;
    let mut pcm: Vec<i16> = Vec::new();
    let mut k: i32 = 0;
    let mut at: usize = start;
    while k < subchunk_2_size
        invariant
            0 <= k <= subchunk_2_size,
            len == bytes@.len(),
            start <= 52,
            start <= len,
            at <= len,
            at == start + 2 * k || (at == len - 1 && at < start + 2 * k) || (at == len && at
                <= start + 2 * k),
            pcm@.len() == k,
            forall|j: int| 0 <= j < k ==> #[trigger] pcm@[j] == pcm_sample(bytes@, start as int, j),
        decreases subchunk_2_size - k,
    {
        let sample: i16 = if len - at >= 2 {
            let s: i16 = get_i16_le(bytes, at);
            at = at + 2;
            s
        } else {
            0
        };
        pcm.push(sample);
        k = k + 1;
    }
    let wave = Wave {
        chunk_id,
        chunk_size,
        format,
        subchunk_1_id,
        subchunk_1_size,
        audio_format,
        num_channels,
        sample_rate,
        byte_rate,
        block_align,
        bits_per_sample,
        subchunk_2_id,
        subchunk_2_size,
        pcm,
    };
    assert(wave@.pcm =~= spec_read_wav(bytes@)->Ok_0.pcm);
    Ok(wave)
}

/// The header has 44 bytes, and each field stands at its offset.
proof fn lemma_header_layout(sample_rate: int, count: int)
    ensures
        wav_header(sample_rate, count).len() == 44,
        wav_header(sample_rate, count).subrange(0, 4) == be32_bytes(RIFF_TAG as int),
        wav_header(sample_rate, count).subrange(4, 8) == le32_bytes(36 + 2 * count),
        wav_header(sample_rate, count).subrange(8, 12) == be32_bytes(WAVE_TAG as int),
        wav_header(sample_rate, count).subrange(12, 16) == be32_bytes(FMT_TAG as int),
        wav_header(sample_rate, count).subrange(16, 20) == le32_bytes(16),
        wav_header(sample_rate, count).subrange(20, 22) == le16_bytes(1),
        wav_header(sample_rate, count).subrange(22, 24) == le16_bytes(1),
        wav_header(sample_rate, count).subrange(24, 28) == le32_bytes(sample_rate),
        wav_header(sample_rate, count).subrange(28, 32) == le32_bytes(2 * sample_rate),
        wav_header(sample_rate, count).subrange(32, 34) == le16_bytes(2),
        wav_header(sample_rate, count).subrange(34, 36) == le16_bytes(16),
        wav_header(sample_rate, count).subrange(36, 40) == be32_bytes(DATA_TAG as int),
        wav_header(sample_rate, count).subrange(40, 44) == le32_bytes(2 * count),
{
    let h = wav_header(sample_rate, count);
    assert(h.len() == 44);
    assert(h.subrange(0, 4) =~= be32_bytes(RIFF_TAG as int));
    assert(h.subrange(4, 8) =~= le32_bytes(36 + 2 * count));
    assert(h.subrange(8, 12) =~= be32_bytes(WAVE_TAG as int));
    assert(h.subrange(12, 16) =~= be32_bytes(FMT_TAG as int));
    assert(h.subrange(16, 20) =~= le32_bytes(16));
    assert(h.subrange(20, 22) =~= le16_bytes(1));
    assert(h.subrange(22, 24) =~= le16_bytes(1));
    assert(h.subrange(24, 28) =~= le32_bytes(sample_rate));
    assert(h.subrange(28, 32) =~= le32_bytes(2 * sample_rate));
    assert(h.subrange(32, 34) =~= le16_bytes(2));
    assert(h.subrange(34, 36) =~= le16_bytes(16));
    assert(h.subrange(36, 40) =~= be32_bytes(DATA_TAG as int));
    assert(h.subrange(40, 44) =~= le32_bytes(2 * count));
}

/// A field of the header is a field of the file.
proof fn lemma_field_of_file(header: Seq<u8>, body: Seq<u8>, from: int, to: int)
    requires
        0 <= from <= to <= header.len(),
    ensures
        (header + body).subrange(from, to) == header.subrange(from, to),
{
    assert((header + body).subrange(from, to) =~= header.subrange(from, to));
}

/// The fields that a reader finds in a written header.
proof fn lemma_header_fields(sample_rate: usize, count: int, body: Seq<u8>)
    requires
        0 <= count,
        36 + 2 * count <= i32::MAX,
        2 * sample_rate <= i32::MAX,
    ensures
        ({
            let bytes = wav_header(sample_rate as int, count) + body;
            &&& bytes.len() == 44 + body.len()
            &&& i32_be_at(bytes, 0) == RIFF_TAG
            &&& i32_le_at(bytes, 4) == 36 + 2 * count
            &&& i32_be_at(bytes, 8) == WAVE_TAG
            &&& i32_be_at(bytes, 12) == FMT_TAG
            &&& i32_le_at(bytes, 16) == 16
            &&& i16_le_at(bytes, 20) == 1
            &&& i16_le_at(bytes, 22) == 1
            &&& i32_le_at(bytes, 24) == sample_rate
            &&& i32_le_at(bytes, 28) == 2 * sample_rate
            &&& i16_le_at(bytes, 32) == 2
            &&& i16_le_at(bytes, 34) == 16
            &&& i32_be_at(bytes, 36) == DATA_TAG
            &&& i32_le_at(bytes, 40) == 2 * count
        }),
{
    let rate = sample_rate as int;
    let header = wav_header(rate, count);
    lemma_header_layout(rate, count);
    lemma_field_of_file(header, body, 0, 4);
    lemma_field_of_file(header, body, 4, 8);
    lemma_field_of_file(header, body, 8, 12);
    lemma_field_of_file(header, body, 12, 16);
    lemma_field_of_file(header, body, 16, 20);
    lemma_field_of_file(header, body, 20, 22);
    lemma_field_of_file(header, body, 22, 24);
    lemma_field_of_file(header, body, 24, 28);
    lemma_field_of_file(header, body, 28, 32);
    lemma_field_of_file(header, body, 32, 34);
    lemma_field_of_file(header, body, 34, 36);
    lemma_field_of_file(header, body, 36, 40);
    lemma_field_of_file(header, body, 40, 44);
    lemma_be32_round_trip(RIFF_TAG);
    lemma_be32_round_trip(WAVE_TAG);
    lemma_be32_round_trip(FMT_TAG);
    lemma_be32_round_trip(DATA_TAG);
    lemma_le32_round_trip((36 + 2 * count) as i32);
    lemma_le32_round_trip(16i32);
    lemma_le32_round_trip(rate as i32);
    lemma_le32_round_trip((2 * rate) as i32);
    lemma_le32_round_trip((2 * count) as i32);
    lemma_le16_round_trip(1i16);
    lemma_le16_round_trip(2i16);
    lemma_le16_round_trip(16i16);
}

/// What reading back a written file gives.
///
/// The header fields come back as written and the samples come back first
/// in `pcm`. As the data size counts bytes and the reader takes it for a
/// count of samples, `pcm` is twice as long as the samples, and 0 beyond
/// them.
pub proof fn lemma_wav_round_trip(sample_rate: usize, samples: Seq<i16>)
    requires
        36 + 2 * samples.len() <= i32::MAX,
        2 * sample_rate <= i32::MAX,
    ensures
        spec_read_wav(wav_bytes(sample_rate as int, samples)) matches Ok(wave) && {
            &&& wave.chunk_id == RIFF_TAG
            &&& wave.chunk_size == 36 + 2 * samples.len()
            &&& wave.format == WAVE_TAG
            &&& wave.subchunk_1_id == FMT_TAG
            &&& wave.subchunk_1_size == 16
            &&& wave.audio_format == 1
            &&& wave.num_channels == 1
            &&& wave.sample_rate == sample_rate
            &&& wave.byte_rate == 2 * sample_rate
            &&& wave.block_align == 2
            &&& wave.bits_per_sample == 16
            &&& wave.subchunk_2_id == DATA_TAG
            &&& wave.subchunk_2_size == 2 * samples.len()
            &&& wave.pcm.len() == 2 * samples.len()
            &&& wave.pcm.subrange(0, samples.len() as int) == samples
            &&& forall|k: int| samples.len() <= k < 2 * samples.len() ==> wave.pcm[k] == 0
        },
{
    let n = samples.len() as int;
    let body = pcm_bytes(samples);
    let bytes = wav_bytes(sample_rate as int, samples);
    lemma_pcm_bytes(samples);
    lemma_header_fields(sample_rate, n, body);
    lemma_header_layout(sample_rate as int, n);
    assert(!has_extension(bytes));
    assert(data_chunk_start(bytes) == 36);
    assert(spec_read_wav(bytes) is Ok);
    let wave = spec_read_wav(bytes)->Ok_0;
    assert forall|k: int| 0 <= k < n implies wave.pcm[k] == samples[k] by {
        assert(bytes.subrange(44 + 2 * k, 44 + 2 * k + 2) =~= body.subrange(2 * k, 2 * k + 2));
        lemma_le16_round_trip(samples[k]);
    }
    assert(wave.pcm.subrange(0, n) =~= samples);
}

} // verus!
