//! The audio container: mono 16-bit PCM at 24 kHz, written by `hound`.
use vstd::prelude::*;

verus! {

/// Sample rate of synthesized audio, in Hz.
pub const SAMPLE_RATE: u32 = 24000;

/// Bytes of the container's header before the samples.
pub const WAV_HEADER_LEN: usize = 44;

/// The little-endian 16-bit value at byte `i` of `b`.
pub open spec fn le16_at(b: Seq<u8>, i: int) -> int {
    b[i] as int + 256 * b[i + 1] as int
}

/// The little-endian 32-bit value at byte `i` of `b`.
pub open spec fn le32_at(b: Seq<u8>, i: int) -> int {
    b[i] as int + 256 * b[i + 1] as int + 65536 * b[i + 2] as int + 16777216 * b[i + 3] as int
}

/// `b` is a RIFF/WAVE container with a PCM format chunk of `channels`
/// channels at `rate` Hz and 16 bits per sample, holding `samples` in order,
/// each as a little-endian two's-complement 16-bit value.
pub open spec fn is_pcm16_wav(b: Seq<u8>, channels: int, rate: int, samples: Seq<i16>) -> bool {
    &&& pcm16_header(b, channels, rate, samples.len() as int)
    &&& forall|k: int|
        0 <= k < samples.len() ==> le16_at(b, WAV_HEADER_LEN + 2 * k) == (#[trigger] samples[k]
            as int) % 65536
}

/// The header of a RIFF/WAVE container with a PCM format chunk of
/// `channels` channels at `rate` Hz and 16 bits per sample, and room for `n`
/// samples after it.
pub open spec fn pcm16_header(b: Seq<u8>, channels: int, rate: int, n: int) -> bool {
    &&& b.len() == WAV_HEADER_LEN + 2 * n
    &&& b.subrange(0, 4) == seq![0x52u8, 0x49, 0x46, 0x46]
    &&& b.subrange(8, 12) == seq![0x57u8, 0x41, 0x56, 0x45]
    &&& b.subrange(12, 16) == seq![0x66u8, 0x6d, 0x74, 0x20]
    &&& le16_at(b, 20) == 1
    &&& le16_at(b, 22) == channels
    &&& le32_at(b, 24) == rate
    &&& le16_at(b, 34) == 16
    &&& b.subrange(36, 40) == seq![0x64u8, 0x61, 0x74, 0x61]
    &&& le32_at(b, 40) == 2 * n
}

/// Relies on `hound::WavWriter` (new, write_sample, finalize) over an
/// in-memory cursor: for at most two channels and 16 bits, hound writes the
/// 44-byte PCMWAVEFORMAT header, then each sample as a little-endian `i16`.
#[verifier::external_body]
fn pcm16_container(samples: &[i16], channels: u16, rate: u32) -> (r: Vec<u8>)
    requires
        1 <= channels <= 2,
        rate > 0,
        samples@.len() % (channels as nat) == 0,
        samples@.len() < 0x4000_0000,
        rate * 2 * channels <= u32::MAX,
    ensures
        is_pcm16_wav(r@, channels as int, rate as int, samples@),
{
    let spec = hound::WavSpec {
        channels,
        sample_rate: rate,
        bits_per_sample: 16,
        sample_format: hound::SampleFormat::Int,
    };
    let mut buffer: Vec<u8> = Vec::new();
    let mut writer = hound::WavWriter::new(std::io::Cursor::new(&mut buffer), spec).unwrap();
    for s in samples {
        writer.write_sample(*s).unwrap();
    }
    writer.finalize().unwrap();
    buffer
}

/// Encodes 16-bit samples as a mono 24 kHz container.
pub fn encode_wav(samples: &[i16]) -> (r: Vec<u8>)
    requires
        samples@.len() < 0x4000_0000,
    ensures
        is_pcm16_wav(r@, 1, SAMPLE_RATE as int, samples@),
        r@.len() > WAV_HEADER_LEN <==> samples@.len() > 0,
{
    pcm16_container(samples, 1, SAMPLE_RATE)
}

} // verus!
