use ipa_navigator_kokoro::audio::encode_wav;

fn le16(b: &[u8], i: usize) -> u16 {
    u16::from_le_bytes([b[i], b[i + 1]])
}

fn le32(b: &[u8], i: usize) -> u32 {
    u32::from_le_bytes([b[i], b[i + 1], b[i + 2], b[i + 3]])
}

#[test]
fn encoding_three_samples_gives_a_mono_16_bit_24k_container() {
    let samples: Vec<i16> = [0.0f32, 1.0, -1.0]
        .iter()
        .map(|s| (s.clamp(-1.0, 1.0) * i16::MAX as f32) as i16)
        .collect();
    let wav = encode_wav(&samples);
    assert!(wav.len() > 44);
    assert_eq!(wav.len(), 44 + 6);
    assert_eq!(&wav[0..4], b"RIFF");
    assert_eq!(&wav[8..12], b"WAVE");
    assert_eq!(le16(&wav, 20), 1);
    assert_eq!(le16(&wav, 22), 1);
    assert_eq!(le32(&wav, 24), 24000);
    assert_eq!(le16(&wav, 34), 16);
    assert_eq!(le32(&wav, 40), 6);
    assert_eq!(&wav[44..50], &[0x00, 0x00, 0xff, 0x7f, 0x01, 0x80]);
}

#[test]
fn empty_waveform_is_header_only() {
    let wav = encode_wav(&[]);
    assert_eq!(wav.len(), 44);
    assert_eq!(&wav[36..40], b"data");
}
