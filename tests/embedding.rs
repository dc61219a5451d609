use ipa_navigator_kokoro::embedding::{decode_embedding, VoiceStore, EMBEDDING_BYTES};
use ipa_navigator_kokoro::error::TtsError;
use ipa_navigator_kokoro::voices::{all_voices, AmericanFemaleVoice, VoiceType};

fn file_of(value: f32) -> Vec<u8> {
    let mut b = Vec::with_capacity(510 * 256 * 4);
    for _ in 0..510 * 256 {
        b.extend_from_slice(&value.to_le_bytes());
    }
    b
}

#[test]
fn right_size_file_loads_every_value() {
    let bytes = file_of(0.25);
    assert_eq!(bytes.len(), EMBEDDING_BYTES);
    let words = decode_embedding(&bytes).ok().unwrap();
    assert_eq!(words.len(), 510 * 1 * 256);
    assert!(words.iter().all(|w| f32::from_bits(*w) == 0.25));
}

#[test]
fn words_are_little_endian() {
    let mut bytes = vec![0u8; EMBEDDING_BYTES];
    bytes[0] = 0x01;
    bytes[1] = 0x02;
    bytes[2] = 0x03;
    bytes[3] = 0x04;
    bytes[EMBEDDING_BYTES - 1] = 0xff;
    let words = decode_embedding(&bytes).ok().unwrap();
    assert_eq!(words[0], 0x04030201);
    assert_eq!(words[words.len() - 1], 0xff000000);
}

#[test]
fn wrong_size_file_is_a_voice_data_error() {
    for n in [0usize, 4, EMBEDDING_BYTES - 4, EMBEDDING_BYTES + 1] {
        match decode_embedding(&vec![0u8; n]) {
            Err(TtsError::VoiceDataError(m)) => {
                assert_eq!(m, "Voice file has unexpected size: expected 522240 bytes")
            }
            _ => panic!("{} bytes should be refused", n),
        }
    }
}

#[test]
fn store_loads_lazily_and_keeps() {
    let mut store = VoiceStore::new();
    let bella = VoiceType::AmericanFemale(AmericanFemaleVoice::Bella);
    assert!(store.available_voices().is_empty());
    assert!(!store.is_loaded(bella));
    assert!(store.get_voice_embedding(bella).is_none());
    assert!(store.load_voice_embedding(bella, &[0u8; 3]).is_err());
    assert!(!store.is_loaded(bella));
    assert!(store.load_voice_embedding(bella, &file_of(1.0)).is_ok());
    assert!(store.is_loaded(bella));
    assert_eq!(store.available_voices(), vec![bella]);
    let e = store.get_voice_embedding(bella).unwrap();
    assert_eq!(e.len(), 130560);
    assert_eq!(f32::from_bits(e[0]), 1.0);
}

#[test]
fn preload_keeps_what_loaded_and_reports_first_failure() {
    let voices = all_voices();
    let mut files: Vec<Result<Vec<u8>, String>> = Vec::new();
    for i in 0..12 {
        if i == 3 {
            files.push(Err("Voice file not found".to_string()));
        } else if i == 7 {
            files.push(Ok(vec![0u8; 10]));
        } else {
            files.push(Ok(file_of(0.5)));
        }
    }
    let mut store = VoiceStore::new();
    match store.load_all_voice_embeddings(&files) {
        Err(TtsError::VoiceDataError(m)) => {
            assert_eq!(m, "Failed to load voice data: Voice file not found")
        }
        _ => panic!("expected the first failure"),
    }
    let available = store.available_voices();
    assert_eq!(available.len(), 10);
    assert!(!available.contains(&voices[3]));
    assert!(!available.contains(&voices[7]));

    let all_ok: Vec<Result<Vec<u8>, String>> = (0..12).map(|_| Ok(file_of(0.5))).collect();
    let mut full = VoiceStore::new();
    assert!(full.load_all_voice_embeddings(&all_ok).is_ok());
    assert_eq!(full.available_voices(), voices);
}

#[test]
fn preload_reports_a_wrong_size_first() {
    let mut files: Vec<Result<Vec<u8>, String>> = Vec::new();
    for i in 0..12 {
        if i == 2 {
            files.push(Ok(vec![0u8; 8]));
        } else if i == 5 {
            files.push(Err("Voice file not found".to_string()));
        } else {
            files.push(Ok(vec![0u8; EMBEDDING_BYTES]));
        }
    }
    let mut store = VoiceStore::new();
    match store.load_all_voice_embeddings(&files) {
        Err(TtsError::VoiceDataError(m)) => assert_eq!(
            m,
            "Failed to load voice data: Voice file has unexpected size: expected 522240 bytes"
        ),
        _ => panic!("expected the size failure of the third voice"),
    }
    assert_eq!(store.available_voices().len(), 10);
}
