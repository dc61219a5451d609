use ipa_navigator_kokoro::cache::{SynthesisCache, CACHE_TTL_MS};
use ipa_navigator_kokoro::error::TtsError;
use ipa_navigator_kokoro::tts::{begin_synthesis, SynthesisStart};
use ipa_navigator_kokoro::tts::{
    decimal_string, generate_cache_key, shape_holds, phonemes_from_parts, prepare_request, validate_speed,
    DEFAULT_SPEED_BITS,
};
use ipa_navigator_kokoro::voices::{AmericanFemaleVoice, BritishFemaleVoice, VoiceType};

#[test]
fn test_generate_cache_key() {
    let voice1 = VoiceType::AmericanFemale(AmericanFemaleVoice::Bella);
    let voice2 = VoiceType::BritishFemale(BritishFemaleVoice::Emma);

    let key1 = generate_cache_key("Hello world", &voice1, 1.0f32.to_bits());
    let key2 = generate_cache_key("Hello world", &voice1, 1.0f32.to_bits());
    let key3 = generate_cache_key("Hello world", &voice2, 1.0f32.to_bits());
    let key4 = generate_cache_key("Hello world", &voice1, 1.5f32.to_bits());

    assert_eq!(key1, key2, "Same inputs should generate the same cache key");
    assert_ne!(key1, key3, "Different voices should produce different cache keys");
    assert_ne!(key1, key4, "Different speeds should produce different cache keys");
}

#[test]
fn cache_key_layout() {
    let v = VoiceType::AmericanFemale(AmericanFemaleVoice::Bella);
    assert_eq!(generate_cache_key("Hi", &v, 1065353216), "Hi:af_bella.bin:1065353216");
    assert_ne!(
        generate_cache_key("Hi", &v, 1065353216),
        generate_cache_key("Hi.", &v, 1065353216)
    );
    assert_eq!(DEFAULT_SPEED_BITS, 1.0f32.to_bits());
}

#[test]
fn decimal_strings() {
    assert_eq!(decimal_string(0), "0");
    assert_eq!(decimal_string(7), "7");
    assert_eq!(decimal_string(10), "10");
    assert_eq!(decimal_string(4294967295), "4294967295");
}

#[test]
fn speed_bounds_are_inclusive() {
    let v = VoiceType::AmericanFemale(AmericanFemaleVoice::Bella);
    for s in [0.4f32, 2.1, -1.0, 0.0, f32::NAN, f32::INFINITY, -0.0] {
        match prepare_request("Hello", v, s.to_bits()) {
            Err(TtsError::ValidationError(_)) => {}
            _ => panic!("speed {} should be rejected", s),
        }
        assert!(validate_speed(s.to_bits()).is_err());
    }
    for s in [0.5f32, 1.0, 1.5, 2.0] {
        let q = prepare_request("  Dr. Who  ", v, s.to_bits()).ok().unwrap();
        assert_eq!(q.text, "Doctor Who");
        assert_eq!(q.voice, v);
        assert_eq!(q.speed_bits, s.to_bits());
        assert_eq!(q.cache_key, generate_cache_key("Doctor Who", &v, s.to_bits()));
    }
}

#[test]
fn phonemizer_output_is_joined_or_reported() {
    let parts = vec!["həlˈoʊ".to_string(), " wˈɜːld".to_string()];
    assert_eq!(phonemes_from_parts(Ok(parts)).ok().unwrap(), "həlˈoʊ wˈɜːld");
    assert_eq!(phonemes_from_parts(Ok(vec![])).ok().unwrap(), "");
    match phonemes_from_parts(Err("bad language".to_string())) {
        Err(TtsError::PhonemeError(m)) => assert_eq!(m, "Phonemizer error: bad language"),
        _ => panic!("expected a phoneme error"),
    }
}

#[test]
fn synthesis_starts_from_cache_or_as_a_miss() {
    let v = VoiceType::AmericanFemale(AmericanFemaleVoice::Bella);
    let mut cache = SynthesisCache::new(2, CACHE_TTL_MS);
    let key = match begin_synthesis(&mut cache, " Hi  there ", v, 1.0f32.to_bits(), 0) {
        Ok(SynthesisStart::Miss(q)) => {
            assert_eq!(q.text, "Hi there");
            q.cache_key
        }
        _ => panic!("an empty cache misses"),
    };
    cache.insert(key, vec![5, 6], 0);
    match begin_synthesis(&mut cache, "Hi there", v, 1.0f32.to_bits(), 10) {
        Ok(SynthesisStart::Cached(a)) => assert_eq!(a, vec![5, 6]),
        _ => panic!("the same normalized request hits"),
    }
    match begin_synthesis(&mut cache, "Hi there", v, 0.4f32.to_bits(), 10) {
        Err(TtsError::ValidationError(_)) => {}
        _ => panic!("speed 0.4 is rejected"),
    }
    assert_eq!(cache.len(), 1);
    match begin_synthesis(&mut cache, "Hi there", v, 1.0f32.to_bits(), CACHE_TTL_MS) {
        Ok(SynthesisStart::Miss(_)) => {}
        _ => panic!("an expired entry misses"),
    }
    assert_eq!(cache.len(), 0);
}

#[test]
fn output_shapes_must_hold_the_data() {
    assert!(shape_holds(&[1, 24000], 24000));
    assert!(shape_holds(&[24000], 24000));
    assert!(shape_holds(&[], 1));
    assert!(shape_holds(&[2, 0, 5], 0));
    assert!(!shape_holds(&[2, 3], 5));
    assert!(!shape_holds(&[-1, 3], 3));
    assert!(!shape_holds(&[i64::MAX, i64::MAX, 0], 1));
    assert!(!shape_holds(&[i64::MAX, 2], 4));
}

#[test]
fn speed_error_carries_the_reason() {
    match validate_speed(3.0f32.to_bits()) {
        Err(TtsError::ValidationError(m)) => assert_eq!(m, "Speed must be between 0.5 and 2.0"),
        _ => panic!("speed 3.0 is rejected"),
    }
}
