use ipa_navigator_kokoro::voices::{
    all_voices, parse_voice, AmericanFemaleVoice, AmericanMaleVoice, BritishFemaleVoice,
    BritishMaleVoice, VoiceType,
};

#[test]
fn test_voice_file_names() {
    assert_eq!(
        VoiceType::AmericanFemale(AmericanFemaleVoice::Bella).file_name(),
        "af_bella.bin"
    );
    assert_eq!(
        VoiceType::AmericanMale(AmericanMaleVoice::Fenrir).file_name(),
        "am_fenrir.bin"
    );
    assert_eq!(
        VoiceType::BritishFemale(BritishFemaleVoice::Emma).file_name(),
        "bf_emma.bin"
    );
    assert_eq!(
        VoiceType::BritishMale(BritishMaleVoice::Fable).file_name(),
        "bm_fable.bin"
    );
}

#[test]
fn voice_path_under_assets_root() {
    let voice = VoiceType::AmericanFemale(AmericanFemaleVoice::Bella);
    assert_eq!(voice.path("/srv/assets"), "/srv/assets/Kokoro/af_bella.bin");
}

#[test]
fn voice_languages_follow_dialect() {
    assert_eq!(VoiceType::AmericanMale(AmericanMaleVoice::Puck).language(), "en-us");
    assert_eq!(VoiceType::AmericanFemale(AmericanFemaleVoice::Sky).language(), "en-us");
    assert_eq!(VoiceType::BritishMale(BritishMaleVoice::Lewis).language(), "en-gb");
    assert_eq!(VoiceType::BritishFemale(BritishFemaleVoice::Lily).language(), "en-gb");
}

#[test]
fn catalog_has_twelve_distinct_voices() {
    let voices = all_voices();
    assert_eq!(voices.len(), 12);
    for (i, v) in voices.iter().enumerate() {
        assert_eq!(v.index(), i);
        for w in voices.iter().skip(i + 1) {
            assert_ne!(v.file_name(), w.file_name());
        }
    }
}

#[test]
fn parse_known_and_unknown_voices() {
    assert_eq!(
        parse_voice("american_female_bella"),
        Ok(VoiceType::AmericanFemale(AmericanFemaleVoice::Bella))
    );
    assert_eq!(
        parse_voice("british_male_george"),
        Ok(VoiceType::BritishMale(BritishMaleVoice::George))
    );
    for v in all_voices() {
        assert_eq!(parse_voice(v.id()), Ok(v));
    }
    assert_eq!(parse_voice("bella"), Err("Unsupported voice: bella".to_string()));
    assert_eq!(parse_voice(""), Err("Unsupported voice: ".to_string()));
}
