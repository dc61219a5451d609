use ipa_navigator_kokoro::tts::inference_tokens;
use ipa_navigator_kokoro::vocab::{pad_tokens, tokenize, tokens_to_phonemes, Vocabulary};

#[test]
fn test_tokenize() {
    let text = "heɪ ðɪs ɪz ˈlʌvliː!";
    let tokens = tokenize(text);

    let expected = vec![
        50, 47, 102, 16, 81, 102, 61, 16, 102, 68, 16, 156, 54, 138, 64, 54, 51, 158, 5,
    ];

    assert_eq!(tokens, expected);

    let empty = "";
    let empty_tokens = tokenize(empty);
    assert!(empty_tokens.is_empty());

    let punct = "...";
    let punct_tokens = tokenize(punct);
    assert_eq!(punct_tokens.len(), 3);
}

#[test]
fn test_tokens_to_phonemes() {
    let tokens = vec![24, 47, 54, 54, 57, 5];
    let text = tokens_to_phonemes(&tokens);
    assert_eq!(text, "Hello!");

    let tokens = vec![
        0, 50, 83, 54, 156, 57, 135, 3, 16, 65, 156, 87, 158, 54, 46, 5, 0,
    ];

    let text = tokens_to_phonemes(&tokens);
    assert_eq!(text, "$həlˈoʊ, wˈɜːld!$");

    let empty_tokens: Vec<i64> = vec![];
    assert_eq!(tokens_to_phonemes(&empty_tokens), "");
}

#[test]
fn punctuation_tokens_are_single_width() {
    assert_eq!(tokenize("..."), vec![4, 4, 4]);
    assert_eq!(tokenize(""), Vec::<i64>::new());
}

#[test]
fn unknown_characters_are_dropped() {
    assert_eq!(tokenize("a1b"), vec![43, 44]);
    assert_eq!(tokens_to_phonemes(&[-1, 43, 178, 1000, 44]), "ab");
}

#[test]
fn round_trip_of_vocabulary_text() {
    let s = "$;:,.!?¡¿—…\"«»“” AZaz ɑɐɒæˈˌːᵻ'↓";
    assert_eq!(tokens_to_phonemes(&tokenize(s)), s);
    let lossy = "h€llo";
    assert_eq!(tokens_to_phonemes(&tokenize(lossy)), "hllo");
}

#[test]
fn apostrophe_takes_its_later_position() {
    assert_eq!(tokenize("'"), vec![176]);
    assert_eq!(tokens_to_phonemes(&[174]), "");
    assert_eq!(tokens_to_phonemes(&[176]), "'");
    assert_eq!(tokens_to_phonemes(&[175]), "\u{329}");
}

#[test]
fn vocabulary_lookups() {
    let v = Vocabulary::new();
    assert_eq!(v.token_id('$'), Some(0));
    assert_eq!(v.token_id(' '), Some(16));
    assert_eq!(v.token_id('ᵻ'), Some(177));
    assert_eq!(v.token_id('1'), None);
    assert_eq!(v.symbol(0), Some('$'));
    assert_eq!(v.symbol(177), Some('ᵻ'));
    assert_eq!(v.symbol(178), None);
    assert_eq!(v.tokenize("ab"), vec![43, 44]);
    assert_eq!(v.detokenize(&[43, 44]), "ab");
}

#[test]
fn padding_surrounds_tokens() {
    assert_eq!(pad_tokens(vec![5, 6]), vec![0, 5, 6, 0]);
    assert_eq!(pad_tokens(vec![]), vec![0, 0]);
    let v = Vocabulary::new();
    assert_eq!(inference_tokens(&v, "hi!"), vec![0, 50, 51, 5, 0]);
}
